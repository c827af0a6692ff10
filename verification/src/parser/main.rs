use vstd::prelude::*;
use crate::ast::traverser::walk_text;
use crate::error::JsonError;
use crate::parser::parser::JsonTextParser;
use crate::types::types::{JsonTypeValue, JsonView};

verus! {

/// A reader of one text into the typed tree.
pub trait JsonParser: Sized {
    /// The text that is read.
    spec fn text(&self) -> Seq<char>;

    /// The containers read so far, the document first.
    spec fn state(&self) -> Seq<JsonView>;

    /// A reader of `json` that has read nothing yet.
    fn parser(json: String) -> (p: Self)
        ensures
            p.text() == json@,
            p.state() == Seq::<JsonView>::empty(),
    ;

    /// Reads the text. On success the document is the last of the
    /// containers that are left.
    fn parse(&mut self) -> (r: Result<(), JsonError>)
        ensures
            match walk_text::<JsonTextParser>(
                old(self).state(),
                seq![Seq::<char>::empty()],
                old(self).text(),
            ) {
                Ok((s, _)) => r is Ok && final(self).state() == s,
                Err(e) => r == Err::<(), JsonError>(e),
            },
    ;

    /// The document that was read.
    fn get(&self) -> (r: Option<&JsonTypeValue>)
        ensures
            match r {
                Some(e) => self.state().len() > 0 && e.view() == self.state().last(),
                None => self.state().len() == 0,
            },
    ;

    /// The document that was read, to be changed.
    fn get_mut(&mut self) -> (r: Option<&mut JsonTypeValue>)
        ensures
            match r {
                Some(e) => old(self).state().len() > 0 && e.view() == old(self).state().last()
                    && final(self).state() == old(self).state().drop_last().push(final(e).view()),
                None => old(self).state().len() == 0 && final(self).state() == old(self).state(),
            },
    ;
}

} // verus!

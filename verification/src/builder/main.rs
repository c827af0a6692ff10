use vstd::prelude::*;
use crate::builder::array::JsonBuilderArray;
use crate::builder::component::JsonBuilderComponent;
use crate::builder::object::{EntryView, JsonBuilderObject};
use crate::builder::value::JsonBuilderValueView;
use crate::types::types::{JsonTypeArray, JsonTypeObject, JsonView};

verus! {

/// Where building starts and ends: empty containers to fill, and the text
/// of a filled one.
pub trait JsonBuilder {
    fn builder_object() -> (o: JsonBuilderObject)
        ensures
            o@ == Seq::<EntryView>::empty(),
            o.wf(),
    ;

    fn builder_array() -> (a: JsonBuilderArray)
        ensures
            a@ == Seq::<JsonBuilderValueView>::empty(),
    ;

    fn object() -> (o: JsonTypeObject)
        ensures
            o.view() == Seq::<(Seq<char>, JsonView)>::empty(),
            o.wf(),
    ;

    fn array() -> (a: JsonTypeArray)
        ensures
            a.view() == Seq::<JsonView>::empty(),
    ;

    /// The compact text of a container: what it converts to.
    fn build<C: Into<JsonBuilderComponent>>(jc: C) -> (s: String)
        ensures
            exists|c: JsonBuilderComponent|
                call_ensures(<C as Into<JsonBuilderComponent>>::into, (jc,), c) && s@ == c@,
    ;
}

} // verus!

use vstd::prelude::*;
use vstd::string::StringExecFns;
use crate::ast::parser::{
    ArrayExpression,
    ArrayLiteral,
    BooleanLiteral,
    KeyLiteral,
    NullLiteral,
    ObjectExpression,
    ObjectLiteral,
    StringLiteral,
};
use crate::ast::traverser::{Event, JsonTraverser, JsonTraverserTrait, Visit, walk_text};
use crate::text::strings_view;
use crate::builder::parser::{key_at, pop_key};
use crate::entries::put;
use crate::error::{JsonError, StructuralFault, TypeFault};
use crate::number::{Number, NumberView};
use crate::types::types::{
    JsonContainer,
    JsonContainerType,
    JsonType,
    JsonTypeArray,
    JsonTypeBoolean,
    JsonTypeNull,
    JsonTypeNumeric,
    JsonTypeObject,
    JsonTypeString,
    JsonTypeValue,
    JsonView,
};

verus! {

pub type Typed = Result<(Seq<JsonView>, Seq<Seq<char>>), JsonError>;

/// Gives a value to the innermost container: under `key` in an object, at
/// the end of an array. With no container open nothing happens.
pub open spec fn typed_add(stack: Seq<JsonView>, key: Option<Seq<char>>, value: JsonView) -> Result<
    Seq<JsonView>,
    JsonError,
> {
    if stack.len() == 0 {
        Ok(stack)
    } else {
        match stack.last() {
            JsonView::Object(es) => match key {
                Some(k) => Ok(stack.drop_last().push(JsonView::Object(put(es, k, value)))),
                None => Err(JsonError::StructuralError(StructuralFault::ValueWithoutKey)),
            },
            JsonView::Array(vs) => Ok(stack.drop_last().push(JsonView::Array(vs.push(value)))),
            _ => Ok(stack),
        }
    }
}

/// Closes the innermost container and gives it to the one around it. The
/// document itself stays where it is.
pub open spec fn typed_close(stack: Seq<JsonView>, key: Option<Seq<char>>) -> Result<
    Seq<JsonView>,
    JsonError,
> {
    if stack.len() > 1 {
        typed_add(stack.drop_last(), key, stack.last())
    } else {
        Ok(stack)
    }
}

pub open spec fn typed_with(r: Result<Seq<JsonView>, JsonError>, tracker: Seq<Seq<char>>) -> Typed {
    match r {
        Ok(s) => Ok((s, tracker)),
        Err(e) => Err(e),
    }
}

/// What each call of the walk does to the stack of containers and to the
/// tracker: as for the builder's consumer, with typed values.
pub open spec fn typed_react(state: Seq<JsonView>, tracker: Seq<Seq<char>>, v: Visit) -> Typed {
    let key = key_at(tracker, v.level);
    match v.event {
        Event::ObjectExpressionMain => Ok((state.push(JsonView::Object(Seq::empty())), tracker)),
        Event::ArrayExpressionMain => Ok((state.push(JsonView::Array(Seq::empty())), tracker)),
        Event::ObjectExpressionAfter | Event::ArrayExpressionAfter => typed_with(
            typed_close(state, key),
            tracker,
        ),
        Event::ObjectLiteralAfter => Ok((state, pop_key(tracker))),
        Event::StringLiteral(s) => if state.len() > 0 && state.last() is Object && key is None {
            Ok((state, tracker.push(s)))
        } else {
            typed_with(typed_add(state, key, JsonView::Text(s)), tracker)
        },
        Event::BooleanLiteral(b) => typed_with(typed_add(state, key, JsonView::Boolean(b)), tracker),
        Event::NullLiteral => typed_with(typed_add(state, key, JsonView::Null), tracker),
        Event::NumericLiteral(n) => typed_with(
            typed_add(state, key, JsonView::Numeric(n)),
            tracker,
        ),
        _ => Ok((state, tracker)),
    }
}

/// The document that reading `text` into the typed tree ends with.
pub open spec fn read_text(text: Seq<char>) -> Result<JsonView, JsonError> {
    match walk_text::<JsonTextParser>(Seq::empty(), seq![Seq::<char>::empty()], text) {
        Err(e) => Err(e),
        Ok((stack, _)) => if stack.len() > 0 {
            Ok(stack.last())
        } else {
            Err(JsonError::TypeError(TypeFault::Mismatch))
        },
    }
}

/// The consumer that reads the document of a text into the typed tree.
pub struct JsonTextParser {
    container: JsonContainer,
    json: String,
}

impl JsonTextParser {
    pub closed spec fn text(&self) -> Seq<char> {
        self.json@
    }

    pub fn new(json: String) -> (p: Self)
        ensures
            p.text() == json@,
            p.state() == Seq::<JsonView>::empty(),
    {
        Self { json, container: JsonContainer::new() }
    }

    /// The innermost container that is left: after a walk, the document.
    pub fn get(&self) -> (r: Option<&JsonTypeValue>)
        ensures
            match r {
                Some(e) => self.state().len() > 0 && e.view() == self.state().last(),
                None => self.state().len() == 0,
            },
    {
        self.container.get_last()
    }

    pub fn get_mut(&mut self) -> (r: Option<&mut JsonTypeValue>)
        ensures
            match r {
                Some(e) => old(self).state().len() > 0 && e.view() == old(self).state().last()
                    && final(self).state() == old(self).state().drop_last().push(final(e).view()),
                None => old(self).state().len() == 0 && final(self).state() == old(self).state(),
            },
    {
        self.container.get_last_mut()
    }

    /// Walks the text and reads its document.
    pub fn parse(&mut self) -> (r: Result<(), JsonError>)
        ensures
            match walk_text::<Self>(
                old(self).state(),
                seq![Seq::<char>::empty()],
                old(self).text(),
            ) {
                Ok((s, _)) => r is Ok && final(self).state() == s,
                Err(e) => r == Err::<(), JsonError>(e),
            },
    {
        let mut traverser = JsonTraverser::new(self.json.as_str());
        traverser.parse(self)
    }

    fn add<T: JsonType>(&mut self, tracker: &Vec<String>, level: usize, value: T) -> (r: Result<
        (),
        JsonError,
    >)
        ensures
            final(self).json == old(self).json,
            match r {
                Ok(_) => typed_add(
                    old(self).state(),
                    key_at(strings_view(tracker@), level as nat),
                    value.json(),
                ) == Ok::<Seq<JsonView>, JsonError>(final(self).state()),
                Err(e) => typed_add(
                    old(self).state(),
                    key_at(strings_view(tracker@), level as nat),
                    value.json(),
                ) == Err::<Seq<JsonView>, JsonError>(e),
            },
    {
        let ghost before = self.state();
        match self.container.get_last_mut() {
            None => Ok(()),
            Some(entity) => match entity {
                JsonTypeValue::Object(o) => {
                    if level < tracker.len() {
                        o.add(tracker[level].as_str(), value);
                        Ok(())
                    } else {
                        Err(JsonError::StructuralError(StructuralFault::ValueWithoutKey))
                    }
                },
                JsonTypeValue::Array(a) => {
                    a.add(value);
                    Ok(())
                },
                _ => {
                    assert(before.drop_last().push(before.last()) =~= before);
                    Ok(())
                },
            },
        }
    }

    fn close(&mut self, tracker: &Vec<String>, level: usize) -> (r: Result<(), JsonError>)
        ensures
            final(self).json == old(self).json,
            match r {
                Ok(_) => typed_close(old(self).state(), key_at(strings_view(tracker@), level as nat))
                    == Ok::<Seq<JsonView>, JsonError>(final(self).state()),
                Err(e) => typed_close(
                    old(self).state(),
                    key_at(strings_view(tracker@), level as nat),
                ) == Err::<Seq<JsonView>, JsonError>(e),
            },
    {
        match self.container.pop_entity() {
            Some(entity) => self.add(tracker, level, entity),
            None => Ok(()),
        }
    }

    /// Gives up the parser for the document it has read.
    pub fn into_document(self) -> (r: Option<JsonTypeValue>)
        ensures
            match r {
                Some(e) => self.state().len() > 0 && e.view() == self.state().last(),
                None => self.state().len() == 0,
            },
    {
        let mut container = self.container;
        container.pop_last()
    }
}

impl JsonTraverserTrait for JsonTextParser {
    type State = Seq<JsonView>;

    closed spec fn state(&self) -> Seq<JsonView> {
        self.container.view()
    }

    open spec fn react(state: Seq<JsonView>, tracker: Seq<Seq<char>>, v: Visit) -> Typed {
        typed_react(state, tracker, v)
    }

    fn object_expression_main(
        &mut self,
        v: &ObjectExpression,
        tracker: &mut Vec<String>,
        level: usize,
    ) -> (r: Result<(), JsonError>) {
        self.container.push_entity(JsonTypeObject::new());
        Ok(())
    }

    fn object_expression_after(&mut self, tracker: &mut Vec<String>, level: usize) -> (r: Result<
        (),
        JsonError,
    >) {
        self.close(tracker, level)
    }

    fn array_expression_main(
        &mut self,
        v: &ArrayExpression,
        tracker: &mut Vec<String>,
        level: usize,
    ) -> (r: Result<(), JsonError>) {
        self.container.push_entity(JsonTypeArray::new());
        Ok(())
    }

    fn array_expression_after(&mut self, tracker: &mut Vec<String>, level: usize) -> (r: Result<
        (),
        JsonError,
    >) {
        self.close(tracker, level)
    }

    fn object_literal_before(
        &mut self,
        v: &ObjectLiteral,
        tracker: &mut Vec<String>,
        level: usize,
    ) -> (r: Result<(), JsonError>) {
        Ok(())
    }

    fn object_literal_after(
        &mut self,
        v: &ObjectLiteral,
        tracker: &mut Vec<String>,
        level: usize,
    ) -> (r: Result<(), JsonError>) {
        let _ = tracker.pop();
        assert(strings_view(tracker@) =~= pop_key(strings_view(old(tracker)@)));
        Ok(())
    }

    fn array_literal(&mut self, v: &ArrayLiteral, tracker: &mut Vec<String>, level: usize) -> (r:
        Result<(), JsonError>) {
        Ok(())
    }

    fn key_literal(&mut self, v: &KeyLiteral, tracker: &mut Vec<String>, level: usize) -> (r:
        Result<(), JsonError>) {
        Ok(())
    }

    fn string_literal(&mut self, v: &StringLiteral, tracker: &mut Vec<String>, level: usize) -> (r:
        Result<(), JsonError>) {
        let in_object = match self.container.get_last() {
            Some(JsonTypeValue::Object(_)) => true,
            _ => false,
        };
        if in_object && level >= tracker.len() {
            tracker.push(v.get());
            assert(strings_view(tracker@) =~= strings_view(old(tracker)@).push(v.value@));
            Ok(())
        } else {
            self.add(tracker, level, JsonTypeString::new(v.value.as_str()))
        }
    }

    fn boolean_literal(&mut self, v: &BooleanLiteral, tracker: &mut Vec<String>, level: usize) -> (r:
        Result<(), JsonError>) {
        self.add(tracker, level, JsonTypeBoolean::new(v.get()))
    }

    fn null_literal(&mut self, v: &NullLiteral, tracker: &mut Vec<String>, level: usize) -> (r:
        Result<(), JsonError>) {
        self.add(tracker, level, JsonTypeNull::new())
    }

    fn numeric_literal_u8(&mut self, v: u8, tracker: &mut Vec<String>, level: usize) -> (r:
        Result<(), JsonError>)
    {
        self.add(tracker, level, JsonTypeNumeric::new(Number::U8(v)))
    }

    fn numeric_literal_u16(&mut self, v: u16, tracker: &mut Vec<String>, level: usize) -> (r:
        Result<(), JsonError>)
    {
        self.add(tracker, level, JsonTypeNumeric::new(Number::U16(v)))
    }

    fn numeric_literal_u32(&mut self, v: u32, tracker: &mut Vec<String>, level: usize) -> (r:
        Result<(), JsonError>)
    {
        self.add(tracker, level, JsonTypeNumeric::new(Number::U32(v)))
    }

    fn numeric_literal_u64(&mut self, v: u64, tracker: &mut Vec<String>, level: usize) -> (r:
        Result<(), JsonError>)
    {
        self.add(tracker, level, JsonTypeNumeric::new(Number::U64(v)))
    }

    fn numeric_literal_u128(&mut self, v: u128, tracker: &mut Vec<String>, level: usize) -> (r:
        Result<(), JsonError>)
    {
        self.add(tracker, level, JsonTypeNumeric::new(Number::U128(v)))
    }

    fn numeric_literal_i8(&mut self, v: i8, tracker: &mut Vec<String>, level: usize) -> (r:
        Result<(), JsonError>)
    {
        self.add(tracker, level, JsonTypeNumeric::new(Number::I8(v)))
    }

    fn numeric_literal_i16(&mut self, v: i16, tracker: &mut Vec<String>, level: usize) -> (r:
        Result<(), JsonError>)
    {
        self.add(tracker, level, JsonTypeNumeric::new(Number::I16(v)))
    }

    fn numeric_literal_i32(&mut self, v: i32, tracker: &mut Vec<String>, level: usize) -> (r:
        Result<(), JsonError>)
    {
        self.add(tracker, level, JsonTypeNumeric::new(Number::I32(v)))
    }

    fn numeric_literal_i64(&mut self, v: i64, tracker: &mut Vec<String>, level: usize) -> (r:
        Result<(), JsonError>)
    {
        self.add(tracker, level, JsonTypeNumeric::new(Number::I64(v)))
    }

    fn numeric_literal_i128(&mut self, v: i128, tracker: &mut Vec<String>, level: usize) -> (r:
        Result<(), JsonError>)
    {
        self.add(tracker, level, JsonTypeNumeric::new(Number::I128(v)))
    }

    fn numeric_literal_float(&mut self, v: &String, tracker: &mut Vec<String>, level: usize) -> (r:
        Result<(), JsonError>) {
        self.add(tracker, level, JsonTypeNumeric::new(Number::F32(v.clone())))
    }
}

/// The document of `text` in the typed tree.
pub fn parse_typed(text: &str) -> (r: Result<JsonTypeValue, JsonError>)
    ensures
        match r {
            Ok(v) => read_text(text@) == Ok::<JsonView, JsonError>(v.view()),
            Err(e) => read_text(text@) == Err::<JsonView, JsonError>(e),
        },
{
    let mut parser = JsonTextParser::new(String::from_str(text));
    match parser.parse() {
        Ok(_) => {},
        Err(e) => {
            return Err(e);
        },
    }
    match parser.into_document() {
        Some(v) => Ok(v),
        None => Err(JsonError::TypeError(TypeFault::Mismatch)),
    }
}

} // verus!

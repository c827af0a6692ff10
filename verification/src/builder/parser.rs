use vstd::prelude::*;
use vstd::string::StringExecFns;
use crate::ast::parser::{
    ArrayExpression,
    ArrayLiteral,
    BooleanLiteral,
    KeyLiteral,
    NullLiteral,
    ObjectExpression,
    ObjectLiteral,
    StringLiteral,
};
use crate::ast::traverser::{Event, JsonTraverser, JsonTraverserTrait, Visit, walk_text};
use crate::text::strings_view;
use crate::builder::array::JsonBuilderArray;
use crate::builder::convert::{
    array_value,
    boolean_value,
    null_value,
    number_value,
    object_value,
    string_value,
};
use crate::builder::object::{EntryView, JsonBuilderObject};
use crate::entries::put;
use crate::builder::types::{JsonNull, JsonType};
use crate::builder::value::{JsonBuilderValue, JsonBuilderValueView};
use crate::error::{JsonError, StructuralFault, TypeFault};
use crate::number::{NumberView, number_text};

verus! {

/// A container under reconstruction.
pub enum JsonEntity {
    Object(JsonBuilderObject),
    Array(JsonBuilderArray),
}

pub enum JsonEntityView {
    Object(Seq<EntryView>),
    Array(Seq<JsonBuilderValueView>),
}

impl View for JsonEntity {
    type V = JsonEntityView;

    open spec fn view(&self) -> JsonEntityView {
        match self {
            JsonEntity::Object(o) => JsonEntityView::Object(o@),
            JsonEntity::Array(a) => JsonEntityView::Array(a@),
        }
    }
}

pub open spec fn entities_view(es: Seq<JsonEntity>) -> Seq<JsonEntityView> {
    es.map_values(|e: JsonEntity| e@)
}

/// The stack of containers that are open during a walk, the document first.
pub struct JsonContainer {
    jev: Vec<JsonEntity>,
}

impl View for JsonContainer {
    type V = Seq<JsonEntityView>;

    closed spec fn view(&self) -> Seq<JsonEntityView> {
        entities_view(self.jev@)
    }
}

impl JsonContainer {
    pub fn new() -> (c: Self)
        ensures
            c@ == Seq::<JsonEntityView>::empty(),
    {
        let c = Self { jev: Vec::new() };
        assert(c@ =~= Seq::<JsonEntityView>::empty());
        c
    }

    pub fn get_last(&self) -> (r: Option<&JsonEntity>)
        ensures
            match r {
                Some(e) => self@.len() > 0 && e@ == self@.last(),
                None => self@.len() == 0,
            },
    {
        if self.jev.len() > 0 {
            Some(&self.jev[self.jev.len() - 1])
        } else {
            None
        }
    }

    pub fn get_last_mut(&mut self) -> (r: Option<&mut JsonEntity>)
        ensures
            match r {
                Some(e) => old(self)@.len() > 0 && e@ == old(self)@.last() && final(self)@ == old(
                    self,
                )@.drop_last().push(final(e)@),
                None => old(self)@.len() == 0 && final(self)@ == old(self)@,
            },
    {
        let n = self.jev.len();
        if n > 0 {
            let e = &mut self.jev[n - 1];
            proof {
                assert(entities_view(old(self).jev@.update(n - 1, *final(e))) =~= old(
                    self,
                )@.drop_last().push(final(e)@));
            }
            Some(e)
        } else {
            None
        }
    }

    pub fn push_entity(&mut self, je: JsonEntity)
        ensures
            final(self)@ == old(self)@.push(je@),
    {
        self.jev.push(je);
        assert(self@ =~= old(self)@.push(je@));
    }

    /// Takes the innermost container off the stack, unless it is the
    /// document itself.
    pub fn pop_entity(&mut self) -> (r: Option<JsonEntity>)
        ensures
            match r {
                Some(e) => old(self)@.len() > 1 && e@ == old(self)@.last() && final(self)@ == old(
                    self,
                )@.drop_last(),
                None => old(self)@.len() <= 1 && final(self)@ == old(self)@,
            },
    {
        if self.jev.len() > 1 {
            let e = self.jev.pop();
            assert(self@ =~= old(self)@.drop_last());
            return e;
        }
        None
    }
}


/// The key that the tracker holds for `level`.
pub open spec fn key_at(tracker: Seq<Seq<char>>, level: nat) -> Option<Seq<char>> {
    if level < tracker.len() {
        Some(tracker[level as int])
    } else {
        None
    }
}

/// Gives a value to the innermost container: under `key` in an object, at
/// the end of an array. With no container open nothing happens.
pub open spec fn add_value(
    stack: Seq<JsonEntityView>,
    key: Option<Seq<char>>,
    value: JsonBuilderValueView,
) -> Result<Seq<JsonEntityView>, JsonError> {
    if stack.len() == 0 {
        Ok(stack)
    } else {
        match stack.last() {
            JsonEntityView::Object(es) => match key {
                Some(k) => Ok(stack.drop_last().push(JsonEntityView::Object(put(es, k, value)))),
                None => Err(JsonError::StructuralError(StructuralFault::ValueWithoutKey)),
            },
            JsonEntityView::Array(vs) => Ok(
                stack.drop_last().push(JsonEntityView::Array(vs.push(value))),
            ),
        }
    }
}

/// A finished container as a value: its kind and its rendering.
pub open spec fn entity_value(e: JsonEntityView) -> JsonBuilderValueView {
    match e {
        JsonEntityView::Object(es) => object_value(es),
        JsonEntityView::Array(vs) => array_value(vs),
    }
}

/// Closes the innermost container and gives it to the one around it. The
/// document itself stays where it is.
pub open spec fn close_top(stack: Seq<JsonEntityView>, key: Option<Seq<char>>) -> Result<
    Seq<JsonEntityView>,
    JsonError,
> {
    if stack.len() > 1 {
        add_value(stack.drop_last(), key, entity_value(stack.last()))
    } else {
        Ok(stack)
    }
}

pub open spec fn pop_key(tracker: Seq<Seq<char>>) -> Seq<Seq<char>> {
    if tracker.len() > 0 {
        tracker.drop_last()
    } else {
        tracker
    }
}

pub open spec fn with_tracker(
    r: Result<Seq<JsonEntityView>, JsonError>,
    tracker: Seq<Seq<char>>,
) -> Result<(Seq<JsonEntityView>, Seq<Seq<char>>), JsonError> {
    match r {
        Ok(s) => Ok((s, tracker)),
        Err(e) => Err(e),
    }
}

/// What each call of the walk does to the stack of containers and to the
/// tracker.
///
/// A container is opened when the walk enters it and given to the one
/// around it when the walk leaves it. A leaf is given to the innermost
/// container, under the key that the tracker holds for its level. The first
/// string at a level of an object that has no key yet is that key; the key
/// is dropped when the entry is done.
pub open spec fn builder_react(state: Seq<JsonEntityView>, tracker: Seq<Seq<char>>, v: Visit)
    -> Result<(Seq<JsonEntityView>, Seq<Seq<char>>), JsonError> {
    let key = key_at(tracker, v.level);
    match v.event {
        Event::ObjectExpressionMain => Ok(
            (state.push(JsonEntityView::Object(Seq::empty())), tracker),
        ),
        Event::ArrayExpressionMain => Ok((state.push(JsonEntityView::Array(Seq::empty())), tracker)),
        Event::ObjectExpressionAfter | Event::ArrayExpressionAfter => with_tracker(
            close_top(state, key),
            tracker,
        ),
        Event::ObjectLiteralAfter => Ok((state, pop_key(tracker))),
        Event::StringLiteral(s) => if state.len() > 0 && state.last() is Object && key is None {
            Ok((state, tracker.push(s)))
        } else {
            with_tracker(add_value(state, key, string_value(s)), tracker)
        },
        Event::BooleanLiteral(b) => with_tracker(add_value(state, key, boolean_value(b)), tracker),
        Event::NullLiteral => with_tracker(add_value(state, key, null_value()), tracker),
        Event::NumericLiteral(n) => with_tracker(
            add_value(
                state,
                key,
                JsonBuilderValueView { dt: JsonType::Number, value: number_text(n) },
            ),
            tracker,
        ),
        _ => Ok((state, tracker)),
    }
}

/// The consumer that builds the document of a text again, as the builder
/// holds it.
pub struct JsonBuilderParser {
    json: String,
    container: JsonContainer,
}

/// The container that rebuilding `text` ends with.
pub open spec fn rebuild(text: Seq<char>) -> Result<JsonEntityView, JsonError> {
    match walk_text::<JsonBuilderParser>(Seq::empty(), seq![Seq::<char>::empty()], text) {
        Err(e) => Err(e),
        Ok((stack, _)) => if stack.len() > 0 {
            Ok(stack.last())
        } else {
            Err(JsonError::TypeError(TypeFault::Mismatch))
        },
    }
}

impl JsonBuilderParser {
    pub closed spec fn text(&self) -> Seq<char> {
        self.json@
    }

    pub fn new(json: String) -> (p: Self)
        ensures
            p.text() == json@,
            p.state() == Seq::<JsonEntityView>::empty(),
    {
        Self { json, container: JsonContainer::new() }
    }

    /// The innermost container that is left: after a walk, the document.
    pub fn get(&self) -> (r: Option<&JsonEntity>)
        ensures
            match r {
                Some(e) => self.state().len() > 0 && e@ == self.state().last(),
                None => self.state().len() == 0,
            },
    {
        self.container.get_last()
    }

    /// Walks the text and rebuilds its document.
    pub fn parse(&mut self) -> (r: Result<(), JsonError>)
        ensures
            match walk_text::<Self>(
                old(self).state(),
                seq![Seq::<char>::empty()],
                old(self).text(),
            ) {
                Ok((s, _)) => r is Ok && final(self).state() == s,
                Err(e) => r == Err::<(), JsonError>(e),
            },
    {
        let mut traverser = JsonTraverser::new(self.json.as_str());
        traverser.parse(self)
    }

    /// The value under `level` in the tracker, given to the innermost
    /// container.
    fn add(&mut self, tracker: &Vec<String>, level: usize, value: JsonBuilderValue) -> (r: Result<
        (),
        JsonError,
    >)
        ensures
            final(self).json == old(self).json,
            match r {
                Ok(_) => add_value(
                    old(self).state(),
                    key_at(strings_view(tracker@), level as nat),
                    value@,
                ) == Ok::<Seq<JsonEntityView>, JsonError>(final(self).state()),
                Err(e) => add_value(
                    old(self).state(),
                    key_at(strings_view(tracker@), level as nat),
                    value@,
                ) == Err::<Seq<JsonEntityView>, JsonError>(e),
            },
    {
        match self.container.get_last_mut() {
            None => Ok(()),
            Some(entity) => match entity {
                JsonEntity::Object(o) => {
                    if level < tracker.len() {
                        let _ = o.put(tracker[level].clone(), value);
                        Ok(())
                    } else {
                        Err(JsonError::StructuralError(StructuralFault::ValueWithoutKey))
                    }
                },
                JsonEntity::Array(a) => {
                    let _ = a.push(value);
                    Ok(())
                },
            },
        }
    }

    /// Closes the innermost container and gives it to the one around it.
    fn close(&mut self, tracker: &Vec<String>, level: usize) -> (r: Result<(), JsonError>)
        ensures
            final(self).json == old(self).json,
            match r {
                Ok(_) => close_top(old(self).state(), key_at(strings_view(tracker@), level as nat))
                    == Ok::<Seq<JsonEntityView>, JsonError>(final(self).state()),
                Err(e) => close_top(
                    old(self).state(),
                    key_at(strings_view(tracker@), level as nat),
                ) == Err::<Seq<JsonEntityView>, JsonError>(e),
            },
    {
        match self.container.pop_entity() {
            Some(entity) => {
                let value = match entity {
                    JsonEntity::Object(o) => JsonBuilderValue::from(o),
                    JsonEntity::Array(a) => JsonBuilderValue::from(a),
                };
                self.add(tracker, level, value)
            },
            None => Ok(()),
        }
    }
}

impl JsonTraverserTrait for JsonBuilderParser {
    type State = Seq<JsonEntityView>;

    closed spec fn state(&self) -> Seq<JsonEntityView> {
        self.container@
    }

    open spec fn react(state: Seq<JsonEntityView>, tracker: Seq<Seq<char>>, v: Visit) -> Result<
        (Seq<JsonEntityView>, Seq<Seq<char>>),
        JsonError,
    > {
        builder_react(state, tracker, v)
    }

    fn object_expression_main(
        &mut self,
        v: &ObjectExpression,
        tracker: &mut Vec<String>,
        level: usize,
    ) -> (r: Result<(), JsonError>) {
        self.container.push_entity(JsonEntity::Object(JsonBuilderObject::new()));
        Ok(())
    }

    fn object_expression_after(&mut self, tracker: &mut Vec<String>, level: usize) -> (r: Result<
        (),
        JsonError,
    >) {
        self.close(tracker, level)
    }

    fn array_expression_main(
        &mut self,
        v: &ArrayExpression,
        tracker: &mut Vec<String>,
        level: usize,
    ) -> (r: Result<(), JsonError>) {
        self.container.push_entity(JsonEntity::Array(JsonBuilderArray::new()));
        Ok(())
    }

    fn array_expression_after(&mut self, tracker: &mut Vec<String>, level: usize) -> (r: Result<
        (),
        JsonError,
    >) {
        self.close(tracker, level)
    }

    fn object_literal_before(
        &mut self,
        v: &ObjectLiteral,
        tracker: &mut Vec<String>,
        level: usize,
    ) -> (r: Result<(), JsonError>) {
        Ok(())
    }

    fn object_literal_after(
        &mut self,
        v: &ObjectLiteral,
        tracker: &mut Vec<String>,
        level: usize,
    ) -> (r: Result<(), JsonError>) {
        let _ = tracker.pop();
        assert(strings_view(tracker@) =~= pop_key(strings_view(old(tracker)@)));
        Ok(())
    }

    fn array_literal(&mut self, v: &ArrayLiteral, tracker: &mut Vec<String>, level: usize) -> (r:
        Result<(), JsonError>) {
        Ok(())
    }

    fn key_literal(&mut self, v: &KeyLiteral, tracker: &mut Vec<String>, level: usize) -> (r:
        Result<(), JsonError>) {
        Ok(())
    }

    fn string_literal(&mut self, v: &StringLiteral, tracker: &mut Vec<String>, level: usize) -> (r:
        Result<(), JsonError>) {
        let in_object = match self.container.get_last() {
            Some(JsonEntity::Object(_)) => true,
            _ => false,
        };
        if in_object && level >= tracker.len() {
            tracker.push(v.get());
            assert(strings_view(tracker@) =~= strings_view(old(tracker)@).push(v.value@));
            Ok(())
        } else {
            self.add(tracker, level, JsonBuilderValue::from(v.get()))
        }
    }

    fn boolean_literal(&mut self, v: &BooleanLiteral, tracker: &mut Vec<String>, level: usize) -> (r:
        Result<(), JsonError>) {
        self.add(tracker, level, JsonBuilderValue::from(v.get()))
    }

    fn null_literal(&mut self, v: &NullLiteral, tracker: &mut Vec<String>, level: usize) -> (r:
        Result<(), JsonError>) {
        self.add(tracker, level, JsonBuilderValue::from(JsonNull::new()))
    }

    fn numeric_literal_u8(&mut self, v: u8, tracker: &mut Vec<String>, level: usize) -> (r:
        Result<(), JsonError>)
    {
        self.add(tracker, level, JsonBuilderValue::from(v))
    }

    fn numeric_literal_u16(&mut self, v: u16, tracker: &mut Vec<String>, level: usize) -> (r:
        Result<(), JsonError>)
    {
        self.add(tracker, level, JsonBuilderValue::from(v))
    }

    fn numeric_literal_u32(&mut self, v: u32, tracker: &mut Vec<String>, level: usize) -> (r:
        Result<(), JsonError>)
    {
        self.add(tracker, level, JsonBuilderValue::from(v))
    }

    fn numeric_literal_u64(&mut self, v: u64, tracker: &mut Vec<String>, level: usize) -> (r:
        Result<(), JsonError>)
    {
        self.add(tracker, level, JsonBuilderValue::from(v))
    }

    fn numeric_literal_u128(&mut self, v: u128, tracker: &mut Vec<String>, level: usize) -> (r:
        Result<(), JsonError>)
    {
        self.add(tracker, level, JsonBuilderValue::from(v))
    }

    fn numeric_literal_i8(&mut self, v: i8, tracker: &mut Vec<String>, level: usize) -> (r:
        Result<(), JsonError>)
    {
        self.add(tracker, level, JsonBuilderValue::from(v))
    }

    fn numeric_literal_i16(&mut self, v: i16, tracker: &mut Vec<String>, level: usize) -> (r:
        Result<(), JsonError>)
    {
        self.add(tracker, level, JsonBuilderValue::from(v))
    }

    fn numeric_literal_i32(&mut self, v: i32, tracker: &mut Vec<String>, level: usize) -> (r:
        Result<(), JsonError>)
    {
        self.add(tracker, level, JsonBuilderValue::from(v))
    }

    fn numeric_literal_i64(&mut self, v: i64, tracker: &mut Vec<String>, level: usize) -> (r:
        Result<(), JsonError>)
    {
        self.add(tracker, level, JsonBuilderValue::from(v))
    }

    fn numeric_literal_i128(&mut self, v: i128, tracker: &mut Vec<String>, level: usize) -> (r:
        Result<(), JsonError>)
    {
        self.add(tracker, level, JsonBuilderValue::from(v))
    }

    fn numeric_literal_float(&mut self, v: &String, tracker: &mut Vec<String>, level: usize) -> (r:
        Result<(), JsonError>) {
        self.add(tracker, level, JsonBuilderValue::new(JsonType::Number, v.clone()))
    }
}

/// The document of `text` as the builder holds it.
pub fn parse_text(text: &str) -> (r: Result<JsonEntity, JsonError>)
    ensures
        match r {
            Ok(e) => rebuild(text@) == Ok::<JsonEntityView, JsonError>(e@),
            Err(e) => rebuild(text@) == Err::<JsonEntityView, JsonError>(e),
        },
{
    let mut parser = JsonBuilderParser::new(String::from_str(text));
    match parser.parse() {
        Ok(_) => {},
        Err(e) => {
            return Err(e);
        },
    }
    match parser.container.pop_last() {
        Some(e) => Ok(e),
        None => Err(JsonError::TypeError(TypeFault::Mismatch)),
    }
}

impl JsonContainer {
    /// Takes the innermost container off the stack.
    pub fn pop_last(&mut self) -> (r: Option<JsonEntity>)
        ensures
            match r {
                Some(e) => old(self)@.len() > 0 && e@ == old(self)@.last() && final(self)@ == old(
                    self,
                )@.drop_last(),
                None => old(self)@.len() == 0 && final(self)@ == old(self)@,
            },
    {
        let e = self.jev.pop();
        assert(self@ =~= if old(self)@.len() > 0 {
            old(self)@.drop_last()
        } else {
            old(self)@
        });
        e
    }
}

/// The object that the text of an object value is read back as.
pub open spec fn value_object(v: JsonBuilderValueView) -> Result<Seq<EntryView>, JsonError> {
    if v.dt != JsonType::Object {
        Err(JsonError::TypeError(TypeFault::Mismatch))
    } else {
        match rebuild(v.value) {
            Ok(JsonEntityView::Object(es)) => Ok(es),
            Ok(_) => Err(JsonError::TypeError(TypeFault::Mismatch)),
            Err(e) => Err(e),
        }
    }
}

/// The array that the text of an array value is read back as.
pub open spec fn value_array(v: JsonBuilderValueView) -> Result<
    Seq<JsonBuilderValueView>,
    JsonError,
> {
    if v.dt != JsonType::Array {
        Err(JsonError::TypeError(TypeFault::Mismatch))
    } else {
        match rebuild(v.value) {
            Ok(JsonEntityView::Array(vs)) => Ok(vs),
            Ok(_) => Err(JsonError::TypeError(TypeFault::Mismatch)),
            Err(e) => Err(e),
        }
    }
}


impl JsonBuilderValue {
    /// The object that the value's text is read back as.
    pub fn to_object(&self) -> (r: Result<JsonBuilderObject, JsonError>)
        ensures
            match r {
                Ok(o) => value_object(self@) == Ok::<Seq<EntryView>, JsonError>(o@),
                Err(e) => value_object(self@) == Err::<Seq<EntryView>, JsonError>(e),
            },
    {
        if self.dt != JsonType::Object {
            return Err(JsonError::TypeError(TypeFault::Mismatch));
        }
        match parse_text(self.value.as_str()) {
            Ok(JsonEntity::Object(o)) => Ok(o),
            Ok(_) => Err(JsonError::TypeError(TypeFault::Mismatch)),
            Err(e) => Err(e),
        }
    }

    /// The array that the value's text is read back as.
    pub fn to_array(&self) -> (r: Result<JsonBuilderArray, JsonError>)
        ensures
            match r {
                Ok(a) => value_array(self@) == Ok::<Seq<JsonBuilderValueView>, JsonError>(a@),
                Err(e) => value_array(self@) == Err::<Seq<JsonBuilderValueView>, JsonError>(e),
            },
    {
        if self.dt != JsonType::Array {
            return Err(JsonError::TypeError(TypeFault::Mismatch));
        }
        match parse_text(self.value.as_str()) {
            Ok(JsonEntity::Array(a)) => Ok(a),
            Ok(_) => Err(JsonError::TypeError(TypeFault::Mismatch)),
            Err(e) => Err(e),
        }
    }
}

} // verus!

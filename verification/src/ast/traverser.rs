use vstd::prelude::*;
use vstd::string::StringExecFns;
use crate::ast::lexer::{tokenize, tokenize_spec};
use crate::ast::parser::{
    ArrayExpression,
    ArrayLiteral,
    ArrayLiteralView,
    BooleanLiteral,
    KeyLiteral,
    Literal,
    LiteralView,
    NullLiteral,
    NumericLiteral,
    ObjectExpression,
    ObjectLiteral,
    ObjectLiteralView,
    StringLiteral,
    array_literals_view,
    lemma_array_literals_view,
    lemma_object_literals_view,
    object_literals_view,
    parse_spec,
    parse_tokens,
};
use crate::error::{JsonError, StructuralFault};
use crate::number::{Number, NumberView};
use crate::text::strings_view;

verus! {

/// What the walk tells its consumer about, one call per kind of node.
pub enum Event {
    ObjectExpressionMain,
    ObjectExpressionAfter,
    ArrayExpressionMain,
    ArrayExpressionAfter,
    ObjectLiteralBefore,
    ObjectLiteralAfter,
    ArrayLiteral,
    KeyLiteral(Seq<char>),
    StringLiteral(Seq<char>),
    BooleanLiteral(bool),
    NullLiteral,
    NumericLiteral(NumberView),
    /// An entry without its key or value, or an element without its value:
    /// the walk stops here and no consumer is told.
    Incomplete,
}

/// One call of the walk: what it is about, and at which depth of objects.
pub struct Visit {
    pub event: Event,
    pub level: nat,
}

pub open spec fn visit(event: Event, level: nat) -> Seq<Visit> {
    seq![Visit { event, level }]
}

/// The level of the entries of an object at `level`. Levels stop growing at
/// the largest machine integer.
pub open spec fn next_level(level: nat) -> nat {
    if level < usize::MAX {
        level + 1
    } else {
        level
    }
}

/// The calls that the walk makes for a value at `level`, in order: an
/// object before its entries, an array before its elements, each container
/// once more when it is done.
pub open spec fn visits(lit: LiteralView, level: nat) -> Seq<Visit>
    decreases lit, 0nat,
{
    match lit {
        LiteralView::Object(entries) => visit(Event::ObjectExpressionMain, level) + entries_visits(
            entries,
            next_level(level),
        ) + visit(Event::ObjectExpressionAfter, level),
        LiteralView::Array(elements) => visit(Event::ArrayExpressionMain, level) + elements_visits(
            elements,
            level,
        ) + visit(Event::ArrayExpressionAfter, level),
        LiteralView::Text(s) => visit(Event::StringLiteral(s), level),
        LiteralView::Null => visit(Event::NullLiteral, level),
        LiteralView::Boolean(b) => visit(Event::BooleanLiteral(b), level),
        LiteralView::Numeric(n) => visit(Event::NumericLiteral(n), level),
    }
}

/// The calls for one entry: the entry, its key and the key's text, its
/// value, and the entry once more.
pub open spec fn entry_visits(e: ObjectLiteralView, level: nat) -> Seq<Visit>
    decreases e, 0nat,
{
    visit(Event::ObjectLiteralBefore, level) + (match e.key {
        None => visit(Event::Incomplete, level),
        Some(k) => visit(Event::KeyLiteral(k), level) + visit(Event::StringLiteral(k), level) + (
        match e.value {
            None => visit(Event::Incomplete, level),
            Some(v) => visits(v, level) + visit(Event::ObjectLiteralAfter, level),
        }),
    })
}

pub open spec fn entries_visits(es: Seq<ObjectLiteralView>, level: nat) -> Seq<Visit>
    decreases es, es.len(),
{
    if es.len() == 0 {
        Seq::empty()
    } else {
        entries_visits(es.drop_last(), level) + entry_visits(es.last(), level)
    }
}

/// The calls for one element: the element, then its value.
pub open spec fn element_visits(e: ArrayLiteralView, level: nat) -> Seq<Visit>
    decreases e, 0nat,
{
    visit(Event::ArrayLiteral, level) + (match e.value {
        None => visit(Event::Incomplete, level),
        Some(v) => visits(v, level),
    })
}

pub open spec fn elements_visits(es: Seq<ArrayLiteralView>, level: nat) -> Seq<Visit>
    decreases es, es.len(),
{
    if es.len() == 0 {
        Seq::empty()
    } else {
        elements_visits(es.drop_last(), level) + element_visits(es.last(), level)
    }
}

/// A consumer of the walk. `react` says what each call does to the
/// consumer's state and to the key-path tracker, or with which error it
/// refuses; each callback does what `react` says for its event.
pub trait JsonTraverserTrait: Sized {
    type State;

    spec fn state(&self) -> Self::State;

    spec fn react(state: Self::State, tracker: Seq<Seq<char>>, v: Visit) -> Result<
        (Self::State, Seq<Seq<char>>),
        JsonError,
    >;

    fn object_expression_main(
        &mut self,
        v: &ObjectExpression,
        tracker: &mut Vec<String>,
        level: usize,
    ) -> (r: Result<(), JsonError>)
        ensures
            match r {
                Ok(_) => Self::react(old(self).state(), strings_view(old(tracker)@), Visit { event: Event::ObjectExpressionMain, level: level as nat }) == Ok::<
                    (Self::State, Seq<Seq<char>>),
                    JsonError,
                >((final(self).state(), strings_view(final(tracker)@))),
                Err(e) => Self::react(old(self).state(), strings_view(old(tracker)@), Visit { event: Event::ObjectExpressionMain, level: level as nat }) == Err::<
                    (Self::State, Seq<Seq<char>>),
                    JsonError,
                >(e),
            },
    ;

    fn object_expression_after(&mut self, tracker: &mut Vec<String>, level: usize) -> (r: Result<
        (),
        JsonError,
    >)
        ensures
            match r {
                Ok(_) => Self::react(old(self).state(), strings_view(old(tracker)@), Visit { event: Event::ObjectExpressionAfter, level: level as nat }) == Ok::<
                    (Self::State, Seq<Seq<char>>),
                    JsonError,
                >((final(self).state(), strings_view(final(tracker)@))),
                Err(e) => Self::react(old(self).state(), strings_view(old(tracker)@), Visit { event: Event::ObjectExpressionAfter, level: level as nat }) == Err::<
                    (Self::State, Seq<Seq<char>>),
                    JsonError,
                >(e),
            },
    ;

    fn array_expression_main(
        &mut self,
        v: &ArrayExpression,
        tracker: &mut Vec<String>,
        level: usize,
    ) -> (r: Result<(), JsonError>)
        ensures
            match r {
                Ok(_) => Self::react(old(self).state(), strings_view(old(tracker)@), Visit { event: Event::ArrayExpressionMain, level: level as nat }) == Ok::<
                    (Self::State, Seq<Seq<char>>),
                    JsonError,
                >((final(self).state(), strings_view(final(tracker)@))),
                Err(e) => Self::react(old(self).state(), strings_view(old(tracker)@), Visit { event: Event::ArrayExpressionMain, level: level as nat }) == Err::<
                    (Self::State, Seq<Seq<char>>),
                    JsonError,
                >(e),
            },
    ;

    fn array_expression_after(&mut self, tracker: &mut Vec<String>, level: usize) -> (r: Result<
        (),
        JsonError,
    >)
        ensures
            match r {
                Ok(_) => Self::react(old(self).state(), strings_view(old(tracker)@), Visit { event: Event::ArrayExpressionAfter, level: level as nat }) == Ok::<
                    (Self::State, Seq<Seq<char>>),
                    JsonError,
                >((final(self).state(), strings_view(final(tracker)@))),
                Err(e) => Self::react(old(self).state(), strings_view(old(tracker)@), Visit { event: Event::ArrayExpressionAfter, level: level as nat }) == Err::<
                    (Self::State, Seq<Seq<char>>),
                    JsonError,
                >(e),
            },
    ;

    fn object_literal_before(
        &mut self,
        v: &ObjectLiteral,
        tracker: &mut Vec<String>,
        level: usize,
    ) -> (r: Result<(), JsonError>)
        ensures
            match r {
                Ok(_) => Self::react(old(self).state(), strings_view(old(tracker)@), Visit { event: Event::ObjectLiteralBefore, level: level as nat }) == Ok::<
                    (Self::State, Seq<Seq<char>>),
                    JsonError,
                >((final(self).state(), strings_view(final(tracker)@))),
                Err(e) => Self::react(old(self).state(), strings_view(old(tracker)@), Visit { event: Event::ObjectLiteralBefore, level: level as nat }) == Err::<
                    (Self::State, Seq<Seq<char>>),
                    JsonError,
                >(e),
            },
    ;

    fn object_literal_after(
        &mut self,
        v: &ObjectLiteral,
        tracker: &mut Vec<String>,
        level: usize,
    ) -> (r: Result<(), JsonError>)
        ensures
            match r {
                Ok(_) => Self::react(old(self).state(), strings_view(old(tracker)@), Visit { event: Event::ObjectLiteralAfter, level: level as nat }) == Ok::<
                    (Self::State, Seq<Seq<char>>),
                    JsonError,
                >((final(self).state(), strings_view(final(tracker)@))),
                Err(e) => Self::react(old(self).state(), strings_view(old(tracker)@), Visit { event: Event::ObjectLiteralAfter, level: level as nat }) == Err::<
                    (Self::State, Seq<Seq<char>>),
                    JsonError,
                >(e),
            },
    ;

    fn array_literal(&mut self, v: &ArrayLiteral, tracker: &mut Vec<String>, level: usize) -> (r:
        Result<(), JsonError>)
        ensures
            match r {
                Ok(_) => Self::react(old(self).state(), strings_view(old(tracker)@), Visit { event: Event::ArrayLiteral, level: level as nat }) == Ok::<
                    (Self::State, Seq<Seq<char>>),
                    JsonError,
                >((final(self).state(), strings_view(final(tracker)@))),
                Err(e) => Self::react(old(self).state(), strings_view(old(tracker)@), Visit { event: Event::ArrayLiteral, level: level as nat }) == Err::<
                    (Self::State, Seq<Seq<char>>),
                    JsonError,
                >(e),
            },
    ;

    fn key_literal(&mut self, v: &KeyLiteral, tracker: &mut Vec<String>, level: usize) -> (r:
        Result<(), JsonError>)
        ensures
            match r {
                Ok(_) => Self::react(old(self).state(), strings_view(old(tracker)@), Visit { event: Event::KeyLiteral(v.lit_string.value@), level: level as nat }) == Ok::<
                    (Self::State, Seq<Seq<char>>),
                    JsonError,
                >((final(self).state(), strings_view(final(tracker)@))),
                Err(e) => Self::react(old(self).state(), strings_view(old(tracker)@), Visit { event: Event::KeyLiteral(v.lit_string.value@), level: level as nat }) == Err::<
                    (Self::State, Seq<Seq<char>>),
                    JsonError,
                >(e),
            },
    ;

    fn string_literal(&mut self, v: &StringLiteral, tracker: &mut Vec<String>, level: usize) -> (r:
        Result<(), JsonError>)
        ensures
            match r {
                Ok(_) => Self::react(old(self).state(), strings_view(old(tracker)@), Visit { event: Event::StringLiteral(v.value@), level: level as nat }) == Ok::<
                    (Self::State, Seq<Seq<char>>),
                    JsonError,
                >((final(self).state(), strings_view(final(tracker)@))),
                Err(e) => Self::react(old(self).state(), strings_view(old(tracker)@), Visit { event: Event::StringLiteral(v.value@), level: level as nat }) == Err::<
                    (Self::State, Seq<Seq<char>>),
                    JsonError,
                >(e),
            },
    ;

    fn boolean_literal(&mut self, v: &BooleanLiteral, tracker: &mut Vec<String>, level: usize) -> (r:
        Result<(), JsonError>)
        ensures
            match r {
                Ok(_) => Self::react(old(self).state(), strings_view(old(tracker)@), Visit { event: Event::BooleanLiteral(v.value), level: level as nat }) == Ok::<
                    (Self::State, Seq<Seq<char>>),
                    JsonError,
                >((final(self).state(), strings_view(final(tracker)@))),
                Err(e) => Self::react(old(self).state(), strings_view(old(tracker)@), Visit { event: Event::BooleanLiteral(v.value), level: level as nat }) == Err::<
                    (Self::State, Seq<Seq<char>>),
                    JsonError,
                >(e),
            },
    ;

    fn null_literal(&mut self, v: &NullLiteral, tracker: &mut Vec<String>, level: usize) -> (r:
        Result<(), JsonError>)
        ensures
            match r {
                Ok(_) => Self::react(old(self).state(), strings_view(old(tracker)@), Visit { event: Event::NullLiteral, level: level as nat }) == Ok::<
                    (Self::State, Seq<Seq<char>>),
                    JsonError,
                >((final(self).state(), strings_view(final(tracker)@))),
                Err(e) => Self::react(old(self).state(), strings_view(old(tracker)@), Visit { event: Event::NullLiteral, level: level as nat }) == Err::<
                    (Self::State, Seq<Seq<char>>),
                    JsonError,
                >(e),
            },
    ;

    fn numeric_literal_u8(&mut self, v: u8, tracker: &mut Vec<String>, level: usize) -> (r:
        Result<(), JsonError>)
        ensures
            match r {
                Ok(_) => Self::react(old(self).state(), strings_view(old(tracker)@), Visit { event: Event::NumericLiteral(NumberView::U8(v)), level: level as nat }) == Ok::<
                    (Self::State, Seq<Seq<char>>),
                    JsonError,
                >((final(self).state(), strings_view(final(tracker)@))),
                Err(e) => Self::react(old(self).state(), strings_view(old(tracker)@), Visit { event: Event::NumericLiteral(NumberView::U8(v)), level: level as nat }) == Err::<
                    (Self::State, Seq<Seq<char>>),
                    JsonError,
                >(e),
            },
    ;

    fn numeric_literal_u16(&mut self, v: u16, tracker: &mut Vec<String>, level: usize) -> (r:
        Result<(), JsonError>)
        ensures
            match r {
                Ok(_) => Self::react(old(self).state(), strings_view(old(tracker)@), Visit { event: Event::NumericLiteral(NumberView::U16(v)), level: level as nat }) == Ok::<
                    (Self::State, Seq<Seq<char>>),
                    JsonError,
                >((final(self).state(), strings_view(final(tracker)@))),
                Err(e) => Self::react(old(self).state(), strings_view(old(tracker)@), Visit { event: Event::NumericLiteral(NumberView::U16(v)), level: level as nat }) == Err::<
                    (Self::State, Seq<Seq<char>>),
                    JsonError,
                >(e),
            },
    ;

    fn numeric_literal_u32(&mut self, v: u32, tracker: &mut Vec<String>, level: usize) -> (r:
        Result<(), JsonError>)
        ensures
            match r {
                Ok(_) => Self::react(old(self).state(), strings_view(old(tracker)@), Visit { event: Event::NumericLiteral(NumberView::U32(v)), level: level as nat }) == Ok::<
                    (Self::State, Seq<Seq<char>>),
                    JsonError,
                >((final(self).state(), strings_view(final(tracker)@))),
                Err(e) => Self::react(old(self).state(), strings_view(old(tracker)@), Visit { event: Event::NumericLiteral(NumberView::U32(v)), level: level as nat }) == Err::<
                    (Self::State, Seq<Seq<char>>),
                    JsonError,
                >(e),
            },
    ;

    fn numeric_literal_u64(&mut self, v: u64, tracker: &mut Vec<String>, level: usize) -> (r:
        Result<(), JsonError>)
        ensures
            match r {
                Ok(_) => Self::react(old(self).state(), strings_view(old(tracker)@), Visit { event: Event::NumericLiteral(NumberView::U64(v)), level: level as nat }) == Ok::<
                    (Self::State, Seq<Seq<char>>),
                    JsonError,
                >((final(self).state(), strings_view(final(tracker)@))),
                Err(e) => Self::react(old(self).state(), strings_view(old(tracker)@), Visit { event: Event::NumericLiteral(NumberView::U64(v)), level: level as nat }) == Err::<
                    (Self::State, Seq<Seq<char>>),
                    JsonError,
                >(e),
            },
    ;

    fn numeric_literal_u128(&mut self, v: u128, tracker: &mut Vec<String>, level: usize) -> (r:
        Result<(), JsonError>)
        ensures
            match r {
                Ok(_) => Self::react(old(self).state(), strings_view(old(tracker)@), Visit { event: Event::NumericLiteral(NumberView::U128(v)), level: level as nat }) == Ok::<
                    (Self::State, Seq<Seq<char>>),
                    JsonError,
                >((final(self).state(), strings_view(final(tracker)@))),
                Err(e) => Self::react(old(self).state(), strings_view(old(tracker)@), Visit { event: Event::NumericLiteral(NumberView::U128(v)), level: level as nat }) == Err::<
                    (Self::State, Seq<Seq<char>>),
                    JsonError,
                >(e),
            },
    ;

    fn numeric_literal_i8(&mut self, v: i8, tracker: &mut Vec<String>, level: usize) -> (r:
        Result<(), JsonError>)
        ensures
            match r {
                Ok(_) => Self::react(old(self).state(), strings_view(old(tracker)@), Visit { event: Event::NumericLiteral(NumberView::I8(v)), level: level as nat }) == Ok::<
                    (Self::State, Seq<Seq<char>>),
                    JsonError,
                >((final(self).state(), strings_view(final(tracker)@))),
                Err(e) => Self::react(old(self).state(), strings_view(old(tracker)@), Visit { event: Event::NumericLiteral(NumberView::I8(v)), level: level as nat }) == Err::<
                    (Self::State, Seq<Seq<char>>),
                    JsonError,
                >(e),
            },
    ;

    fn numeric_literal_i16(&mut self, v: i16, tracker: &mut Vec<String>, level: usize) -> (r:
        Result<(), JsonError>)
        ensures
            match r {
                Ok(_) => Self::react(old(self).state(), strings_view(old(tracker)@), Visit { event: Event::NumericLiteral(NumberView::I16(v)), level: level as nat }) == Ok::<
                    (Self::State, Seq<Seq<char>>),
                    JsonError,
                >((final(self).state(), strings_view(final(tracker)@))),
                Err(e) => Self::react(old(self).state(), strings_view(old(tracker)@), Visit { event: Event::NumericLiteral(NumberView::I16(v)), level: level as nat }) == Err::<
                    (Self::State, Seq<Seq<char>>),
                    JsonError,
                >(e),
            },
    ;

    fn numeric_literal_i32(&mut self, v: i32, tracker: &mut Vec<String>, level: usize) -> (r:
        Result<(), JsonError>)
        ensures
            match r {
                Ok(_) => Self::react(old(self).state(), strings_view(old(tracker)@), Visit { event: Event::NumericLiteral(NumberView::I32(v)), level: level as nat }) == Ok::<
                    (Self::State, Seq<Seq<char>>),
                    JsonError,
                >((final(self).state(), strings_view(final(tracker)@))),
                Err(e) => Self::react(old(self).state(), strings_view(old(tracker)@), Visit { event: Event::NumericLiteral(NumberView::I32(v)), level: level as nat }) == Err::<
                    (Self::State, Seq<Seq<char>>),
                    JsonError,
                >(e),
            },
    ;

    fn numeric_literal_i64(&mut self, v: i64, tracker: &mut Vec<String>, level: usize) -> (r:
        Result<(), JsonError>)
        ensures
            match r {
                Ok(_) => Self::react(old(self).state(), strings_view(old(tracker)@), Visit { event: Event::NumericLiteral(NumberView::I64(v)), level: level as nat }) == Ok::<
                    (Self::State, Seq<Seq<char>>),
                    JsonError,
                >((final(self).state(), strings_view(final(tracker)@))),
                Err(e) => Self::react(old(self).state(), strings_view(old(tracker)@), Visit { event: Event::NumericLiteral(NumberView::I64(v)), level: level as nat }) == Err::<
                    (Self::State, Seq<Seq<char>>),
                    JsonError,
                >(e),
            },
    ;

    fn numeric_literal_i128(&mut self, v: i128, tracker: &mut Vec<String>, level: usize) -> (r:
        Result<(), JsonError>)
        ensures
            match r {
                Ok(_) => Self::react(old(self).state(), strings_view(old(tracker)@), Visit { event: Event::NumericLiteral(NumberView::I128(v)), level: level as nat }) == Ok::<
                    (Self::State, Seq<Seq<char>>),
                    JsonError,
                >((final(self).state(), strings_view(final(tracker)@))),
                Err(e) => Self::react(old(self).state(), strings_view(old(tracker)@), Visit { event: Event::NumericLiteral(NumberView::I128(v)), level: level as nat }) == Err::<
                    (Self::State, Seq<Seq<char>>),
                    JsonError,
                >(e),
            },
    ;

    fn numeric_literal_float(&mut self, v: &String, tracker: &mut Vec<String>, level: usize) -> (r:
        Result<(), JsonError>)
        ensures
            match r {
                Ok(_) => Self::react(old(self).state(), strings_view(old(tracker)@), Visit { event: Event::NumericLiteral(NumberView::F32(v@)), level: level as nat }) == Ok::<
                    (Self::State, Seq<Seq<char>>),
                    JsonError,
                >((final(self).state(), strings_view(final(tracker)@))),
                Err(e) => Self::react(old(self).state(), strings_view(old(tracker)@), Visit { event: Event::NumericLiteral(NumberView::F32(v@)), level: level as nat }) == Err::<
                    (Self::State, Seq<Seq<char>>),
                    JsonError,
                >(e),
            },
    ;
}

/// Whether a callback did to state and tracker what `react` says for `v`.
pub open spec fn reacted<T: JsonTraverserTrait>(
    state: T::State,
    tracker: Seq<Seq<char>>,
    v: Visit,
    r: Result<(), JsonError>,
    state_after: T::State,
    tracker_after: Seq<Seq<char>>,
) -> bool {
    match r {
        Ok(_) => T::react(state, tracker, v) == Ok::<(T::State, Seq<Seq<char>>), JsonError>(
            (state_after, tracker_after),
        ),
        Err(e) => T::react(state, tracker, v) == Err::<(T::State, Seq<Seq<char>>), JsonError>(e),
    }
}

/// What a run of calls does to state and tracker: each call in turn, up to
/// the first one that fails.
pub open spec fn replay<T: JsonTraverserTrait>(
    state: T::State,
    tracker: Seq<Seq<char>>,
    vs: Seq<Visit>,
) -> Result<(T::State, Seq<Seq<char>>), JsonError>
    decreases vs.len(),
{
    if vs.len() == 0 {
        Ok((state, tracker))
    } else if vs[0].event is Incomplete {
        Err(JsonError::StructuralError(StructuralFault::KeyWithoutValue))
    } else {
        match T::react(state, tracker, vs[0]) {
            Ok((s, t)) => replay::<T>(s, t, vs.drop_first()),
            Err(e) => Err(e),
        }
    }
}

/// Whether a walk did to state and tracker what replaying `vs` says.
pub open spec fn replayed<T: JsonTraverserTrait>(
    state: T::State,
    tracker: Seq<Seq<char>>,
    vs: Seq<Visit>,
    r: Result<(), JsonError>,
    state_after: T::State,
    tracker_after: Seq<Seq<char>>,
) -> bool {
    match r {
        Ok(_) => replay::<T>(state, tracker, vs) == Ok::<(T::State, Seq<Seq<char>>), JsonError>(
            (state_after, tracker_after),
        ),
        Err(e) => replay::<T>(state, tracker, vs) == Err::<(T::State, Seq<Seq<char>>), JsonError>(
            e,
        ),
    }
}

/// Replaying two runs one after the other is replaying them joined.
pub proof fn lemma_replay_concat<T: JsonTraverserTrait>(
    state: T::State,
    tracker: Seq<Seq<char>>,
    a: Seq<Visit>,
    b: Seq<Visit>,
)
    ensures
        replay::<T>(state, tracker, a + b) == (match replay::<T>(state, tracker, a) {
            Ok((s, t)) => replay::<T>(s, t, b),
            Err(e) => Err(e),
        }),
    decreases a.len(),
{
    if a.len() == 0 {
        assert(a + b =~= b);
    } else {
        assert((a + b)[0] == a[0]);
        assert((a + b).drop_first() =~= a.drop_first() + b);
        if !(a[0].event is Incomplete) {
            match T::react(state, tracker, a[0]) {
                Ok((s, t)) => {
                    lemma_replay_concat::<T>(s, t, a.drop_first(), b);
                },
                Err(e) => {},
            }
        }
    }
}

/// Replaying one call is reacting to it.
pub proof fn lemma_replay_one<T: JsonTraverserTrait>(
    state: T::State,
    tracker: Seq<Seq<char>>,
    v: Visit,
)
    ensures
        replay::<T>(state, tracker, seq![v]) == (if v.event is Incomplete {
            Err(JsonError::StructuralError(StructuralFault::KeyWithoutValue))
        } else {
            T::react(state, tracker, v)
        }),
{
    reveal_with_fuel(replay, 2);
    assert(seq![v].drop_first() =~= Seq::<Visit>::empty());
}


/// The calls of a run, taken apart at `i`.
pub proof fn lemma_entries_split(es: Seq<ObjectLiteralView>, i: int, level: nat)
    requires
        0 <= i <= es.len(),
    ensures
        entries_visits(es, level) == entries_visits(es.take(i), level) + entries_visits(
            es.skip(i),
            level,
        ),
    decreases es.len(),
{
    if i == es.len() {
        assert(es.take(i) =~= es);
        assert(es.skip(i) =~= Seq::<ObjectLiteralView>::empty());
        assert(entries_visits(es, level) + Seq::<Visit>::empty() =~= entries_visits(es, level));
    } else {
        lemma_entries_split(es.drop_last(), i, level);
        assert(es.drop_last().take(i) =~= es.take(i));
        assert(es.skip(i).drop_last() =~= es.drop_last().skip(i));
        assert(es.skip(i).last() == es.last());
        assert(entries_visits(es, level) =~= entries_visits(es.take(i), level) + entries_visits(
            es.skip(i),
            level,
        ));
    }
}

pub proof fn lemma_elements_split(es: Seq<ArrayLiteralView>, i: int, level: nat)
    requires
        0 <= i <= es.len(),
    ensures
        elements_visits(es, level) == elements_visits(es.take(i), level) + elements_visits(
            es.skip(i),
            level,
        ),
    decreases es.len(),
{
    if i == es.len() {
        assert(es.take(i) =~= es);
        assert(es.skip(i) =~= Seq::<ArrayLiteralView>::empty());
        assert(elements_visits(es, level) + Seq::<Visit>::empty() =~= elements_visits(es, level));
    } else {
        lemma_elements_split(es.drop_last(), i, level);
        assert(es.drop_last().take(i) =~= es.take(i));
        assert(es.skip(i).drop_last() =~= es.drop_last().skip(i));
        assert(es.skip(i).last() == es.last());
        assert(elements_visits(es, level) =~= elements_visits(es.take(i), level)
            + elements_visits(es.skip(i), level));
    }
}

/// One more stretch of a walk: after `done` came `next`, and `rest` is
/// still to come.
pub proof fn lemma_replay_step<T: JsonTraverserTrait>(
    state: T::State,
    tracker: Seq<Seq<char>>,
    done: Seq<Visit>,
    next: Seq<Visit>,
    rest: Seq<Visit>,
    mid: (T::State, Seq<Seq<char>>),
    r: Result<(), JsonError>,
    after: (T::State, Seq<Seq<char>>),
)
    requires
        replay::<T>(state, tracker, done) == Ok::<(T::State, Seq<Seq<char>>), JsonError>(mid),
        replayed::<T>(mid.0, mid.1, next, r, after.0, after.1),
    ensures
        match r {
            Ok(_) => replay::<T>(state, tracker, done + next) == Ok::<
                (T::State, Seq<Seq<char>>),
                JsonError,
            >(after),
            Err(e) => replay::<T>(state, tracker, done + next + rest) == Err::<
                (T::State, Seq<Seq<char>>),
                JsonError,
            >(e) && replay::<T>(state, tracker, done + (next + rest)) == Err::<
                (T::State, Seq<Seq<char>>),
                JsonError,
            >(e),
        },
{
    lemma_replay_concat::<T>(state, tracker, done, next);
    lemma_replay_concat::<T>(state, tracker, done + next, rest);
    assert(done + next + rest =~= done + (next + rest));
}

/// The same for a single call.
pub proof fn lemma_react_step<T: JsonTraverserTrait>(
    state: T::State,
    tracker: Seq<Seq<char>>,
    done: Seq<Visit>,
    v: Visit,
    rest: Seq<Visit>,
    mid: (T::State, Seq<Seq<char>>),
    r: Result<(), JsonError>,
    after: (T::State, Seq<Seq<char>>),
)
    requires
        replay::<T>(state, tracker, done) == Ok::<(T::State, Seq<Seq<char>>), JsonError>(mid),
        reacted::<T>(mid.0, mid.1, v, r, after.0, after.1),
        !(v.event is Incomplete),
    ensures
        match r {
            Ok(_) => replay::<T>(state, tracker, done + seq![v]) == Ok::<
                (T::State, Seq<Seq<char>>),
                JsonError,
            >(after),
            Err(e) => replay::<T>(state, tracker, done + seq![v] + rest) == Err::<
                (T::State, Seq<Seq<char>>),
                JsonError,
            >(e) && replay::<T>(state, tracker, done + (seq![v] + rest)) == Err::<
                (T::State, Seq<Seq<char>>),
                JsonError,
            >(e),
        },
{
    lemma_replay_one::<T>(mid.0, mid.1, v);
    lemma_replay_step::<T>(state, tracker, done, seq![v], rest, mid, r, after);
}

/// The walk stops at an entry or element that is not whole.
pub proof fn lemma_replay_incomplete<T: JsonTraverserTrait>(
    state: T::State,
    tracker: Seq<Seq<char>>,
    done: Seq<Visit>,
    level: nat,
    mid: (T::State, Seq<Seq<char>>),
)
    requires
        replay::<T>(state, tracker, done) == Ok::<(T::State, Seq<Seq<char>>), JsonError>(mid),
    ensures
        replay::<T>(state, tracker, done + visit(Event::Incomplete, level)) == Err::<
            (T::State, Seq<Seq<char>>),
            JsonError,
        >(JsonError::StructuralError(StructuralFault::KeyWithoutValue)),
{
    lemma_replay_concat::<T>(state, tracker, done, visit(Event::Incomplete, level));
    lemma_replay_one::<T>(mid.0, mid.1, Visit { event: Event::Incomplete, level });
}

fn walk_number<T: JsonTraverserTrait>(
    consumer: &mut T,
    tracker: &mut Vec<String>,
    n: &NumericLiteral,
    level: usize,
) -> (r: Result<(), JsonError>)
    ensures
        reacted::<T>(
            old(consumer).state(),
            strings_view(old(tracker)@),
            Visit { event: Event::NumericLiteral(n.value@), level: level as nat },
            r,
            final(consumer).state(),
            strings_view(final(tracker)@),
        ),
{
    match &n.value {
        Number::U8(v) => consumer.numeric_literal_u8(*v, tracker, level),
        Number::U16(v) => consumer.numeric_literal_u16(*v, tracker, level),
        Number::U32(v) => consumer.numeric_literal_u32(*v, tracker, level),
        Number::U64(v) => consumer.numeric_literal_u64(*v, tracker, level),
        Number::U128(v) => consumer.numeric_literal_u128(*v, tracker, level),
        Number::I8(v) => consumer.numeric_literal_i8(*v, tracker, level),
        Number::I16(v) => consumer.numeric_literal_i16(*v, tracker, level),
        Number::I32(v) => consumer.numeric_literal_i32(*v, tracker, level),
        Number::I64(v) => consumer.numeric_literal_i64(*v, tracker, level),
        Number::I128(v) => consumer.numeric_literal_i128(*v, tracker, level),
        Number::F32(v) => consumer.numeric_literal_float(v, tracker, level),
    }
}

/// Walks a value: tells the consumer of it and of all that it holds.
pub fn walk<T: JsonTraverserTrait>(
    consumer: &mut T,
    tracker: &mut Vec<String>,
    node: &Literal,
    level: usize,
) -> (r: Result<(), JsonError>)
    ensures
        replayed::<T>(
            old(consumer).state(),
            strings_view(old(tracker)@),
            visits(node.view(), level as nat),
            r,
            final(consumer).state(),
            strings_view(final(tracker)@),
        ),
    decreases node,
{
    let ghost s0 = consumer.state();
    let ghost t0 = strings_view(tracker@);
    let ghost target = visits(node.view(), level as nat);
    let ghost lv = level as nat;
    match node {
        Literal::Object(o) => {
            let inner: usize = if level < usize::MAX {
                level + 1
            } else {
                level
            };
            let ghost es = o.view();
            let ghost main = Visit { event: Event::ObjectExpressionMain, level: lv };
            let ghost after = Visit { event: Event::ObjectExpressionAfter, level: lv };
            proof {
                lemma_object_literals_view(o.lit_objects@);
                assert(replay::<T>(s0, t0, Seq::empty()) == Ok::<
                    (T::State, Seq<Seq<char>>),
                    JsonError,
                >((s0, t0)));
                assert(target == seq![main] + entries_visits(es, inner as nat) + seq![after]);
            }
            let r = consumer.object_expression_main(o, tracker, level);
            proof {
                lemma_react_step::<T>(
                    s0,
                    t0,
                    Seq::empty(),
                    main,
                    entries_visits(es, inner as nat) + seq![after],
                    (s0, t0),
                    r,
                    (consumer.state(), strings_view(tracker@)),
                );
                assert(Seq::<Visit>::empty() + seq![main] =~= seq![main]);
                assert(Seq::<Visit>::empty() + (seq![main] + (entries_visits(es, inner as nat)
                    + seq![after])) =~= target);
            }
            if r.is_err() {
                return r;
            }
            let mut i: usize = 0;
            assert(es.take(0) =~= Seq::<ObjectLiteralView>::empty());
            assert(seq![main] + entries_visits(es.take(0), inner as nat) =~= seq![main]);
            while i < o.lit_objects.len()
                invariant
                    i <= o.lit_objects.len(),
                    es == o.view(),
                    es.len() == o.lit_objects.len(),
                    forall|k: int| 0 <= k < es.len() ==> (#[trigger] es[k]) == o.lit_objects@[k].view(),
                    target == seq![main] + entries_visits(es, inner as nat) + seq![after],
                    replay::<T>(s0, t0, seq![main] + entries_visits(es.take(i as int), inner as nat))
                        == Ok::<(T::State, Seq<Seq<char>>), JsonError>(
                        (consumer.state(), strings_view(tracker@)),
                    ),
                    target == visits(node.view(), level as nat),
                    s0 == old(consumer).state(),
                    t0 == strings_view(old(tracker)@),
                    *node == Literal::Object(*o),
                decreases o.lit_objects.len() - i,
            {
                let ghost mid = (consumer.state(), strings_view(tracker@));
                let ghost done = seq![main] + entries_visits(es.take(i as int), inner as nat);
                let ghost next = entry_visits(es[i as int], inner as nat);
                let ghost rest = entries_visits(es.skip(i + 1), inner as nat) + seq![after];
                let r = walk_entry(consumer, tracker, &o.lit_objects[i], inner);
                proof {
                    lemma_replay_step::<T>(
                        s0,
                        t0,
                        done,
                        next,
                        rest,
                        mid,
                        r,
                        (consumer.state(), strings_view(tracker@)),
                    );
                    assert(es.take(i + 1).drop_last() =~= es.take(i as int));
                    assert(es.take(i + 1).last() == es[i as int]);
                    assert(done + next =~= seq![main] + entries_visits(
                        es.take(i + 1),
                        inner as nat,
                    ));
                    lemma_entries_split(es, i + 1, inner as nat);
                    assert(done + next + rest =~= target);
                }
                if r.is_err() {
                    return r;
                }
                i += 1;
            }
            assert(es.take(i as int) =~= es);
            let ghost mid = (consumer.state(), strings_view(tracker@));
            let r = consumer.object_expression_after(tracker, level);
            proof {
                lemma_react_step::<T>(
                    s0,
                    t0,
                    seq![main] + entries_visits(es, inner as nat),
                    after,
                    Seq::empty(),
                    mid,
                    r,
                    (consumer.state(), strings_view(tracker@)),
                );
                assert(target + Seq::<Visit>::empty() =~= target);
            }
            r
        },
        Literal::Array(a) => {
            let ghost es = a.view();
            let ghost main = Visit { event: Event::ArrayExpressionMain, level: lv };
            let ghost after = Visit { event: Event::ArrayExpressionAfter, level: lv };
            proof {
                lemma_array_literals_view(a.lit_elements@);
                assert(replay::<T>(s0, t0, Seq::empty()) == Ok::<
                    (T::State, Seq<Seq<char>>),
                    JsonError,
                >((s0, t0)));
                assert(target == seq![main] + elements_visits(es, lv) + seq![after]);
            }
            let r = consumer.array_expression_main(a, tracker, level);
            proof {
                lemma_react_step::<T>(
                    s0,
                    t0,
                    Seq::empty(),
                    main,
                    elements_visits(es, lv) + seq![after],
                    (s0, t0),
                    r,
                    (consumer.state(), strings_view(tracker@)),
                );
                assert(Seq::<Visit>::empty() + seq![main] =~= seq![main]);
                assert(Seq::<Visit>::empty() + (seq![main] + (elements_visits(es, lv) + seq![
                    after,
                ])) =~= target);
            }
            if r.is_err() {
                return r;
            }
            let mut i: usize = 0;
            assert(es.take(0) =~= Seq::<ArrayLiteralView>::empty());
            assert(seq![main] + elements_visits(es.take(0), lv) =~= seq![main]);
            while i < a.lit_elements.len()
                invariant
                    i <= a.lit_elements.len(),
                    es == a.view(),
                    es.len() == a.lit_elements.len(),
                    lv == level as nat,
                    forall|k: int|
                        0 <= k < es.len() ==> (#[trigger] es[k]) == a.lit_elements@[k].view(),
                    target == seq![main] + elements_visits(es, lv) + seq![after],
                    replay::<T>(s0, t0, seq![main] + elements_visits(es.take(i as int), lv)) == Ok::<
                        (T::State, Seq<Seq<char>>),
                        JsonError,
                    >((consumer.state(), strings_view(tracker@))),
                    target == visits(node.view(), level as nat),
                    s0 == old(consumer).state(),
                    t0 == strings_view(old(tracker)@),
                    *node == Literal::Array(*a),
                decreases a.lit_elements.len() - i,
            {
                let ghost mid = (consumer.state(), strings_view(tracker@));
                let ghost done = seq![main] + elements_visits(es.take(i as int), lv);
                let ghost next = element_visits(es[i as int], lv);
                let ghost rest = elements_visits(es.skip(i + 1), lv) + seq![after];
                let r = walk_element(consumer, tracker, &a.lit_elements[i], level);
                proof {
                    lemma_replay_step::<T>(
                        s0,
                        t0,
                        done,
                        next,
                        rest,
                        mid,
                        r,
                        (consumer.state(), strings_view(tracker@)),
                    );
                    assert(es.take(i + 1).drop_last() =~= es.take(i as int));
                    assert(es.take(i + 1).last() == es[i as int]);
                    assert(done + next =~= seq![main] + elements_visits(es.take(i + 1), lv));
                    lemma_elements_split(es, i + 1, lv);
                    assert(done + next + rest =~= target);
                }
                if r.is_err() {
                    return r;
                }
                i += 1;
            }
            assert(es.take(i as int) =~= es);
            let ghost mid = (consumer.state(), strings_view(tracker@));
            let r = consumer.array_expression_after(tracker, level);
            proof {
                lemma_react_step::<T>(
                    s0,
                    t0,
                    seq![main] + elements_visits(es, lv),
                    after,
                    Seq::empty(),
                    mid,
                    r,
                    (consumer.state(), strings_view(tracker@)),
                );
                assert(target + Seq::<Visit>::empty() =~= target);
            }
            r
        },
        Literal::Text(v) => {
            let r = consumer.string_literal(v, tracker, level);
            proof {
                lemma_replay_one::<T>(s0, t0, Visit { event: Event::StringLiteral(v.value@), level: lv });
            }
            r
        },
        Literal::Null(v) => {
            let r = consumer.null_literal(v, tracker, level);
            proof {
                lemma_replay_one::<T>(s0, t0, Visit { event: Event::NullLiteral, level: lv });
            }
            r
        },
        Literal::Boolean(v) => {
            let r = consumer.boolean_literal(v, tracker, level);
            proof {
                lemma_replay_one::<T>(s0, t0, Visit { event: Event::BooleanLiteral(v.value), level: lv });
            }
            r
        },
        Literal::Numeric(v) => {
            let r = walk_number(consumer, tracker, v, level);
            proof {
                lemma_replay_one::<T>(s0, t0, Visit { event: Event::NumericLiteral(v.value@), level: lv });
            }
            r
        },
    }
}

/// Walks one entry of an object.
pub fn walk_entry<T: JsonTraverserTrait>(
    consumer: &mut T,
    tracker: &mut Vec<String>,
    entry: &ObjectLiteral,
    level: usize,
) -> (r: Result<(), JsonError>)
    ensures
        replayed::<T>(
            old(consumer).state(),
            strings_view(old(tracker)@),
            entry_visits(entry.view(), level as nat),
            r,
            final(consumer).state(),
            strings_view(final(tracker)@),
        ),
    decreases entry,
{
    let ghost s0 = consumer.state();
    let ghost t0 = strings_view(tracker@);
    let ghost lv = level as nat;
    let ghost target = entry_visits(entry.view(), lv);
    let ghost before = Visit { event: Event::ObjectLiteralBefore, level: lv };
    let ghost tail = (match entry.view().key {
        None => visit(Event::Incomplete, lv),
        Some(k) => visit(Event::KeyLiteral(k), lv) + visit(Event::StringLiteral(k), lv) + (
        match entry.view().value {
            None => visit(Event::Incomplete, lv),
            Some(v) => visits(v, lv) + visit(Event::ObjectLiteralAfter, lv),
        }),
    });
    proof {
        assert(replay::<T>(s0, t0, Seq::empty()) == Ok::<(T::State, Seq<Seq<char>>), JsonError>(
            (s0, t0),
        ));
        assert(target == seq![before] + tail);
    }
    let r = consumer.object_literal_before(entry, tracker, level);
    proof {
        lemma_react_step::<T>(
            s0,
            t0,
            Seq::empty(),
            before,
            tail,
            (s0, t0),
            r,
            (consumer.state(), strings_view(tracker@)),
        );
        assert(Seq::<Visit>::empty() + seq![before] =~= seq![before]);
        assert(Seq::<Visit>::empty() + (seq![before] + tail) =~= target);
    }
    if r.is_err() {
        return r;
    }
    let key = match &entry.key {
        Some(k) => k,
        None => {
            proof {
                lemma_replay_incomplete::<T>(
                    s0,
                    t0,
                    seq![before],
                    lv,
                    (consumer.state(), strings_view(tracker@)),
                );
            }
            return Err(JsonError::StructuralError(StructuralFault::KeyWithoutValue));
        },
    };
    let ghost k = key.lit_string.value@;
    let ghost kv = Visit { event: Event::KeyLiteral(k), level: lv };
    let ghost sv = Visit { event: Event::StringLiteral(k), level: lv };
    let ghost value_part = (match entry.view().value {
        None => visit(Event::Incomplete, lv),
        Some(v) => visits(v, lv) + visit(Event::ObjectLiteralAfter, lv),
    });
    proof {
        assert(target =~= seq![before] + seq![kv] + seq![sv] + value_part);
    }
    let ghost mid = (consumer.state(), strings_view(tracker@));
    let r = consumer.key_literal(key, tracker, level);
    proof {
        lemma_react_step::<T>(
            s0,
            t0,
            seq![before],
            kv,
            seq![sv] + value_part,
            mid,
            r,
            (consumer.state(), strings_view(tracker@)),
        );
        assert(seq![before] + seq![kv] + (seq![sv] + value_part) =~= target);
    }
    if r.is_err() {
        return r;
    }
    let ghost mid = (consumer.state(), strings_view(tracker@));
    let r = consumer.string_literal(&key.lit_string, tracker, level);
    proof {
        lemma_react_step::<T>(
            s0,
            t0,
            seq![before] + seq![kv],
            sv,
            value_part,
            mid,
            r,
            (consumer.state(), strings_view(tracker@)),
        );
    }
    if r.is_err() {
        return r;
    }
    let value = match &entry.value {
        Some(v) => v,
        None => {
            proof {
                lemma_replay_incomplete::<T>(
                    s0,
                    t0,
                    seq![before] + seq![kv] + seq![sv],
                    lv,
                    (consumer.state(), strings_view(tracker@)),
                );
            }
            return Err(JsonError::StructuralError(StructuralFault::KeyWithoutValue));
        },
    };
    let ghost head = seq![before] + seq![kv] + seq![sv];
    let ghost av = Visit { event: Event::ObjectLiteralAfter, level: lv };
    let ghost mid = (consumer.state(), strings_view(tracker@));
    let r = walk(consumer, tracker, &value.literal, level);
    proof {
        lemma_replay_step::<T>(
            s0,
            t0,
            head,
            visits(value.view(), lv),
            seq![av],
            mid,
            r,
            (consumer.state(), strings_view(tracker@)),
        );
        assert(head + visits(value.view(), lv) + seq![av] =~= target);
    }
    if r.is_err() {
        return r;
    }
    let ghost mid = (consumer.state(), strings_view(tracker@));
    let r = consumer.object_literal_after(entry, tracker, level);
    proof {
        lemma_react_step::<T>(
            s0,
            t0,
            head + visits(value.view(), lv),
            av,
            Seq::empty(),
            mid,
            r,
            (consumer.state(), strings_view(tracker@)),
        );
        assert(target + Seq::<Visit>::empty() =~= target);
    }
    r
}

/// Walks one element of an array.
pub fn walk_element<T: JsonTraverserTrait>(
    consumer: &mut T,
    tracker: &mut Vec<String>,
    element: &ArrayLiteral,
    level: usize,
) -> (r: Result<(), JsonError>)
    ensures
        replayed::<T>(
            old(consumer).state(),
            strings_view(old(tracker)@),
            element_visits(element.view(), level as nat),
            r,
            final(consumer).state(),
            strings_view(final(tracker)@),
        ),
    decreases element,
{
    let ghost s0 = consumer.state();
    let ghost t0 = strings_view(tracker@);
    let ghost lv = level as nat;
    let ghost target = element_visits(element.view(), lv);
    let ghost first = Visit { event: Event::ArrayLiteral, level: lv };
    let ghost tail = (match element.view().value {
        None => visit(Event::Incomplete, lv),
        Some(v) => visits(v, lv),
    });
    proof {
        assert(replay::<T>(s0, t0, Seq::empty()) == Ok::<(T::State, Seq<Seq<char>>), JsonError>(
            (s0, t0),
        ));
        assert(target == seq![first] + tail);
    }
    let r = consumer.array_literal(element, tracker, level);
    proof {
        lemma_react_step::<T>(
            s0,
            t0,
            Seq::empty(),
            first,
            tail,
            (s0, t0),
            r,
            (consumer.state(), strings_view(tracker@)),
        );
        assert(Seq::<Visit>::empty() + seq![first] =~= seq![first]);
        assert(Seq::<Visit>::empty() + (seq![first] + tail) =~= target);
    }
    if r.is_err() {
        return r;
    }
    let value = match &element.value {
        Some(v) => v,
        None => {
            proof {
                lemma_replay_incomplete::<T>(
                    s0,
                    t0,
                    seq![first],
                    lv,
                    (consumer.state(), strings_view(tracker@)),
                );
            }
            return Err(JsonError::StructuralError(StructuralFault::KeyWithoutValue));
        },
    };
    let ghost mid = (consumer.state(), strings_view(tracker@));
    let r = walk(consumer, tracker, &value.literal, level);
    proof {
        lemma_replay_step::<T>(
            s0,
            t0,
            seq![first],
            visits(value.view(), lv),
            Seq::empty(),
            mid,
            r,
            (consumer.state(), strings_view(tracker@)),
        );
        assert(target + Seq::<Visit>::empty() =~= target);
    }
    r
}


/// What walking the document of `text` does to state and tracker: the text
/// is tokenized and parsed, and the calls for its document are replayed.
pub open spec fn walk_text<T: JsonTraverserTrait>(
    state: T::State,
    tracker: Seq<Seq<char>>,
    text: Seq<char>,
) -> Result<(T::State, Seq<Seq<char>>), JsonError> {
    match tokenize_spec(text) {
        Err(e) => Err(e),
        Ok(tokens) => match parse_spec(tokens) {
            Err(e) => Err(e),
            Ok(doc) => replay::<T>(state, tracker, visits(doc, 0)),
        },
    }
}

/// The walk over the document of a text, with the key-path tracker that it
/// hands to its consumer.
pub struct JsonTraverser {
    json: String,
    tracker: Vec<String>,
}

impl JsonTraverser {
    pub closed spec fn text(&self) -> Seq<char> {
        self.json@
    }

    /// The key path: one entry for each depth of objects reached.
    pub closed spec fn tracker(&self) -> Seq<Seq<char>> {
        strings_view(self.tracker@)
    }

    /// A walk over `json`. The tracker starts with one empty entry, which
    /// stands for the document itself.
    pub fn new(json: &str) -> (t: Self)
        ensures
            t.text() == json@,
            t.tracker() == seq![Seq::<char>::empty()],
    {
        let mut tracker: Vec<String> = Vec::new();
        tracker.push(String::new());
        let t = Self { json: String::from_str(json), tracker };
        assert(t.tracker() =~= seq![Seq::<char>::empty()]);
        t
    }

    /// Tokenizes and parses the text, then walks its document.
    pub fn parse<T: JsonTraverserTrait>(&mut self, consumer: &mut T) -> (r: Result<(), JsonError>)
        ensures
            final(self).text() == old(self).text(),
            match r {
                Ok(_) => walk_text::<T>(old(consumer).state(), old(self).tracker(), old(self).text())
                    == Ok::<(T::State, Seq<Seq<char>>), JsonError>(
                    (final(consumer).state(), final(self).tracker()),
                ),
                Err(e) => walk_text::<T>(
                    old(consumer).state(),
                    old(self).tracker(),
                    old(self).text(),
                ) == Err::<(T::State, Seq<Seq<char>>), JsonError>(e),
            },
    {
        let tokens = match tokenize(self.json.as_str()) {
            Ok(tokens) => tokens,
            Err(e) => {
                return Err(e);
            },
        };
        let node = match parse_tokens(&tokens) {
            Ok(node) => node,
            Err(e) => {
                return Err(e);
            },
        };
        self.traverse(consumer, &node.root, 0)
    }

    /// Walks `node`, whose entries stand at `level` plus one.
    pub fn traverse<T: JsonTraverserTrait>(
        &mut self,
        consumer: &mut T,
        node: &Literal,
        level: usize,
    ) -> (r: Result<(), JsonError>)
        ensures
            final(self).text() == old(self).text(),
            replayed::<T>(
                old(consumer).state(),
                old(self).tracker(),
                visits(node.view(), level as nat),
                r,
                final(consumer).state(),
                final(self).tracker(),
            ),
    {
        walk(consumer, &mut self.tracker, node, level)
    }
}

} // verus!

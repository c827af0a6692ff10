//! Rendering a built document and reading the text back gives the document
//! again.

use vstd::prelude::*;
use crate::ast::lexer::{
    TokenType,
    TokenView,
    ValueOf,
    content_end,
    content_token,
    is_checker,
    is_space,
    lemma_content_end_bounds,
    lex,
    pop_track,
    prepend,
    set_top,
    structural,
    tokenize_spec,
};
use crate::ast::parser::{
    closed,
    empty_scope,
    finish,
    parse_spec,
    root_kind,
    ExpressionType,
    word_false,
    word_null,
    word_true,
    ArrayLiteralView,
    LiteralView,
    ObjectLiteralView,
    ScopeView,
    attach,
    literal_of_token,
    run,
    step,
};
use crate::ast::traverser::{
    Event,
    Visit,
    element_visits,
    elements_visits,
    entries_visits,
    entry_visits,
    lemma_replay_concat,
    lemma_replay_one,
    next_level,
    replay,
    visit,
    visits,
};
use crate::builder::convert::{
    array_value,
    boolean_text,
    boolean_value,
    null_text,
    null_value,
    object_value,
    string_value,
};
use crate::builder::object::EntryView;
use crate::entries::{distinct_keys, first_at, has_key, put};
use crate::builder::parser::{
    rebuild,
    JsonBuilderParser,
    JsonEntityView,
    add_value,
    builder_react,
    close_top,
    key_at,
    with_tracker,
};
use crate::builder::types::JsonType;
use crate::builder::value::{
    JsonBuilderValueView,
    array_text,
    element_text,
    elements_text,
    entries_text,
    entry_text,
    object_text,
    quoted,
};
use crate::error::JsonError;
use crate::number::{
    int_decimal,
    is_digit,
    lemma_int_decimal_read,
    lemma_number_chars,
    number_char,
    number_start,
    lower,
    number_int,
    number_of_text,
    number_text,
    same_word,
};

verus! {

/// A document as the builder makes it: leaves and containers of leaves.
/// A number is held by its text.
pub enum Doc {
    Null,
    Boolean(bool),
    Number(Seq<char>),
    Text(Seq<char>),
    Array(Seq<Doc>),
    Object(Seq<(Seq<char>, Doc)>),
}

/// An unquoted value token with the given text.
pub open spec fn plain_token(text: Seq<char>, in_object: bool) -> TokenView {
    content_token(text, in_object, false, false)
}

/// The built value of a document.
pub open spec fn value_of(d: Doc) -> JsonBuilderValueView
    decreases d, 0nat,
{
    match d {
        Doc::Null => null_value(),
        Doc::Boolean(b) => boolean_value(b),
        Doc::Number(t) => JsonBuilderValueView { dt: JsonType::Number, value: t },
        Doc::Text(s) => string_value(s),
        Doc::Array(ds) => array_value(values_of(ds)),
        Doc::Object(es) => object_value(entries_of(es)),
    }
}

pub open spec fn values_of(ds: Seq<Doc>) -> Seq<JsonBuilderValueView>
    decreases ds, ds.len(),
{
    if ds.len() == 0 {
        Seq::empty()
    } else {
        values_of(ds.drop_last()).push(value_of(ds.last()))
    }
}

pub open spec fn entries_of(es: Seq<(Seq<char>, Doc)>) -> Seq<EntryView>
    decreases es, es.len(),
{
    if es.len() == 0 {
        Seq::empty()
    } else {
        entries_of(es.drop_last()).push((es.last().0, value_of(es.last().1)))
    }
}

/// The tree that the parser makes of the document's text.
pub open spec fn literal_of(d: Doc) -> LiteralView
    decreases d, 0nat,
{
    match d {
        Doc::Null => LiteralView::Null,
        Doc::Boolean(b) => LiteralView::Boolean(b),
        Doc::Number(t) => match number_of_text(t) {
            Some(n) => LiteralView::Numeric(n),
            None => LiteralView::Null,
        },
        Doc::Text(s) => LiteralView::Text(s),
        Doc::Array(ds) => LiteralView::Array(element_literals(ds)),
        Doc::Object(es) => LiteralView::Object(entry_literals(es)),
    }
}

pub open spec fn element_literals(ds: Seq<Doc>) -> Seq<ArrayLiteralView>
    decreases ds, ds.len(),
{
    if ds.len() == 0 {
        Seq::empty()
    } else {
        element_literals(ds.drop_last()).push(
            ArrayLiteralView { value: Some(literal_of(ds.last())) },
        )
    }
}

pub open spec fn entry_literals(es: Seq<(Seq<char>, Doc)>) -> Seq<ObjectLiteralView>
    decreases es, es.len(),
{
    if es.len() == 0 {
        Seq::empty()
    } else {
        entry_literals(es.drop_last()).push(
            ObjectLiteralView { key: Some(es.last().0), value: Some(literal_of(es.last().1)) },
        )
    }
}

/// How deep objects are nested in a document.
pub open spec fn depth(d: Doc) -> nat
    decreases d, 0nat,
{
    match d {
        Doc::Array(ds) => depth_all(ds),
        Doc::Object(es) => 1 + depth_entries(es),
        _ => 0,
    }
}

pub open spec fn depth_all(ds: Seq<Doc>) -> nat
    decreases ds, ds.len(),
{
    if ds.len() == 0 {
        0
    } else {
        let a = depth_all(ds.drop_last());
        let b = depth(ds.last());
        if a >= b {
            a
        } else {
            b
        }
    }
}

pub open spec fn depth_entries(es: Seq<(Seq<char>, Doc)>) -> nat
    decreases es, es.len(),
{
    if es.len() == 0 {
        0
    } else {
        let a = depth_entries(es.drop_last());
        let b = depth(es.last().1);
        if a >= b {
            a
        } else {
            b
        }
    }
}

/// The entries that come of putting each of `es` into `acc`, in order.
pub open spec fn put_all(acc: Seq<EntryView>, es: Seq<(Seq<char>, Doc)>) -> Seq<EntryView>
    decreases es.len(),
{
    if es.len() == 0 {
        acc
    } else {
        put(put_all(acc, es.drop_last()), es.last().0, value_of(es.last().1))
    }
}

/// Walking a value gives it to the innermost container, under the key that
/// the tracker holds for its level, and leaves the tracker as it was.
pub proof fn lemma_rebuild_value(
    d: Doc,
    stack: Seq<JsonEntityView>,
    tracker: Seq<Seq<char>>,
    level: nat,
)
    requires
        readable(d),
        stack.len() >= 1,
        tracker.len() == level + 1,
        level + depth(d) <= usize::MAX,
    ensures
        replay::<JsonBuilderParser>(stack, tracker, visits(literal_of(d), level)) == with_tracker(
            add_value(stack, Some(tracker[level as int]), value_of(d)),
            tracker,
        ),
        add_value(stack, Some(tracker[level as int]), value_of(d)) is Ok,
    decreases d, 0nat,
{
    let key = Some(tracker[level as int]);
    assert(key_at(tracker, level) == key);
    match d {
        Doc::Null => {
            lemma_replay_one::<JsonBuilderParser>(
                stack,
                tracker,
                Visit { event: Event::NullLiteral, level },
            );
        },
        Doc::Boolean(b) => {
            lemma_replay_one::<JsonBuilderParser>(
                stack,
                tracker,
                Visit { event: Event::BooleanLiteral(b), level },
            );
        },
        Doc::Number(t) => {
            let n = number_of_text(t)->Some_0;
            lemma_replay_one::<JsonBuilderParser>(
                stack,
                tracker,
                Visit { event: Event::NumericLiteral(n), level },
            );
        },
        Doc::Text(s) => {
            lemma_replay_one::<JsonBuilderParser>(
                stack,
                tracker,
                Visit { event: Event::StringLiteral(s), level },
            );
        },
        Doc::Array(ds) => {
            let main = Visit { event: Event::ArrayExpressionMain, level };
            let after = Visit { event: Event::ArrayExpressionAfter, level };
            let inner = elements_visits(element_literals(ds), level);
            let opened = stack.push(JsonEntityView::Array(Seq::empty()));
            lemma_replay_one::<JsonBuilderParser>(stack, tracker, main);
            lemma_rebuild_elements(ds, stack, Seq::empty(), tracker, level);
            assert(Seq::<JsonBuilderValueView>::empty() + values_of(ds) =~= values_of(ds));
            let filled = stack.push(JsonEntityView::Array(values_of(ds)));
            lemma_replay_one::<JsonBuilderParser>(filled, tracker, after);
            assert(filled.drop_last() =~= stack);
            lemma_replay_concat::<JsonBuilderParser>(stack, tracker, seq![main], inner);
            lemma_replay_concat::<JsonBuilderParser>(
                stack,
                tracker,
                seq![main] + inner,
                seq![after],
            );
        },
        Doc::Object(es) => {
            let main = Visit { event: Event::ObjectExpressionMain, level };
            let after = Visit { event: Event::ObjectExpressionAfter, level };
            let inner = entries_visits(entry_literals(es), next_level(level));
            lemma_replay_one::<JsonBuilderParser>(stack, tracker, main);
            lemma_rebuild_entries(es, stack, Seq::empty(), tracker, level);
            lemma_put_all_distinct(es);
            let filled = stack.push(JsonEntityView::Object(entries_of(es)));
            lemma_replay_one::<JsonBuilderParser>(filled, tracker, after);
            assert(filled.drop_last() =~= stack);
            lemma_replay_concat::<JsonBuilderParser>(stack, tracker, seq![main], inner);
            lemma_replay_concat::<JsonBuilderParser>(
                stack,
                tracker,
                seq![main] + inner,
                seq![after],
            );
        },
    }
}

/// Walking the elements of an array appends their values to it.
pub proof fn lemma_rebuild_elements(
    ds: Seq<Doc>,
    stack: Seq<JsonEntityView>,
    acc: Seq<JsonBuilderValueView>,
    tracker: Seq<Seq<char>>,
    level: nat,
)
    requires
        readable_all(ds),
        tracker.len() == level + 1,
        level + depth_all(ds) <= usize::MAX,
    ensures
        replay::<JsonBuilderParser>(
            stack.push(JsonEntityView::Array(acc)),
            tracker,
            elements_visits(element_literals(ds), level),
        ) == Ok::<(Seq<JsonEntityView>, Seq<Seq<char>>), JsonError>(
            (stack.push(JsonEntityView::Array(acc + values_of(ds))), tracker),
        ),
    decreases ds, ds.len(),
{
    let start = stack.push(JsonEntityView::Array(acc));
    if ds.len() == 0 {
        assert(acc + values_of(ds) =~= acc);
    } else {
        let front = ds.drop_last();
        let last = ds.last();
        lemma_rebuild_elements(front, stack, acc, tracker, level);
        let mid = stack.push(JsonEntityView::Array(acc + values_of(front)));
        let first = Visit { event: Event::ArrayLiteral, level };
        lemma_replay_one::<JsonBuilderParser>(mid, tracker, first);
        lemma_rebuild_value(last, mid, tracker, level);
        lemma_replay_concat::<JsonBuilderParser>(
            mid,
            tracker,
            seq![first],
            visits(literal_of(last), level),
        );
        assert(element_literals(ds).drop_last() =~= element_literals(front));
        lemma_replay_concat::<JsonBuilderParser>(
            start,
            tracker,
            elements_visits(element_literals(front), level),
            element_visits(element_literals(ds).last(), level),
        );
        assert(mid.drop_last() =~= stack);
        assert((acc + values_of(front)).push(value_of(last)) =~= acc + values_of(ds));
    }
}

/// Walking the entries of an object puts their values into it, each under
/// its key.
pub proof fn lemma_rebuild_entries(
    es: Seq<(Seq<char>, Doc)>,
    stack: Seq<JsonEntityView>,
    acc: Seq<EntryView>,
    tracker: Seq<Seq<char>>,
    level: nat,
)
    requires
        readable_entries(es),
        tracker.len() == level + 1,
        level + 1 + depth_entries(es) <= usize::MAX,
    ensures
        replay::<JsonBuilderParser>(
            stack.push(JsonEntityView::Object(acc)),
            tracker,
            entries_visits(entry_literals(es), next_level(level)),
        ) == Ok::<(Seq<JsonEntityView>, Seq<Seq<char>>), JsonError>(
            (stack.push(JsonEntityView::Object(put_all(acc, es))), tracker),
        ),
    decreases es, es.len(),
{
    let start = stack.push(JsonEntityView::Object(acc));
    let inner = next_level(level);
    assert(inner == level + 1);
    if es.len() > 0 {
        let front = es.drop_last();
        let (k, d) = es.last();
        lemma_rebuild_entries(front, stack, acc, tracker, level);
        let mid = stack.push(JsonEntityView::Object(put_all(acc, front)));
        let before = Visit { event: Event::ObjectLiteralBefore, level: inner };
        let kv = Visit { event: Event::KeyLiteral(k), level: inner };
        let sv = Visit { event: Event::StringLiteral(k), level: inner };
        let av = Visit { event: Event::ObjectLiteralAfter, level: inner };
        let keyed = tracker.push(k);
        lemma_replay_one::<JsonBuilderParser>(mid, tracker, before);
        lemma_replay_one::<JsonBuilderParser>(mid, tracker, kv);
        assert(key_at(tracker, inner) is None);
        lemma_replay_one::<JsonBuilderParser>(mid, tracker, sv);
        lemma_rebuild_value(d, mid, keyed, inner);
        let done = stack.push(JsonEntityView::Object(put_all(acc, es)));
        assert(mid.drop_last() =~= stack);
        assert(add_value(mid, Some(k), value_of(d)) == Ok::<Seq<JsonEntityView>, JsonError>(done));
        lemma_replay_one::<JsonBuilderParser>(done, keyed, av);
        assert(keyed.drop_last() =~= tracker);
        let vs = visits(literal_of(d), inner);
        lemma_replay_concat::<JsonBuilderParser>(mid, tracker, seq![before], seq![kv]);
        lemma_replay_concat::<JsonBuilderParser>(mid, tracker, seq![before] + seq![kv], seq![sv]);
        lemma_replay_concat::<JsonBuilderParser>(
            mid,
            tracker,
            seq![before] + seq![kv] + seq![sv],
            vs,
        );
        lemma_replay_concat::<JsonBuilderParser>(
            mid,
            tracker,
            seq![before] + seq![kv] + seq![sv] + vs,
            seq![av],
        );
        let entry = entry_literals(es).last();
        assert(entry_visits(entry, inner) =~= seq![before] + seq![kv] + seq![sv] + vs + seq![av]);
        assert(entry_literals(es).drop_last() =~= entry_literals(front));
        lemma_replay_concat::<JsonBuilderParser>(
            start,
            tracker,
            entries_visits(entry_literals(front), inner),
            entry_visits(entry, inner),
        );
    }
}

/// Putting entries with distinct keys into an empty object leaves them in
/// their order.
pub proof fn lemma_put_all_distinct(es: Seq<(Seq<char>, Doc)>)
    requires
        distinct_keys(entries_of(es)),
    ensures
        put_all(Seq::empty(), es) == entries_of(es),
    decreases es.len(),
{
    if es.len() > 0 {
        let front = es.drop_last();
        lemma_entries_of(es);
        lemma_entries_of(front);
        assert(distinct_keys(entries_of(front))) by {
            assert forall|i: int, j: int| 0 <= i < j < entries_of(front).len() implies (
            #[trigger] entries_of(front)[i]).0 != (#[trigger] entries_of(front)[j]).0 by {
                assert(entries_of(es)[i] == entries_of(front)[i]);
                assert(entries_of(es)[j] == entries_of(front)[j]);
            }
        }
        lemma_put_all_distinct(front);
        let k = es.last().0;
        assert(!has_key(entries_of(front), k)) by {
            if has_key(entries_of(front), k) {
                let i = choose|i: int|
                    0 <= i < entries_of(front).len() && (#[trigger] entries_of(front)[i]).0 == k;
                assert(entries_of(es)[i] == entries_of(front)[i]);
                assert(entries_of(es)[es.len() - 1].0 == k);
            }
        }
    }
}

/// The entries of a document, place by place.
pub proof fn lemma_entries_of(es: Seq<(Seq<char>, Doc)>)
    ensures
        entries_of(es).len() == es.len(),
        forall|i: int|
            0 <= i < es.len() ==> (#[trigger] entries_of(es)[i]) == (es[i].0, value_of(es[i].1)),
    decreases es.len(),
{
    if es.len() > 0 {
        lemma_entries_of(es.drop_last());
    }
}

/// A character that may stand in unquoted text.
pub open spec fn plain_char(c: char) -> bool {
    !is_checker(c) && c != '"' && c != '\\'
}

/// Text that is read as one unquoted token: it is not empty, does not
/// begin with a colon, and holds no space, no delimiter, no comma, no
/// quote and no backslash.
pub open spec fn plain_text(t: Seq<char>) -> bool {
    &&& t.len() > 0
    &&& t[0] != ':'
    &&& forall|i: int| 0 <= i < t.len() ==> plain_char(#[trigger] t[i])
}

/// Text that is read back whole from between quotes: every quote in it is
/// escaped, and it does not end in a backslash that would escape the
/// closing quote.
pub open spec fn closed_text(s: Seq<char>) -> bool {
    content_end(s.push('"'), 0, true, false) == s.len()
}

/// A document that reads back as it was built: every number's text is
/// what the number that is read in it is rendered as, every string and key
/// is whole between quotes, and no key occurs twice in an object.
pub open spec fn readable(d: Doc) -> bool
    decreases d, 0nat,
{
    match d {
        Doc::Number(t) => number_of_text(t) matches Some(n) && number_text(n) == t,
        Doc::Text(s) => closed_text(s),
        Doc::Array(ds) => readable_all(ds),
        Doc::Object(es) => readable_entries(es) && distinct_keys(entries_of(es)),
        _ => true,
    }
}

pub open spec fn readable_all(ds: Seq<Doc>) -> bool
    decreases ds, ds.len(),
{
    ds.len() > 0 ==> readable_all(ds.drop_last()) && readable(ds.last())
}

pub open spec fn readable_entries(es: Seq<(Seq<char>, Doc)>) -> bool
    decreases es, es.len(),
{
    es.len() > 0 ==> readable_entries(es.drop_last()) && closed_text(es.last().0) && readable(
        es.last().1,
    )
}


/// The token of a key.
pub open spec fn key_token(k: Seq<char>) -> TokenView {
    content_token(k, true, true, true)
}

pub open spec fn separator() -> TokenView {
    structural(TokenType::ElementSeparator, ',')
}

pub open spec fn colon() -> TokenView {
    structural(TokenType::ContentSeparator, ':')
}

/// The tokens of a document's text, where the document stands in an
/// object (`in_object`) or in an array.
pub open spec fn tokens_of(d: Doc, in_object: bool) -> Seq<TokenView>
    decreases d, 0nat,
{
    match d {
        Doc::Null => seq![plain_token(null_text(), in_object)],
        Doc::Boolean(b) => seq![plain_token(boolean_text(b), in_object)],
        Doc::Number(t) => seq![plain_token(t, in_object)],
        Doc::Text(s) => seq![content_token(s, in_object, false, true)],
        Doc::Array(ds) => seq![structural(TokenType::ArrayStart, '[')] + element_tokens(ds) + seq![
            structural(TokenType::ArrayEnd, ']'),
        ],
        Doc::Object(es) => seq![structural(TokenType::ObjectStart, '{')] + entry_tokens(es) + seq![
            structural(TokenType::ObjectEnd, '}'),
        ],
    }
}

pub open spec fn element_tokens(ds: Seq<Doc>) -> Seq<TokenView>
    decreases ds, ds.len(),
{
    if ds.len() == 0 {
        Seq::empty()
    } else if ds.len() == 1 {
        tokens_of(ds.last(), false)
    } else {
        element_tokens(ds.drop_last()) + seq![separator()] + tokens_of(ds.last(), false)
    }
}

pub open spec fn entry_tokens_one(e: (Seq<char>, Doc)) -> Seq<TokenView>
    decreases e, 0nat,
{
    seq![key_token(e.0)] + seq![colon()] + tokens_of(e.1, true)
}

pub open spec fn entry_tokens(es: Seq<(Seq<char>, Doc)>) -> Seq<TokenView>
    decreases es, es.len(),
{
    if es.len() == 0 {
        Seq::empty()
    } else if es.len() == 1 {
        entry_tokens_one(es.last())
    } else {
        entry_tokens(es.drop_last()) + seq![separator()] + entry_tokens_one(es.last())
    }
}

/// Running two stretches of tokens one after the other is running them
/// joined.
pub proof fn lemma_run_concat(stack: Seq<ScopeView>, a: Seq<TokenView>, b: Seq<TokenView>)
    ensures
        run(stack, a + b) == (match run(stack, a) {
            Ok(mid) => run(mid, b),
            Err(e) => Err(e),
        }),
    decreases a.len(),
{
    if a.len() == 0 {
        assert(a + b =~= b);
    } else {
        assert((a + b)[0] == a[0]);
        assert((a + b).drop_first() =~= a.drop_first() + b);
        match step(stack, a[0]) {
            Ok(next) => {
                lemma_run_concat(next, a.drop_first(), b);
            },
            Err(_) => {},
        }
    }
}

/// Running one token is one step.
pub proof fn lemma_run_one(stack: Seq<ScopeView>, t: TokenView)
    ensures
        run(stack, seq![t]) == step(stack, t),
{
    reveal_with_fuel(run, 2);
    assert(seq![t].drop_first() =~= Seq::<TokenView>::empty());
}

/// Whether a scope waits for a value that stands in an object or in an
/// array.
pub open spec fn accepts(scope: ScopeView, in_object: bool) -> bool {
    match scope {
        ScopeView::Object { entries, pending } => in_object && pending is Some,
        ScopeView::Array { elements } => !in_object,
    }
}

/// The words for the leaves read as the leaves they stand for.
pub proof fn lemma_leaf_words()
    ensures
        forall|o: bool| #[trigger]
            literal_of_token(plain_token(null_text(), o)) == Ok::<LiteralView, JsonError>(
                LiteralView::Null,
            ),
        forall|o: bool, b: bool| #[trigger]
            literal_of_token(plain_token(boolean_text(b), o)) == Ok::<LiteralView, JsonError>(
                LiteralView::Boolean(b),
            ),
{
    assert(lower(null_text()[0]) != word_true()[0]);
    assert(null_text().len() != word_false().len());
    assert(same_word(null_text(), word_null()));
    assert(same_word(boolean_text(true), word_true()));
    assert(boolean_text(false).len() != word_true().len());
    assert(same_word(boolean_text(false), word_false()));
}

/// The tokens of a value give the scope that waits for it that value.
pub proof fn lemma_parse_value(d: Doc, stack: Seq<ScopeView>, in_object: bool)
    requires
        readable(d),
        stack.len() >= 1,
        accepts(stack.last(), in_object),
    ensures
        run(stack, tokens_of(d, in_object)) == attach(stack, literal_of(d)),
        attach(stack, literal_of(d)) is Ok,
    decreases d, 0nat,
{
    lemma_leaf_words();
    match d {
        Doc::Null => {
            lemma_run_one(stack, plain_token(null_text(), in_object));
        },
        Doc::Boolean(b) => {
            lemma_run_one(stack, plain_token(boolean_text(b), in_object));
        },
        Doc::Number(t) => {
            lemma_number_leaf(t);
            lemma_run_one(stack, plain_token(t, in_object));
        },
        Doc::Text(s) => {
            lemma_run_one(stack, content_token(s, in_object, false, true));
        },
        Doc::Array(ds) => {
            let open = structural(TokenType::ArrayStart, '[');
            let close = structural(TokenType::ArrayEnd, ']');
            lemma_run_one(stack, open);
            lemma_parse_elements(ds, stack, Seq::empty());
            let filled = stack.push(
                ScopeView::Array { elements: Seq::empty() + element_literals(ds) },
            );
            assert(Seq::<ArrayLiteralView>::empty() + element_literals(ds) =~= element_literals(
                ds,
            ));
            lemma_run_one(filled, close);
            assert(filled.drop_last() =~= stack);
            lemma_run_concat(stack, seq![open], element_tokens(ds));
            lemma_run_concat(stack, seq![open] + element_tokens(ds), seq![close]);
        },
        Doc::Object(es) => {
            let open = structural(TokenType::ObjectStart, '{');
            let close = structural(TokenType::ObjectEnd, '}');
            lemma_run_one(stack, open);
            lemma_parse_entries(es, stack, Seq::empty());
            let filled = stack.push(
                ScopeView::Object {
                    entries: Seq::empty() + entry_literals(es),
                    pending: None,
                },
            );
            assert(Seq::<ObjectLiteralView>::empty() + entry_literals(es) =~= entry_literals(es));
            lemma_run_one(filled, close);
            assert(filled.drop_last() =~= stack);
            lemma_run_concat(stack, seq![open], entry_tokens(es));
            lemma_run_concat(stack, seq![open] + entry_tokens(es), seq![close]);
        },
    }
}

/// The tokens of the elements of an array fill its scope with them.
pub proof fn lemma_parse_elements(ds: Seq<Doc>, stack: Seq<ScopeView>, acc: Seq<ArrayLiteralView>)
    requires
        readable_all(ds),
    ensures
        run(stack.push(ScopeView::Array { elements: acc }), element_tokens(ds)) == Ok::<
            Seq<ScopeView>,
            JsonError,
        >(stack.push(ScopeView::Array { elements: acc + element_literals(ds) })),
    decreases ds, ds.len(),
{
    let start = stack.push(ScopeView::Array { elements: acc });
    if ds.len() == 0 {
        assert(acc + element_literals(ds) =~= acc);
    } else {
        let front = ds.drop_last();
        let last = ds.last();
        lemma_parse_elements(front, stack, acc);
        let mid = stack.push(ScopeView::Array { elements: acc + element_literals(front) });
        lemma_parse_value(last, mid, false);
        assert(mid.drop_last() =~= stack);
        assert((acc + element_literals(front)).push(
            ArrayLiteralView { value: Some(literal_of(last)) },
        ) =~= acc + element_literals(ds));
        if ds.len() == 1 {
            assert(front =~= Seq::<Doc>::empty());
            assert(acc + element_literals(front) =~= acc);
        } else {
            lemma_run_one(mid, separator());
            lemma_run_concat(start, element_tokens(front), seq![separator()]);
            lemma_run_concat(
                start,
                element_tokens(front) + seq![separator()],
                tokens_of(last, false),
            );
        }
    }
}

/// The tokens of the entries of an object fill its scope with them.
pub proof fn lemma_parse_entries(
    es: Seq<(Seq<char>, Doc)>,
    stack: Seq<ScopeView>,
    acc: Seq<ObjectLiteralView>,
)
    requires
        readable_entries(es),
    ensures
        run(stack.push(ScopeView::Object { entries: acc, pending: None }), entry_tokens(es)) == Ok::<
            Seq<ScopeView>,
            JsonError,
        >(stack.push(ScopeView::Object { entries: acc + entry_literals(es), pending: None })),
    decreases es, es.len(),
{
    let start = stack.push(ScopeView::Object { entries: acc, pending: None });
    if es.len() == 0 {
        assert(acc + entry_literals(es) =~= acc);
    } else {
        let front = es.drop_last();
        let (k, d) = es.last();
        lemma_parse_entries(front, stack, acc);
        let got = acc + entry_literals(front);
        let mid = stack.push(ScopeView::Object { entries: got, pending: None });
        let keyed = stack.push(ScopeView::Object { entries: got, pending: Some(k) });
        lemma_run_one(mid, key_token(k));
        assert(mid.drop_last() =~= stack);
        assert(step(mid, key_token(k)) == Ok::<Seq<ScopeView>, JsonError>(keyed));
        lemma_run_one(keyed, colon());
        assert(step(keyed, colon()) == Ok::<Seq<ScopeView>, JsonError>(keyed));
        lemma_parse_value(d, keyed, true);
        assert(keyed.drop_last() =~= stack);
        assert(got.push(ObjectLiteralView { key: Some(k), value: Some(literal_of(d)) }) =~= acc
            + entry_literals(es));
        let done = stack.push(
            ScopeView::Object { entries: acc + entry_literals(es), pending: None },
        );
        assert(attach(keyed, literal_of(d)) == Ok::<Seq<ScopeView>, JsonError>(done));
        lemma_run_concat(mid, seq![key_token(k)], seq![colon()]);
        lemma_run_concat(mid, seq![key_token(k)] + seq![colon()], tokens_of(d, true));
        assert(run(mid, entry_tokens_one(es.last())) == Ok::<Seq<ScopeView>, JsonError>(done));
        if es.len() == 1 {
            assert(front =~= Seq::<(Seq<char>, Doc)>::empty());
            assert(got =~= acc);
        } else {
            lemma_run_one(mid, separator());
            lemma_run_concat(start, entry_tokens(front), seq![separator()]);
            lemma_run_concat(
                start,
                entry_tokens(front) + seq![separator()],
                entry_tokens_one(es.last()),
            );
        }
    }
}

/// The tokens of a container's text parse to its tree.
pub proof fn lemma_parse_document(d: Doc)
    requires
        readable(d),
        d is Object || d is Array,
    ensures
        parse_spec(tokens_of(d, false)) == Ok::<LiteralView, JsonError>(literal_of(d)),
{
    let tokens = tokens_of(d, false);
    match d {
        Doc::Array(ds) => {
            let inner = element_tokens(ds);
            assert(tokens[0] == structural(TokenType::ArrayStart, '['));
            assert(tokens.last() == structural(TokenType::ArrayEnd, ']'));
            assert(tokens.subrange(1, tokens.len() - 1) =~= inner);
            lemma_parse_elements(ds, Seq::empty(), Seq::empty());
            assert(Seq::<ScopeView>::empty().push(ScopeView::Array { elements: Seq::empty() })
                =~= seq![empty_scope(ExpressionType::Array)]);
            assert(Seq::<ArrayLiteralView>::empty() + element_literals(ds) =~= element_literals(
                ds,
            ));
        },
        Doc::Object(es) => {
            let inner = entry_tokens(es);
            assert(tokens[0] == structural(TokenType::ObjectStart, '{'));
            assert(tokens.last() == structural(TokenType::ObjectEnd, '}'));
            assert(tokens.subrange(1, tokens.len() - 1) =~= inner);
            lemma_parse_entries(es, Seq::empty(), Seq::empty());
            assert(Seq::<ScopeView>::empty().push(
                ScopeView::Object { entries: Seq::empty(), pending: None },
            ) =~= seq![empty_scope(ExpressionType::Object)]);
            assert(Seq::<ObjectLiteralView>::empty() + entry_literals(es) =~= entry_literals(es));
        },
        _ => {},
    }
}


pub type Lexed = Result<Seq<TokenView>, JsonError>;

pub open spec fn prepend_all(ts: Seq<TokenView>, rest: Lexed) -> Lexed {
    match rest {
        Ok(more) => Ok(ts + more),
        Err(e) => Err(e),
    }
}

pub proof fn lemma_prepend_all(a: Seq<TokenView>, b: Seq<TokenView>, rest: Lexed)
    ensures
        prepend_all(a, prepend_all(b, rest)) == prepend_all(a + b, rest),
        forall|t: TokenView| #[trigger] prepend(t, rest) == prepend_all(seq![t], rest),
        prepend_all(Seq::empty(), rest) == rest,
{
    match rest {
        Ok(more) => {
            assert(a + (b + more) =~= (a + b) + more);
            assert(Seq::<TokenView>::empty() + more =~= more);
        },
        Err(_) => {},
    }
}

/// `text` stands in `chars` at `pos`.
pub open spec fn window(chars: Seq<char>, pos: int, text: Seq<char>) -> bool {
    &&& 0 <= pos
    &&& pos + text.len() <= chars.len()
    &&& chars.subrange(pos, pos + text.len()) == text
}

pub proof fn lemma_window_split(chars: Seq<char>, pos: int, a: Seq<char>, b: Seq<char>)
    requires
        window(chars, pos, a + b),
    ensures
        window(chars, pos, a),
        window(chars, pos + a.len(), b),
{
    let t = a + b;
    assert forall|i: int| 0 <= i < t.len() implies chars[pos + i] == #[trigger] t[i] by {
        assert(chars.subrange(pos, pos + t.len())[i] == chars[pos + i]);
    }
    assert(chars.subrange(pos, pos + a.len()) =~= a) by {
        assert forall|i: int| 0 <= i < a.len() implies chars.subrange(pos, pos + a.len())[i]
            == a[i] by {
            assert(t[i] == a[i]);
        }
    }
    assert(chars.subrange(pos + a.len(), pos + a.len() + b.len()) =~= b) by {
        assert forall|i: int| 0 <= i < b.len() implies chars.subrange(
            pos + a.len(),
            pos + a.len() + b.len(),
        )[i] == b[i] by {
            assert(t[a.len() + i] == b[i]);
        }
    }
}

pub proof fn lemma_window_char(chars: Seq<char>, pos: int, text: Seq<char>, i: int)
    requires
        window(chars, pos, text),
        0 <= i < text.len(),
    ensures
        chars[pos + i] == text[i],
{
    assert(chars.subrange(pos, pos + text.len())[i] == chars[pos + i]);
}

/// Where unquoted content stops: at the end of the text, at a checker, or
/// at a quote.
pub open spec fn stops(chars: Seq<char>, p: int) -> bool {
    p >= chars.len() || is_checker(chars[p]) || chars[p] == '"'
}

/// Scanning plain text from inside it runs to its end.
pub proof fn lemma_scan_plain(chars: Seq<char>, pos: int, t: Seq<char>, i: int)
    requires
        window(chars, pos, t),
        forall|k: int| 0 <= k < t.len() ==> plain_char(#[trigger] t[k]),
        0 <= i <= t.len(),
        stops(chars, pos + t.len()),
    ensures
        content_end(chars, pos + i, false, false) == pos + t.len(),
    decreases t.len() - i,
{
    if i < t.len() {
        lemma_window_char(chars, pos, t, i);
        assert(plain_char(t[i]));
        lemma_scan_plain(chars, pos, t, i + 1);
    }
}

/// Scanning inside a window goes as scanning the window alone, as long as
/// the scan ends in it.
pub proof fn lemma_scan_window(
    chars: Seq<char>,
    off: int,
    w: Seq<char>,
    i: int,
    quoted: bool,
    escaped: bool,
)
    requires
        window(chars, off, w),
        0 <= i <= w.len(),
        content_end(w, i, quoted, escaped) < w.len(),
    ensures
        content_end(chars, off + i, quoted, escaped) == off + content_end(w, i, quoted, escaped),
    decreases w.len() - i,
{
    if i < w.len() {
        lemma_window_char(chars, off, w, i);
        if w[i] == '"' && !escaped {
        } else if !quoted && !escaped && is_checker(w[i]) {
        } else {
            lemma_scan_window(chars, off, w, i + 1, quoted, w[i] == '\\' && !escaped);
        }
    }
}

/// Plain text at a place where a value may stand is read as one token.
pub proof fn lemma_lex_plain(
    chars: Seq<char>,
    pos: int,
    t: Seq<char>,
    objs: Seq<bool>,
    keys: Seq<bool>,
)
    requires
        plain_text(t),
        window(chars, pos, t),
        objs.len() > 0,
        keys.len() > 0,
        !keys.last(),
        stops(chars, pos + t.len()),
    ensures
        lex(chars, pos, objs, keys) == prepend(
            plain_token(t, objs.last()),
            lex(chars, pos + t.len(), objs, keys),
        ),
{
    lemma_window_char(chars, pos, t, 0);
    assert(plain_char(t[0]));
    lemma_scan_plain(chars, pos, t, 1);
}

/// Closed text between quotes is read as one token: a key where a key is
/// expected, else a quoted value.
pub proof fn lemma_lex_quoted(
    chars: Seq<char>,
    pos: int,
    s: Seq<char>,
    objs: Seq<bool>,
    keys: Seq<bool>,
)
    requires
        closed_text(s),
        window(chars, pos, quoted(s)),
        objs.len() > 0,
        keys.len() > 0,
    ensures
        lex(chars, pos, objs, keys) == prepend(
            content_token(s, objs.last(), keys.last(), true),
            lex(chars, pos + s.len() + 2, objs, keys),
        ),
{
    let q = quoted(s);
    let w = s.push('"');
    assert(q =~= seq!['"'] + w);
    lemma_window_split(chars, pos, seq!['"'], w);
    lemma_window_char(chars, pos, q, 0);
    lemma_scan_window(chars, pos + 1, w, 0, true, false);
    let end = pos + 1 + s.len();
    assert(content_end(chars, pos + 1, true, false) == end);
    assert(chars.subrange(pos + 1, end) =~= s) by {
        assert forall|i: int| 0 <= i < s.len() implies chars.subrange(pos + 1, end)[i] == s[i] by {
            lemma_window_char(chars, pos + 1, w, i);
        }
    }
}


/// Whether the innermost container at this depth is an object.
pub open spec fn in_object(objs: Seq<bool>) -> bool {
    objs.len() > 0 && objs.last()
}

pub proof fn lemma_values_of(ds: Seq<Doc>)
    ensures
        values_of(ds).len() == ds.len(),
        ds.len() > 0 ==> values_of(ds).drop_last() == values_of(ds.drop_last()) && values_of(
            ds,
        ).last() == value_of(ds.last()),
    decreases ds.len(),
{
    if ds.len() > 0 {
        lemma_values_of(ds.drop_last());
        assert(values_of(ds).drop_last() =~= values_of(ds.drop_last()));
    }
}

pub proof fn lemma_entries_of_last(es: Seq<(Seq<char>, Doc)>)
    ensures
        entries_of(es).len() == es.len(),
        es.len() > 0 ==> entries_of(es).drop_last() == entries_of(es.drop_last()) && entries_of(
            es,
        ).last() == (es.last().0, value_of(es.last().1)),
    decreases es.len(),
{
    if es.len() > 0 {
        lemma_entries_of_last(es.drop_last());
        assert(entries_of(es).drop_last() =~= entries_of(es.drop_last()));
    }
}

/// The text of a readable value, where a value may stand, is read as the
/// tokens of the value.
pub proof fn lemma_lex_value(
    d: Doc,
    chars: Seq<char>,
    pos: int,
    objs: Seq<bool>,
    keys: Seq<bool>,
)
    requires
        readable(d),
        window(chars, pos, element_text(value_of(d))),
        objs.len() == keys.len(),
        d is Object || d is Array || (keys.len() > 0 && !keys.last()),
        stops(chars, pos + element_text(value_of(d)).len()),
    ensures
        lex(chars, pos, objs, keys) == prepend_all(
            tokens_of(d, in_object(objs)),
            lex(chars, pos + element_text(value_of(d)).len(), objs, keys),
        ),
    decreases d, 0nat,
{
    let text = element_text(value_of(d));
    let after = lex(chars, pos + text.len(), objs, keys);
    lemma_prepend_all(Seq::empty(), Seq::empty(), after);
    match d {
        Doc::Null => {
            assert(plain_text(null_text()));
            lemma_lex_plain(chars, pos, null_text(), objs, keys);
        },
        Doc::Boolean(b) => {
            assert(plain_text(boolean_text(b)));
            lemma_lex_plain(chars, pos, boolean_text(b), objs, keys);
        },
        Doc::Number(t) => {
            lemma_number_leaf(t);
            lemma_lex_plain(chars, pos, t, objs, keys);
        },
        Doc::Text(s) => {
            lemma_lex_quoted(chars, pos, s, objs, keys);
            assert(quoted(s).len() == s.len() + 2);
        },
        Doc::Array(ds) => {
            let inner = elements_text(values_of(ds));
            let open = structural(TokenType::ArrayStart, '[');
            let close = structural(TokenType::ArrayEnd, ']');
            assert(text == seq!['['] + inner + seq![']']);
            lemma_window_split(chars, pos, seq!['['] + inner, seq![']']);
            lemma_window_split(chars, pos, seq!['['], inner);
            lemma_window_char(chars, pos, seq!['['], 0);
            lemma_window_char(chars, pos + 1 + inner.len(), seq![']'], 0);
            let objs1 = objs.push(false);
            let keys1 = keys.push(false);
            lemma_lex_elements(ds, chars, pos + 1, objs1, keys1);
            assert(pop_track(objs1) =~= objs);
            assert(pop_track(keys1) =~= keys);
            let at_close = lex(chars, pos + 1 + inner.len(), objs1, keys1);
            assert(at_close == prepend(close, after));
            lemma_prepend_all(seq![close], Seq::empty(), after);
            lemma_prepend_all(element_tokens(ds), seq![close], after);
            lemma_prepend_all(seq![open], element_tokens(ds) + seq![close], after);
            lemma_prepend_all(Seq::empty(), Seq::empty(), prepend_all(element_tokens(ds), at_close));
            assert(seq![open] + (element_tokens(ds) + seq![close]) =~= tokens_of(
                d,
                in_object(objs),
            ));
        },
        Doc::Object(es) => {
            let inner = entries_text(entries_of(es));
            let open = structural(TokenType::ObjectStart, '{');
            let close = structural(TokenType::ObjectEnd, '}');
            assert(text == seq!['{'] + inner + seq!['}']);
            lemma_window_split(chars, pos, seq!['{'] + inner, seq!['}']);
            lemma_window_split(chars, pos, seq!['{'], inner);
            lemma_window_char(chars, pos, seq!['{'], 0);
            lemma_window_char(chars, pos + 1 + inner.len(), seq!['}'], 0);
            let objs1 = objs.push(true);
            let keys1 = keys.push(true);
            let keys2 = if es.len() > 0 {
                set_top(keys1, false)
            } else {
                keys1
            };
            lemma_entries_of_last(es);
            if es.len() > 0 {
                lemma_lex_entries(es, chars, pos + 1, objs1, keys1);
            } else {
                assert(inner.len() == 0);
                assert(entry_tokens(es) =~= Seq::<TokenView>::empty());
            }
            assert(pop_track(objs1) =~= objs);
            assert(pop_track(keys2) =~= keys);
            let at_close = lex(chars, pos + 1 + inner.len(), objs1, keys2);
            assert(at_close == prepend(close, after));
            lemma_prepend_all(seq![close], Seq::empty(), after);
            lemma_prepend_all(entry_tokens(es), seq![close], after);
            lemma_prepend_all(seq![open], entry_tokens(es) + seq![close], after);
            lemma_prepend_all(Seq::empty(), Seq::empty(), prepend_all(entry_tokens(es), at_close));
            lemma_prepend_all(Seq::empty(), Seq::empty(), at_close);
            assert(seq![open] + (entry_tokens(es) + seq![close]) =~= tokens_of(
                d,
                in_object(objs),
            ));
        },
    }
}

/// The text of the elements of an array is read as their tokens, with a
/// separator between each two.
pub proof fn lemma_lex_elements(
    ds: Seq<Doc>,
    chars: Seq<char>,
    pos: int,
    objs: Seq<bool>,
    keys: Seq<bool>,
)
    requires
        readable_all(ds),
        window(chars, pos, elements_text(values_of(ds))),
        objs.len() == keys.len(),
        keys.len() > 0,
        !objs.last(),
        !keys.last(),
        stops(chars, pos + elements_text(values_of(ds)).len()),
    ensures
        lex(chars, pos, objs, keys) == prepend_all(
            element_tokens(ds),
            lex(chars, pos + elements_text(values_of(ds)).len(), objs, keys),
        ),
    decreases ds, ds.len(),
{
    let text = elements_text(values_of(ds));
    let after = lex(chars, pos + text.len(), objs, keys);
    lemma_prepend_all(Seq::empty(), Seq::empty(), after);
    lemma_values_of(ds);
    if ds.len() == 0 {
    } else if ds.len() == 1 {
        assert(values_of(ds)[0] == value_of(ds.last()));
        lemma_lex_value(ds.last(), chars, pos, objs, keys);
    } else {
        let front = ds.drop_last();
        let last = ds.last();
        let a = elements_text(values_of(front));
        let b = element_text(value_of(last));
        assert(text == a + seq![','] + b);
        lemma_window_split(chars, pos, a + seq![','], b);
        lemma_window_split(chars, pos, a, seq![',']);
        lemma_window_char(chars, pos + a.len(), seq![','], 0);
        lemma_lex_elements(front, chars, pos, objs, keys);
        assert(set_top(keys, false) =~= keys);
        let at_comma = lex(chars, pos + a.len(), objs, keys);
        let at_last = lex(chars, pos + a.len() + 1, objs, keys);
        assert(at_comma == prepend(separator(), at_last));
        lemma_lex_value(last, chars, pos + a.len() + 1, objs, keys);
        lemma_prepend_all(seq![separator()], tokens_of(last, false), after);
        lemma_prepend_all(Seq::empty(), Seq::empty(), at_last);
        lemma_prepend_all(element_tokens(front), seq![separator()] + tokens_of(last, false), after);
        assert(element_tokens(front) + (seq![separator()] + tokens_of(last, false))
            =~= element_tokens(ds));
    }
}

/// The text of one entry is read as its key, the colon, and the tokens of
/// its value.
pub proof fn lemma_lex_entry(
    e: (Seq<char>, Doc),
    chars: Seq<char>,
    pos: int,
    objs: Seq<bool>,
    keys: Seq<bool>,
)
    requires
        closed_text(e.0),
        readable(e.1),
        window(chars, pos, entry_text((e.0, value_of(e.1)))),
        objs.len() == keys.len(),
        keys.len() > 0,
        objs.last(),
        keys.last(),
        stops(chars, pos + entry_text((e.0, value_of(e.1))).len()),
    ensures
        lex(chars, pos, objs, keys) == prepend_all(
            entry_tokens_one(e),
            lex(chars, pos + entry_text((e.0, value_of(e.1))).len(), objs, set_top(keys, false)),
        ),
    decreases e, 1nat,
{
    let (k, d) = e;
    let text = entry_text((k, value_of(d)));
    let v = element_text(value_of(d));
    let keys1 = set_top(keys, false);
    let after = lex(chars, pos + text.len(), objs, keys1);
    assert(text == quoted(k) + seq![':'] + v);
    assert(quoted(k).len() == k.len() + 2);
    lemma_window_split(chars, pos, quoted(k) + seq![':'], v);
    lemma_window_split(chars, pos, quoted(k), seq![':']);
    lemma_window_char(chars, pos + k.len() + 2, seq![':'], 0);
    lemma_lex_quoted(chars, pos, k, objs, keys);
    let at_colon = lex(chars, pos + k.len() + 2, objs, keys);
    let at_value = lex(chars, pos + k.len() + 3, objs, keys1);
    assert(at_colon == prepend(colon(), at_value));
    lemma_lex_value(d, chars, pos + k.len() + 3, objs, keys1);
    lemma_prepend_all(seq![colon()], tokens_of(d, true), after);
    lemma_prepend_all(Seq::empty(), Seq::empty(), at_value);
    lemma_prepend_all(seq![key_token(k)], seq![colon()] + tokens_of(d, true), after);
    lemma_prepend_all(Seq::empty(), Seq::empty(), at_colon);
    assert(seq![key_token(k)] + (seq![colon()] + tokens_of(d, true)) =~= entry_tokens_one(e));
}

/// The text of the entries of an object is read as their tokens, with a
/// separator between each two.
pub proof fn lemma_lex_entries(
    es: Seq<(Seq<char>, Doc)>,
    chars: Seq<char>,
    pos: int,
    objs: Seq<bool>,
    keys: Seq<bool>,
)
    requires
        es.len() > 0,
        readable_entries(es),
        window(chars, pos, entries_text(entries_of(es))),
        objs.len() == keys.len(),
        keys.len() > 0,
        objs.last(),
        keys.last(),
        stops(chars, pos + entries_text(entries_of(es)).len()),
    ensures
        lex(chars, pos, objs, keys) == prepend_all(
            entry_tokens(es),
            lex(chars, pos + entries_text(entries_of(es)).len(), objs, set_top(keys, false)),
        ),
    decreases es, es.len(),
{
    let text = entries_text(entries_of(es));
    let keys1 = set_top(keys, false);
    let after = lex(chars, pos + text.len(), objs, keys1);
    lemma_entries_of_last(es);
    let last = es.last();
    if es.len() == 1 {
        assert(entries_of(es)[0] == (last.0, value_of(last.1)));
        lemma_lex_entry(last, chars, pos, objs, keys);
    } else {
        let front = es.drop_last();
        let a = entries_text(entries_of(front));
        let b = entry_text((last.0, value_of(last.1)));
        assert(text == a + seq![','] + b);
        lemma_window_split(chars, pos, a + seq![','], b);
        lemma_window_split(chars, pos, a, seq![',']);
        lemma_window_char(chars, pos + a.len(), seq![','], 0);
        lemma_lex_entries(front, chars, pos, objs, keys);
        assert(set_top(keys1, true) =~= keys);
        let at_comma = lex(chars, pos + a.len(), objs, keys1);
        let at_last = lex(chars, pos + a.len() + 1, objs, keys);
        assert(at_comma == prepend(separator(), at_last));
        lemma_lex_entry(last, chars, pos + a.len() + 1, objs, keys);
        lemma_prepend_all(seq![separator()], entry_tokens_one(last), after);
        lemma_prepend_all(Seq::empty(), Seq::empty(), at_last);
        lemma_prepend_all(entry_tokens(front), seq![separator()] + entry_tokens_one(last), after);
        assert(entry_tokens(front) + (seq![separator()] + entry_tokens_one(last)) =~= entry_tokens(
            es,
        ));
    }
}

/// The rendering of a readable container is tokenized to its tokens.
pub proof fn lemma_tokenize_document(d: Doc)
    requires
        readable(d),
        d is Object || d is Array,
    ensures
        tokenize_spec(value_of(d).value) == Ok::<Seq<TokenView>, JsonError>(tokens_of(d, false)),
{
    let text = value_of(d).value;
    assert(element_text(value_of(d)) == text);
    assert(text.subrange(0, text.len() as int) =~= text);
    lemma_lex_value(d, text, 0, Seq::empty(), Seq::empty());
    assert(tokens_of(d, false) + Seq::<TokenView>::empty() =~= tokens_of(d, false));
}


/// The container that a document is.
pub open spec fn entity_of(d: Doc) -> JsonEntityView {
    match d {
        Doc::Object(es) => JsonEntityView::Object(entries_of(es)),
        Doc::Array(ds) => JsonEntityView::Array(values_of(ds)),
        _ => JsonEntityView::Array(Seq::empty()),
    }
}

/// Walking the tree of a readable container, from nothing, builds the
/// container.
pub proof fn lemma_rebuild_document(d: Doc)
    requires
        readable(d),
        d is Object || d is Array,
        depth(d) <= usize::MAX,
    ensures
        replay::<JsonBuilderParser>(
            Seq::empty(),
            seq![Seq::<char>::empty()],
            visits(literal_of(d), 0),
        ) == Ok::<(Seq<JsonEntityView>, Seq<Seq<char>>), JsonError>(
            (seq![entity_of(d)], seq![Seq::<char>::empty()]),
        ),
{
    let stack = Seq::<JsonEntityView>::empty();
    let tracker = seq![Seq::<char>::empty()];
    match d {
        Doc::Array(ds) => {
            let main = Visit { event: Event::ArrayExpressionMain, level: 0 };
            let after = Visit { event: Event::ArrayExpressionAfter, level: 0 };
            let inner = elements_visits(element_literals(ds), 0);
            lemma_replay_one::<JsonBuilderParser>(stack, tracker, main);
            lemma_rebuild_elements(ds, stack, Seq::empty(), tracker, 0);
            assert(Seq::<JsonBuilderValueView>::empty() + values_of(ds) =~= values_of(ds));
            let filled = stack.push(JsonEntityView::Array(values_of(ds)));
            assert(filled =~= seq![entity_of(d)]);
            lemma_replay_one::<JsonBuilderParser>(filled, tracker, after);
            lemma_replay_concat::<JsonBuilderParser>(stack, tracker, seq![main], inner);
            lemma_replay_concat::<JsonBuilderParser>(
                stack,
                tracker,
                seq![main] + inner,
                seq![after],
            );
        },
        Doc::Object(es) => {
            let main = Visit { event: Event::ObjectExpressionMain, level: 0 };
            let after = Visit { event: Event::ObjectExpressionAfter, level: 0 };
            let inner = entries_visits(entry_literals(es), next_level(0));
            lemma_replay_one::<JsonBuilderParser>(stack, tracker, main);
            lemma_rebuild_entries(es, stack, Seq::empty(), tracker, 0);
            lemma_put_all_distinct(es);
            let filled = stack.push(JsonEntityView::Object(entries_of(es)));
            assert(filled =~= seq![entity_of(d)]);
            lemma_replay_one::<JsonBuilderParser>(filled, tracker, after);
            lemma_replay_concat::<JsonBuilderParser>(stack, tracker, seq![main], inner);
            lemma_replay_concat::<JsonBuilderParser>(
                stack,
                tracker,
                seq![main] + inner,
                seq![after],
            );
        },
        _ => {},
    }
}

/// Rendering a readable object or array and reading the text back gives
/// the same container again: the same keys with the same values, in the
/// same order.
///
/// The document must not nest objects deeper than the largest machine
/// integer, at which the levels of the walk stop growing.
pub proof fn round_trip(d: Doc)
    requires
        readable(d),
        d is Object || d is Array,
        depth(d) <= usize::MAX,
    ensures
        rebuild(value_of(d).value) == Ok::<JsonEntityView, JsonError>(entity_of(d)),
        d matches Doc::Object(es) ==> value_of(d).value == object_text(entries_of(es)),
        d matches Doc::Array(ds) ==> value_of(d).value == array_text(values_of(ds)),
{
    lemma_tokenize_document(d);
    lemma_parse_document(d);
    lemma_rebuild_document(d);
}

/// Every integer that fits 128 bits is readable as the builder writes it.
pub proof fn integers_are_readable(v: int)
    requires
        i128::MIN <= v <= u128::MAX,
    ensures
        readable(Doc::Number(int_decimal(v))),
{
    lemma_int_decimal_read(v);
}

/// Text that reads as a number is one unquoted token, and is read as that
/// number: it is none of the words for the other leaves.
pub proof fn lemma_number_leaf(t: Seq<char>)
    requires
        number_of_text(t) is Some,
    ensures
        plain_text(t),
        forall|o: bool| #[trigger]
            literal_of_token(plain_token(t, o)) == Ok::<LiteralView, JsonError>(
                LiteralView::Numeric(number_of_text(t)->Some_0),
            ),
{
    lemma_number_chars(t);
    assert(number_start(t[0]));
    assert(lower(t[0]) != 't');
    assert(lower(t[0]) != 'f');
    assert(!same_word(t, word_true())) by {
        assert(word_true()[0] == 't');
    }
    assert(!same_word(t, word_false())) by {
        assert(word_false()[0] == 'f');
    }
    assert(!same_word(t, word_null())) by {
        assert(word_null()[0] == 'n');
        assert(word_null().len() == 4);
    }
    assert forall|i: int| 0 <= i < t.len() implies plain_char(#[trigger] t[i]) by {
        assert(number_char(t[i]));
    }
}

/// Text that holds no quote and no backslash is whole between quotes.
pub proof fn plain_strings_are_closed(s: Seq<char>)
    requires
        forall|i: int| 0 <= i < s.len() ==> (#[trigger] s[i]) != '"' && s[i] != '\\',
    ensures
        closed_text(s),
{
    lemma_scan_unescaped(s, 0);
}

proof fn lemma_scan_unescaped(s: Seq<char>, i: int)
    requires
        0 <= i <= s.len(),
        forall|k: int| 0 <= k < s.len() ==> (#[trigger] s[k]) != '"' && s[k] != '\\',
    ensures
        content_end(s.push('"'), i, true, false) == s.len(),
    decreases s.len() - i,
{
    let w = s.push('"');
    if i < s.len() {
        assert(w[i] == s[i]);
        lemma_scan_unescaped(s, i + 1);
    } else {
        assert(w[i] == '"');
    }
}

} // verus!

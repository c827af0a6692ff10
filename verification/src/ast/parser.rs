use vstd::prelude::*;
use crate::ast::lexer::{Token, TokenType, TokenView, ValueOf, tokens_view};
use crate::error::{JsonError, StructuralFault, TypeFault};
use crate::number::{
    Number,
    NumberView,
    classify,
    matches_word,
    number_of_text,
    number_text,
    same_word,
};
use vstd::string::StringExecFns;
use crate::text::{chars_of, push_spaces, spaces, strings_view};

verus! {

/// The value of a literal, with its children.
pub enum LiteralView {
    Object(Seq<ObjectLiteralView>),
    Array(Seq<ArrayLiteralView>),
    Text(Seq<char>),
    Null,
    Boolean(bool),
    Numeric(NumberView),
}

/// An entry of an object: a key and its value, each of which may still be
/// missing while the entry is being put together.
pub struct ObjectLiteralView {
    pub key: Option<Seq<char>>,
    pub value: Option<LiteralView>,
}

/// An element of an array.
pub struct ArrayLiteralView {
    pub value: Option<LiteralView>,
}

pub struct StringLiteral {
    pub value: String,
}

pub struct NumericLiteral {
    pub value: Number,
}

pub struct BooleanLiteral {
    pub value: bool,
}

pub struct NullLiteral {}

pub struct KeyLiteral {
    pub lit_string: StringLiteral,
}

pub enum Literal {
    Object(ObjectExpression),
    Array(ArrayExpression),
    Text(StringLiteral),
    Null(NullLiteral),
    Boolean(BooleanLiteral),
    Numeric(NumericLiteral),
}

pub struct ValueLiteral {
    pub literal: Literal,
}

pub struct ObjectLiteral {
    pub key: Option<KeyLiteral>,
    pub value: Option<ValueLiteral>,
}

pub struct ArrayLiteral {
    pub value: Option<ValueLiteral>,
}

pub struct ObjectExpression {
    pub lit_objects: Vec<ObjectLiteral>,
}

pub struct ArrayExpression {
    pub lit_elements: Vec<ArrayLiteral>,
}

pub open spec fn object_literals_view(v: Seq<ObjectLiteral>) -> Seq<ObjectLiteralView>
    decreases v,
{
    if v.len() == 0 {
        Seq::empty()
    } else {
        object_literals_view(v.drop_last()).push(v.last().view())
    }
}

pub open spec fn array_literals_view(v: Seq<ArrayLiteral>) -> Seq<ArrayLiteralView>
    decreases v,
{
    if v.len() == 0 {
        Seq::empty()
    } else {
        array_literals_view(v.drop_last()).push(v.last().view())
    }
}

impl Literal {
    pub open spec fn view(&self) -> LiteralView
        decreases self,
    {
        match self {
            Literal::Object(o) => LiteralView::Object(o.view()),
            Literal::Array(a) => LiteralView::Array(a.view()),
            Literal::Text(s) => LiteralView::Text(s.value@),
            Literal::Null(_) => LiteralView::Null,
            Literal::Boolean(b) => LiteralView::Boolean(b.value),
            Literal::Numeric(n) => LiteralView::Numeric(n.value@),
        }
    }
}

impl ValueLiteral {
    pub open spec fn view(&self) -> LiteralView
        decreases self,
    {
        self.literal.view()
    }
}

impl ObjectLiteral {
    pub open spec fn view(&self) -> ObjectLiteralView
        decreases self,
    {
        ObjectLiteralView {
            key: match self.key {
                Some(k) => Some(k.lit_string.value@),
                None => None,
            },
            value: match self.value {
                Some(v) => Some(v.view()),
                None => None,
            },
        }
    }
}

impl ArrayLiteral {
    pub open spec fn view(&self) -> ArrayLiteralView
        decreases self,
    {
        ArrayLiteralView {
            value: match self.value {
                Some(v) => Some(v.view()),
                None => None,
            },
        }
    }
}

impl ObjectExpression {
    pub open spec fn view(&self) -> Seq<ObjectLiteralView>
        decreases self,
    {
        object_literals_view(self.lit_objects@)
    }
}

impl ArrayExpression {
    pub open spec fn view(&self) -> Seq<ArrayLiteralView>
        decreases self,
    {
        array_literals_view(self.lit_elements@)
    }
}


pub proof fn lemma_object_literals_view(v: Seq<ObjectLiteral>)
    ensures
        object_literals_view(v).len() == v.len(),
        forall|i: int| 0 <= i < v.len() ==> (#[trigger] object_literals_view(v)[i]) == v[i].view(),
    decreases v.len(),
{
    if v.len() > 0 {
        lemma_object_literals_view(v.drop_last());
    }
}

pub proof fn lemma_array_literals_view(v: Seq<ArrayLiteral>)
    ensures
        array_literals_view(v).len() == v.len(),
        forall|i: int| 0 <= i < v.len() ==> (#[trigger] array_literals_view(v)[i]) == v[i].view(),
    decreases v.len(),
{
    if v.len() > 0 {
        lemma_array_literals_view(v.drop_last());
    }
}

impl ObjectExpression {
    pub fn new() -> (o: Self)
        ensures
            o.view() == Seq::<ObjectLiteralView>::empty(),
    {
        Self { lit_objects: Vec::new() }
    }

    pub fn add(&mut self, lit_object: ObjectLiteral)
        ensures
            final(self).view() == old(self).view().push(lit_object.view()),
    {
        self.lit_objects.push(lit_object);
        assert(self.lit_objects@.drop_last() == old(self).lit_objects@);
    }
}

impl ArrayExpression {
    pub fn new() -> (a: Self)
        ensures
            a.view() == Seq::<ArrayLiteralView>::empty(),
    {
        Self { lit_elements: Vec::new() }
    }

    pub fn add(&mut self, lit_element: ArrayLiteral)
        ensures
            final(self).view() == old(self).view().push(lit_element.view()),
    {
        self.lit_elements.push(lit_element);
        assert(self.lit_elements@.drop_last() == old(self).lit_elements@);
    }
}

impl StringLiteral {
    pub fn new(value: String) -> (s: Self)
        ensures
            s.value == value,
    {
        Self { value }
    }

    pub fn get(&self) -> (s: String)
        ensures
            s@ == self.value@,
    {
        self.value.clone()
    }
}

impl NumericLiteral {
    pub fn new(value: Number) -> (n: Self)
        ensures
            n.value == value,
    {
        Self { value }
    }
}

pub open spec fn word_true() -> Seq<char> {
    seq!['t', 'r', 'u', 'e']
}

pub open spec fn word_false() -> Seq<char> {
    seq!['f', 'a', 'l', 's', 'e']
}

pub open spec fn word_null() -> Seq<char> {
    seq!['n', 'u', 'l', 'l']
}

impl BooleanLiteral {
    pub fn new(value: bool) -> (b: Self)
        ensures
            b.value == value,
    {
        Self { value }
    }

    pub fn get(&self) -> (b: bool)
        ensures
            b == self.value,
    {
        self.value
    }

    /// Whether `v` spells `true` or `false`, in any letter case.
    pub fn is_bool(v: &str) -> (b: bool)
        ensures
            b == (same_word(v@, word_true()) || same_word(v@, word_false())),
    {
        let chars = chars_of(v);
        let t = vec!['t', 'r', 'u', 'e'];
        let f = vec!['f', 'a', 'l', 's', 'e'];
        assert(t@ =~= word_true());
        assert(f@ =~= word_false());
        assert(chars@.skip(0) == chars@);
        matches_word(&chars, 0, &t) || matches_word(&chars, 0, &f)
    }
}

impl NullLiteral {
    pub fn new() -> Self {
        Self {  }
    }

    /// Whether `v` spells `null`, in any letter case.
    pub fn is_null(v: &str) -> (b: bool)
        ensures
            b == same_word(v@, word_null()),
    {
        let chars = chars_of(v);
        let n = vec!['n', 'u', 'l', 'l'];
        assert(n@ =~= word_null());
        assert(chars@.skip(0) == chars@);
        matches_word(&chars, 0, &n)
    }
}

impl KeyLiteral {
    pub fn new(lit_string: StringLiteral) -> (k: Self)
        ensures
            k.lit_string == lit_string,
    {
        Self { lit_string }
    }
}

impl ValueLiteral {
    pub fn new(literal: Literal) -> (v: Self)
        ensures
            v.literal == literal,
    {
        Self { literal }
    }
}

impl ObjectLiteral {
    pub fn new() -> (l: Self)
        ensures
            l.key is None,
            l.value is None,
    {
        Self { key: Option::None, value: Option::None }
    }

    pub fn key(&mut self, key: KeyLiteral)
        ensures
            final(self).key == Some(key),
            final(self).value == old(self).value,
    {
        self.key = Some(key);
    }

    pub fn value(&mut self, value: ValueLiteral)
        ensures
            final(self).value == Some(value),
            final(self).key == old(self).key,
    {
        self.value = Some(value);
    }

    pub fn inject(&mut self, value: ValueLiteral)
        ensures
            final(self).value == Some(value),
            final(self).key == old(self).key,
    {
        self.value = Some(value);
    }
}

impl ArrayLiteral {
    pub fn init(value: ValueLiteral) -> (l: Self)
        ensures
            l.value == Some(value),
    {
        Self { value: Some(value) }
    }

    pub fn new() -> (l: Self)
        ensures
            l.value is None,
    {
        Self { value: None }
    }

    pub fn inject(&mut self, value: ValueLiteral)
        ensures
            final(self).value == Some(value),
    {
        self.value = Some(value);
    }
}

#[derive(Debug, PartialEq, Eq, Clone, Copy, Structural)]
pub enum ExpressionType {
    Object,
    Array,
}

/// An open container: its kind and what it holds so far.
pub struct Node {
    pub et: ExpressionType,
    pub root: Literal,
}

impl Node {
    /// The kind agrees with the container.
    pub open spec fn wf(&self) -> bool {
        match self.et {
            ExpressionType::Object => self.root is Object,
            ExpressionType::Array => self.root is Array,
        }
    }

    pub fn new(node_type: ExpressionType, root: Literal) -> (n: Self)
        ensures
            n.et == node_type,
            n.root == root,
    {
        Self { et: node_type, root }
    }

    /// A node for an empty container of the given kind.
    pub fn empty(node_type: ExpressionType) -> (n: Self)
        ensures
            n.wf(),
            n.et == node_type,
            n.root.view() == (match node_type {
                ExpressionType::Object => LiteralView::Object(Seq::empty()),
                ExpressionType::Array => LiteralView::Array(Seq::empty()),
            }),
    {
        match node_type {
            ExpressionType::Object => Node::new(node_type, Literal::Object(ObjectExpression::new())),
            ExpressionType::Array => Node::new(node_type, Literal::Array(ArrayExpression::new())),
        }
    }

    pub fn is_object_expression(&self) -> (b: bool)
        ensures
            b == (self.et == ExpressionType::Object),
    {
        self.et == ExpressionType::Object
    }

    pub fn is_array_expression(&self) -> (b: bool)
        ensures
            b == (self.et == ExpressionType::Array),
    {
        self.et == ExpressionType::Array
    }

    pub fn root(&self) -> (r: &Literal)
        ensures
            *r == self.root,
    {
        &self.root
    }
}

/// An open scope of the parser: the container gathered so far and, in an
/// object, the key that waits for its value.
pub enum ScopeView {
    Object { entries: Seq<ObjectLiteralView>, pending: Option<Seq<char>> },
    Array { elements: Seq<ArrayLiteralView> },
}

pub open spec fn structural_error(f: StructuralFault) -> Result<Seq<ScopeView>, JsonError> {
    Err(JsonError::StructuralError(f))
}

/// The literal that a value token stands for: a string if it was quoted,
/// else a boolean, null, or the number its text denotes.
pub open spec fn literal_of_token(t: TokenView) -> Result<LiteralView, JsonError> {
    if t.quoted == Some(true) {
        Ok(LiteralView::Text(t.value))
    } else if same_word(t.value, word_true()) {
        Ok(LiteralView::Boolean(true))
    } else if same_word(t.value, word_false()) {
        Ok(LiteralView::Boolean(false))
    } else if same_word(t.value, word_null()) {
        Ok(LiteralView::Null)
    } else {
        match number_of_text(t.value) {
            Some(n) => Ok(LiteralView::Numeric(n)),
            None => Err(JsonError::TypeError(TypeFault::UnknownNumber)),
        }
    }
}

/// Gives a finished literal to the innermost scope: as the value of the
/// waiting key in an object, as the next element in an array.
pub open spec fn attach(stack: Seq<ScopeView>, lit: LiteralView) -> Result<
    Seq<ScopeView>,
    JsonError,
> {
    if stack.len() == 0 {
        structural_error(StructuralFault::NoOpenScope)
    } else {
        match stack.last() {
            ScopeView::Object { entries, pending } => match pending {
                Some(k) => Ok(
                    stack.drop_last().push(
                        ScopeView::Object {
                            entries: entries.push(
                                ObjectLiteralView { key: Some(k), value: Some(lit) },
                            ),
                            pending: None,
                        },
                    ),
                ),
                None => structural_error(StructuralFault::ValueWithoutKey),
            },
            ScopeView::Array { elements } => Ok(
                stack.drop_last().push(
                    ScopeView::Array {
                        elements: elements.push(ArrayLiteralView { value: Some(lit) }),
                    },
                ),
            ),
        }
    }
}

/// Whether a token may arrive in the current state, before anything is
/// done with it.
pub open spec fn check(stack: Seq<ScopeView>, t: TokenView) -> Result<(), JsonError> {
    match t.tt {
        TokenType::ObjectEnd | TokenType::ArrayEnd => if stack.len() == 0 {
            Err(JsonError::StructuralError(StructuralFault::NoOpenScope))
        } else {
            Ok(())
        },
        TokenType::JsonKey => if stack.len() == 0 {
            Err(JsonError::StructuralError(StructuralFault::NoOpenScope))
        } else if stack.last() is Array {
            Err(JsonError::StructuralError(StructuralFault::KeyInArray))
        } else {
            Ok(())
        },
        TokenType::JsonValue => if stack.len() == 0 {
            Err(JsonError::StructuralError(StructuralFault::NoOpenScope))
        } else if t.quoted is None {
            Err(JsonError::StructuralError(StructuralFault::MisplacedValue))
        } else {
            match stack.last() {
                ScopeView::Object { entries, pending } => if t.vof != ValueOf::Object {
                    Err(JsonError::StructuralError(StructuralFault::MisplacedValue))
                } else if pending is None {
                    Err(JsonError::StructuralError(StructuralFault::ValueWithoutKey))
                } else {
                    Ok(())
                },
                ScopeView::Array { elements } => if t.vof != ValueOf::Array {
                    Err(JsonError::StructuralError(StructuralFault::MisplacedValue))
                } else {
                    Ok(())
                },
            }
        },
        _ => Ok(()),
    }
}

/// Whether the innermost scope can be closed by a token of kind `tt`, and
/// the literal it then becomes.
pub open spec fn closed(scope: ScopeView, tt: TokenType) -> Result<LiteralView, JsonError> {
    match scope {
        ScopeView::Object { entries, pending } => if tt != TokenType::ObjectEnd {
            Err(JsonError::StructuralError(StructuralFault::MismatchedClose))
        } else if pending is Some {
            Err(JsonError::StructuralError(StructuralFault::KeyWithoutValue))
        } else {
            Ok(LiteralView::Object(entries))
        },
        ScopeView::Array { elements } => if tt != TokenType::ArrayEnd {
            Err(JsonError::StructuralError(StructuralFault::MismatchedClose))
        } else {
            Ok(LiteralView::Array(elements))
        },
    }
}

/// What one token does to the scope stack.
pub open spec fn step(stack: Seq<ScopeView>, t: TokenView) -> Result<Seq<ScopeView>, JsonError> {
    match check(stack, t) {
        Err(e) => Err(e),
        Ok(_) => match t.tt {
            TokenType::JsonKey => match stack.last() {
                ScopeView::Object { entries, pending } => Ok(
                    stack.drop_last().push(ScopeView::Object { entries, pending: Some(t.value) }),
                ),
                _ => Ok(stack),
            },
            TokenType::JsonValue => match literal_of_token(t) {
                Ok(lit) => attach(stack, lit),
                Err(e) => Err(e),
            },
            TokenType::ObjectStart => Ok(
                stack.push(ScopeView::Object { entries: Seq::empty(), pending: None }),
            ),
            TokenType::ArrayStart => Ok(stack.push(ScopeView::Array { elements: Seq::empty() })),
            TokenType::ObjectEnd | TokenType::ArrayEnd => match closed(stack.last(), t.tt) {
                Err(e) => Err(e),
                Ok(lit) => if stack.len() == 1 {
                    structural_error(StructuralFault::NoOpenScope)
                } else {
                    attach(stack.drop_last(), lit)
                },
            },
            _ => Ok(stack),
        },
    }
}

/// What a run of tokens does to the scope stack.
pub open spec fn run(stack: Seq<ScopeView>, tokens: Seq<TokenView>) -> Result<
    Seq<ScopeView>,
    JsonError,
>
    decreases tokens.len(),
{
    if tokens.len() == 0 {
        Ok(stack)
    } else {
        match step(stack, tokens[0]) {
            Ok(next) => run(next, tokens.drop_first()),
            Err(e) => Err(e),
        }
    }
}

/// The document that the last token completes: it must close the one scope
/// that is left.
pub open spec fn finish(stack: Result<Seq<ScopeView>, JsonError>, last: TokenView) -> Result<
    LiteralView,
    JsonError,
> {
    match stack {
        Err(e) => Err(e),
        Ok(s) => if s.len() != 1 {
            Err(JsonError::StructuralError(StructuralFault::UnclosedScope))
        } else {
            closed(s[0], last.tt)
        },
    }
}

/// The kind of document that a first and a last token announce.
pub open spec fn root_kind(first: TokenView, last: TokenView) -> Option<ExpressionType> {
    if first.tt == TokenType::ObjectStart && last.tt == TokenType::ObjectEnd {
        Some(ExpressionType::Object)
    } else if first.tt == TokenType::ArrayStart && last.tt == TokenType::ArrayEnd {
        Some(ExpressionType::Array)
    } else {
        None
    }
}

pub open spec fn empty_scope(et: ExpressionType) -> ScopeView {
    match et {
        ExpressionType::Object => ScopeView::Object { entries: Seq::empty(), pending: None },
        ExpressionType::Array => ScopeView::Array { elements: Seq::empty() },
    }
}

/// The document of a token list. The first and the last token are the
/// delimiters of the document; the tokens between them fill it; the last
/// one closes it.
pub open spec fn parse_spec(tokens: Seq<TokenView>) -> Result<LiteralView, JsonError> {
    if tokens.len() == 0 {
        Err(JsonError::StructuralError(StructuralFault::NotAContainer))
    } else {
        match root_kind(tokens[0], tokens.last()) {
            None => Err(JsonError::StructuralError(StructuralFault::NotAContainer)),
            Some(et) => finish(
                run(seq![empty_scope(et)], tokens.subrange(1, tokens.len() - 1)),
                tokens.last(),
            ),
        }
    }
}

pub open spec fn pending_key(pending: Option<ObjectLiteral>) -> Option<Seq<char>> {
    match pending {
        Some(l) => l.view().key,
        None => None,
    }
}

pub open spec fn scope_view(node: Node, pending: Option<ObjectLiteral>) -> ScopeView {
    match node.root {
        Literal::Object(o) => ScopeView::Object {
            entries: o.view(),
            pending: pending_key(pending),
        },
        Literal::Array(a) => ScopeView::Array { elements: a.view() },
        _ => ScopeView::Array { elements: Seq::empty() },
    }
}

pub open spec fn scopes_view(nodes: Seq<Node>, pending: Seq<Option<ObjectLiteral>>) -> Seq<
    ScopeView,
> {
    Seq::new(nodes.len(), |i: int| scope_view(nodes[i], pending[i]))
}

/// A literal waits only in an object scope, with its key and no value yet.
pub open spec fn scope_wf(node: Node, pending: Option<ObjectLiteral>) -> bool {
    &&& node.wf()
    &&& pending matches Some(l) ==> node.et == ExpressionType::Object && l.key is Some
        && l.value is None
}

pub struct JsonParser<'a> {
    tokens: &'a Vec<Token>,
    index: usize,
    nstack: Vec<Node>,
    lstack: Vec<Option<ObjectLiteral>>,
    document: Option<Node>,
}

impl<'a> JsonParser<'a> {
    pub closed spec fn wf(&self) -> bool {
        &&& self.nstack.len() == self.lstack.len()
        &&& forall|i: int|
            0 <= i < self.nstack.len() ==> scope_wf(
                #[trigger] self.nstack@[i],
                self.lstack@[i],
            )
        &&& self.document matches Some(d) ==> d.wf()
        &&& self.document is None ==> 1 <= self.index < self.tokens.len()
    }

    /// The open scopes, outermost first.
    pub closed spec fn scopes(&self) -> Seq<ScopeView> {
        scopes_view(self.nstack@, self.lstack@)
    }

    /// The tokens that this parser reads.
    pub closed spec fn input(&self) -> Seq<TokenView> {
        tokens_view(self.tokens@)
    }

    /// The finished document, once parsing has ended well.
    pub closed spec fn document(&self) -> Option<LiteralView> {
        match self.document {
            Some(d) => Some(d.root.view()),
            None => None,
        }
    }

    /// What parsing ends with from this state.
    pub closed spec fn outcome(&self) -> Result<LiteralView, JsonError> {
        match self.document {
            Some(d) => Ok(d.root.view()),
            None => finish(
                run(
                    self.scopes(),
                    self.input().subrange(self.index as int, self.tokens.len() - 1),
                ),
                self.input().last(),
            ),
        }
    }

    fn advance(&mut self)
        requires
            old(self).index < usize::MAX,
        ensures
            final(self).index == old(self).index + 1,
            final(self).tokens == old(self).tokens,
            final(self).nstack == old(self).nstack,
            final(self).lstack == old(self).lstack,
            final(self).document == old(self).document,
    {
        self.index = self.index + 1;
    }

    fn next_token(&self) -> (t: Option<&'a Token>)
        ensures
            match t {
                Some(t) => self.index < self.tokens.len() && *t == self.tokens@[self.index as int],
                None => self.index >= self.tokens.len(),
            },
    {
        if self.index < self.tokens.len() {
            Some(&self.tokens[self.index])
        } else {
            None
        }
    }

    fn is_last(&self) -> (b: bool)
        ensures
            b == (self.index + 1 == self.tokens.len()),
    {
        self.tokens.len() > 0 && self.index == self.tokens.len() - 1
    }

    /// A parser over `tokens`, which must begin and end as a document does.
    pub fn new(tokens: &'a Vec<Token>) -> (r: Result<Self, JsonError>)
        ensures
            match r {
                Ok(p) => p.wf() && p.outcome() == parse_spec(tokens_view(tokens@)) && p.input()
                    == tokens_view(tokens@) && p.document() is None,
                Err(e) => parse_spec(tokens_view(tokens@)) == Err::<LiteralView, JsonError>(e),
            },
    {
        if tokens.len() == 0 {
            return Err(JsonError::StructuralError(StructuralFault::NotAContainer));
        }
        let first = &tokens[0];
        let last = &tokens[tokens.len() - 1];
        let ghost views = tokens_view(tokens@);
        assert(views[0] == first@);
        assert(views.last() == last@);
        let et = if first.tt == TokenType::ObjectStart && last.tt == TokenType::ObjectEnd {
            ExpressionType::Object
        } else if first.tt == TokenType::ArrayStart && last.tt == TokenType::ArrayEnd {
            ExpressionType::Array
        } else {
            return Err(JsonError::StructuralError(StructuralFault::NotAContainer));
        };
        let mut nstack: Vec<Node> = Vec::new();
        nstack.push(Node::empty(et));
        let mut lstack: Vec<Option<ObjectLiteral>> = Vec::new();
        lstack.push(None);
        let p = JsonParser { tokens, index: 1, nstack, lstack, document: None };
        assert(p.scopes() =~= seq![empty_scope(et)]);
        Ok(p)
    }
}


impl<'a> JsonParser<'a> {
    /// The checks that a token must pass before it is acted on.
    fn validate(&self, ct: &Token) -> (r: Result<(), JsonError>)
        requires
            self.wf(),
        ensures
            r == check(self.scopes(), ct@),
    {
        let depth = self.nstack.len();
        match ct.tt {
            TokenType::ObjectEnd | TokenType::ArrayEnd => {
                if depth == 0 {
                    return Err(JsonError::StructuralError(StructuralFault::NoOpenScope));
                }
            },
            TokenType::JsonKey => {
                if depth == 0 {
                    return Err(JsonError::StructuralError(StructuralFault::NoOpenScope));
                }
                if !self.nstack[depth - 1].is_object_expression() {
                    return Err(JsonError::StructuralError(StructuralFault::KeyInArray));
                }
            },
            TokenType::JsonValue => {
                if depth == 0 {
                    return Err(JsonError::StructuralError(StructuralFault::NoOpenScope));
                }
                if ct.quoted.is_none() {
                    return Err(JsonError::StructuralError(StructuralFault::MisplacedValue));
                }
                if self.nstack[depth - 1].is_object_expression() {
                    if ct.vof != ValueOf::Object {
                        return Err(JsonError::StructuralError(StructuralFault::MisplacedValue));
                    }
                    if self.lstack[depth - 1].is_none() {
                        return Err(JsonError::StructuralError(StructuralFault::ValueWithoutKey));
                    }
                } else if ct.vof != ValueOf::Array {
                    return Err(JsonError::StructuralError(StructuralFault::MisplacedValue));
                }
            },
            _ => {},
        }
        Ok(())
    }

    /// Gives a finished literal to the innermost scope.
    fn attach(&mut self, lit: Literal) -> (r: Result<(), JsonError>)
        requires
            old(self).wf(),
        ensures
            final(self).wf(),
            final(self).tokens == old(self).tokens,
            final(self).index == old(self).index,
            final(self).document == old(self).document,
            match r {
                Ok(_) => attach(old(self).scopes(), lit.view()) == Ok::<
                    Seq<ScopeView>,
                    JsonError,
                >(final(self).scopes()),
                Err(e) => attach(old(self).scopes(), lit.view()) == Err::<
                    Seq<ScopeView>,
                    JsonError,
                >(e),
            },
    {
        if self.nstack.len() == 0 {
            return Err(JsonError::StructuralError(StructuralFault::NoOpenScope));
        }
        let ghost before = self.scopes();
        let node = self.nstack.pop().unwrap();
        let pending = self.lstack.pop().unwrap();
        assert(self.scopes() =~= before.drop_last());
        let et = node.et;
        match node.root {
            Literal::Object(mut o) => {
                match pending {
                    Some(mut l) => {
                        l.value(ValueLiteral::new(lit));
                        o.add(l);
                        self.nstack.push(Node::new(et, Literal::Object(o)));
                        self.lstack.push(None);
                        assert(self.scopes() =~= attach(before, lit.view())->Ok_0);
                        Ok(())
                    },
                    None => Err(JsonError::StructuralError(StructuralFault::ValueWithoutKey)),
                }
            },
            Literal::Array(mut a) => {
                a.add(ArrayLiteral::init(ValueLiteral::new(lit)));
                self.nstack.push(Node::new(et, Literal::Array(a)));
                self.lstack.push(None);
                assert(self.scopes() =~= attach(before, lit.view())->Ok_0);
                Ok(())
            },
            _ => Err(JsonError::StructuralError(StructuralFault::NoOpenScope)),
        }
    }

    /// The literal of a value token.
    fn literal_of(token: &Token) -> (r: Result<Literal, JsonError>)
        ensures
            match r {
                Ok(lit) => literal_of_token(token@) == Ok::<LiteralView, JsonError>(lit.view()),
                Err(e) => literal_of_token(token@) == Err::<LiteralView, JsonError>(e),
            },
    {
        let quoted = match token.quoted {
            Some(q) => q,
            None => false,
        };
        if quoted {
            return Ok(Literal::Text(StringLiteral::new(token.value())));
        }
        let text = token.value.as_str();
        if BooleanLiteral::is_bool(text) {
            let chars = chars_of(text);
            let t = vec!['t', 'r', 'u', 'e'];
            assert(t@ =~= word_true());
            assert(chars@.skip(0) == chars@);
            return Ok(Literal::Boolean(BooleanLiteral::new(matches_word(&chars, 0, &t))));
        }
        if NullLiteral::is_null(text) {
            return Ok(Literal::Null(NullLiteral::new()));
        }
        match classify(text) {
            Ok(n) => Ok(Literal::Numeric(NumericLiteral::new(n))),
            Err(e) => Err(e),
        }
    }

    /// Acts on one token.
    fn apply(&mut self, token: &Token) -> (r: Result<(), JsonError>)
        requires
            old(self).wf(),
        ensures
            final(self).wf(),
            final(self).tokens == old(self).tokens,
            final(self).index == old(self).index,
            final(self).document == old(self).document,
            match r {
                Ok(_) => step(old(self).scopes(), token@) == Ok::<Seq<ScopeView>, JsonError>(
                    final(self).scopes(),
                ),
                Err(e) => step(old(self).scopes(), token@) == Err::<Seq<ScopeView>, JsonError>(e),
            },
    {
        match self.validate(token) {
            Err(e) => {
                return Err(e);
            },
            Ok(_) => {},
        }
        let ghost before = self.scopes();
        match token.tt {
            TokenType::JsonKey => {
                let _ = self.lstack.pop();
                let mut l = ObjectLiteral::new();
                l.key(KeyLiteral::new(StringLiteral::new(token.value())));
                self.lstack.push(Some(l));
                assert(self.scopes() =~= step(before, token@)->Ok_0);
                Ok(())
            },
            TokenType::JsonValue => {
                match Self::literal_of(token) {
                    Ok(lit) => self.attach(lit),
                    Err(e) => Err(e),
                }
            },
            TokenType::ObjectStart => {
                self.nstack.push(Node::empty(ExpressionType::Object));
                self.lstack.push(None);
                assert(self.scopes() =~= step(before, token@)->Ok_0);
                Ok(())
            },
            TokenType::ArrayStart => {
                self.nstack.push(Node::empty(ExpressionType::Array));
                self.lstack.push(None);
                assert(self.scopes() =~= step(before, token@)->Ok_0);
                Ok(())
            },
            TokenType::ObjectEnd | TokenType::ArrayEnd => {
                let node = self.nstack.pop().unwrap();
                let pending = self.lstack.pop().unwrap();
                assert(self.scopes() =~= before.drop_last());
                match Self::close(node, pending, token.tt) {
                    Err(e) => Err(e),
                    Ok(lit) => {
                        if self.nstack.len() == 0 {
                            Err(JsonError::StructuralError(StructuralFault::NoOpenScope))
                        } else {
                            self.attach(lit)
                        }
                    },
                }
            },
            _ => Ok(()),
        }
    }

    /// Closes a scope with a closing token of kind `tt`.
    fn close(node: Node, pending: Option<ObjectLiteral>, tt: TokenType) -> (r: Result<
        Literal,
        JsonError,
    >)
        requires
            scope_wf(node, pending),
        ensures
            match r {
                Ok(lit) => closed(scope_view(node, pending), tt) == Ok::<LiteralView, JsonError>(
                    lit.view(),
                ) && (Node { et: node.et, root: lit }).wf(),
                Err(e) => closed(scope_view(node, pending), tt) == Err::<LiteralView, JsonError>(
                    e,
                ),
            },
    {
        match node.root {
            Literal::Object(o) => {
                if tt != TokenType::ObjectEnd {
                    Err(JsonError::StructuralError(StructuralFault::MismatchedClose))
                } else if pending.is_some() {
                    Err(JsonError::StructuralError(StructuralFault::KeyWithoutValue))
                } else {
                    Ok(Literal::Object(o))
                }
            },
            Literal::Array(a) => {
                if tt != TokenType::ArrayEnd {
                    Err(JsonError::StructuralError(StructuralFault::MismatchedClose))
                } else {
                    Ok(Literal::Array(a))
                }
            },
            other => Ok(other),
        }
    }

    /// Reads the tokens to the end. On success the document is there to be
    /// taken; on failure the error says what the token list lacks.
    pub fn parse(&mut self) -> (r: Result<(), JsonError>)
        requires
            old(self).wf(),
        ensures
            final(self).wf(),
            final(self).input() == old(self).input(),
            match r {
                Ok(_) => final(self).document() is Some && old(self).outcome() == Ok::<
                    LiteralView,
                    JsonError,
                >(final(self).document()->Some_0),
                Err(e) => old(self).outcome() == Err::<LiteralView, JsonError>(e),
            },
    {
        if self.document.is_some() {
            return Ok(());
        }
        let ghost views = self.input();
        let ghost n = self.tokens.len() as int;
        loop
            invariant
                self.wf(),
                self.document is None,
                self.tokens == old(self).tokens,
                views == self.input(),
                n == self.tokens.len(),
                self.outcome() == old(self).outcome(),
            ensures
                self.wf(),
                self.document is None,
                self.tokens == old(self).tokens,
                self.index + 1 == self.tokens.len(),
                self.outcome() == old(self).outcome(),
            decreases self.tokens.len() - self.index,
        {
            if self.is_last() {
                break ;
            }
            let token = &self.tokens[self.index];
            let ghost rest = views.subrange(self.index as int, n - 1);
            assert(rest[0] == token@);
            assert(rest.drop_first() =~= views.subrange(self.index + 1, n - 1));
            match self.apply(token) {
                Err(e) => {
                    return Err(e);
                },
                Ok(_) => {},
            }
            self.advance();
        }
        assert(views.subrange(self.index as int, n - 1) =~= Seq::<TokenView>::empty());
        if self.nstack.len() != 1 {
            return Err(JsonError::StructuralError(StructuralFault::UnclosedScope));
        }
        let last = &self.tokens[self.index];
        assert(views.last() == last@);
        let ghost before = self.scopes();
        let node = self.nstack.pop().unwrap();
        let pending = self.lstack.pop().unwrap();
        let et = node.et;
        assert(before[0] == scope_view(node, pending));
        match Self::close(node, pending, last.tt) {
            Err(e) => Err(e),
            Ok(lit) => {
                self.document = Some(Node::new(et, lit));
                Ok(())
            },
        }
    }

    /// The finished document.
    pub fn node(&self) -> (r: Option<&Node>)
        requires
            self.wf(),
        ensures
            match r {
                Some(n) => n.wf() && self.document() == Some(n.root.view()),
                None => self.document() is None,
            },
    {
        self.document.as_ref()
    }

    /// Gives up the parser for the finished document.
    pub fn into_node(self) -> (r: Option<Node>)
        requires
            self.wf(),
        ensures
            match r {
                Some(n) => n.wf() && self.document() == Some(n.root.view()),
                None => self.document() is None,
            },
    {
        self.document
    }
}

/// The document of a token list.
pub fn parse_tokens(tokens: &Vec<Token>) -> (r: Result<Node, JsonError>)
    ensures
        match r {
            Ok(n) => n.wf() && parse_spec(tokens_view(tokens@)) == Ok::<LiteralView, JsonError>(
                n.root.view(),
            ),
            Err(e) => parse_spec(tokens_view(tokens@)) == Err::<LiteralView, JsonError>(e),
        },
{
    let mut parser = match JsonParser::new(tokens) {
        Ok(p) => p,
        Err(e) => {
            return Err(e);
        },
    };
    match parser.parse() {
        Ok(_) => {},
        Err(e) => {
            return Err(e);
        },
    }
    match parser.into_node() {
        Some(n) => Ok(n),
        None => Err(JsonError::StructuralError(StructuralFault::NotAContainer)),
    }
}


/// A line of the tree's listing: the indent, one space, and the name of
/// the node.
pub open spec fn label(indent: nat, name: Seq<char>) -> Seq<char> {
    spaces(indent) + seq![' '] + name
}

/// The indent of what a node at `indent` holds. Indents stop growing at the
/// largest machine integer.
pub open spec fn deeper(indent: nat, step: nat) -> nat {
    if indent + step <= usize::MAX {
        indent + step
    } else {
        indent
    }
}

pub open spec fn text_of_boolean(b: bool) -> Seq<char> {
    if b {
        "true"@
    } else {
        "false"@
    }
}

/// The listing of a value: a line for the value, then the listing of what
/// it holds, one step further in.
pub open spec fn literal_lines(lit: LiteralView, indent: nat, step: nat) -> Seq<Seq<char>>
    decreases lit, 0nat,
{
    match lit {
        LiteralView::Object(es) => seq![label(indent, "ObjectExpression"@)] + entries_lines(
            es,
            deeper(indent, step),
            step,
        ),
        LiteralView::Array(es) => seq![label(indent, "ArrayExpression"@)] + elements_lines(
            es,
            deeper(indent, step),
            step,
        ),
        LiteralView::Text(s) => seq![label(indent, "StringLiteral"@) + ": '"@ + s + "'"@],
        LiteralView::Null => seq![label(indent, "NullLiteral"@)],
        LiteralView::Boolean(b) => seq![
            label(indent, "BooleanLiteral"@) + ": "@ + text_of_boolean(b),
        ],
        LiteralView::Numeric(n) => seq![label(indent, "NumericLiteral"@) + ": "@ + number_text(n)],
    }
}

/// The listing of what an entry or element holds as its value.
pub open spec fn value_lines(v: Option<LiteralView>, indent: nat, step: nat) -> Seq<Seq<char>>
    decreases v, 1nat,
{
    match v {
        Some(lit) => seq![label(indent, "ValueLiteral"@)] + literal_lines(
            lit,
            deeper(indent, step),
            step,
        ),
        None => Seq::empty(),
    }
}

pub open spec fn key_lines(k: Option<Seq<char>>, indent: nat, step: nat) -> Seq<Seq<char>> {
    match k {
        Some(key) => seq![
            label(indent, "KeyLiteral"@),
            label(deeper(indent, step), "StringLiteral"@) + ": '"@ + key + "'"@,
        ],
        None => Seq::empty(),
    }
}

pub open spec fn entry_lines(e: ObjectLiteralView, indent: nat, step: nat) -> Seq<Seq<char>>
    decreases e, 2nat,
{
    seq![label(indent, "ObjectLiteral"@)] + key_lines(e.key, deeper(indent, step), step)
        + value_lines(e.value, deeper(indent, step), step)
}

pub open spec fn entries_lines(es: Seq<ObjectLiteralView>, indent: nat, step: nat) -> Seq<
    Seq<char>,
>
    decreases es, es.len(),
{
    if es.len() == 0 {
        Seq::empty()
    } else {
        entries_lines(es.drop_last(), indent, step) + entry_lines(es.last(), indent, step)
    }
}

pub open spec fn element_lines(e: ArrayLiteralView, indent: nat, step: nat) -> Seq<Seq<char>>
    decreases e, 2nat,
{
    seq![label(indent, "ArrayLiteral"@)] + value_lines(e.value, deeper(indent, step), step)
}

pub open spec fn elements_lines(es: Seq<ArrayLiteralView>, indent: nat, step: nat) -> Seq<
    Seq<char>,
>
    decreases es, es.len(),
{
    if es.len() == 0 {
        Seq::empty()
    } else {
        elements_lines(es.drop_last(), indent, step) + element_lines(es.last(), indent, step)
    }
}

/// The listing of a document: a heading, the name of the document's kind,
/// and the listing of what it holds, three spaces in for each level.
pub open spec fn document_lines(root: LiteralView) -> Seq<Seq<char>> {
    seq!["-- Json Parser Tree --"@] + (match root {
        LiteralView::Object(es) => seq!["ObjectExpression"@] + entries_lines(es, 3, 3),
        LiteralView::Array(es) => seq!["ArrayExpression"@] + elements_lines(es, 3, 3),
        other => literal_lines(other, 0, 3),
    })
}

fn labelled(indent: usize, name: &str) -> (s: String)
    ensures
        s@ == label(indent as nat, name@),
{
    let mut s = String::new();
    push_spaces(&mut s, indent);
    s.push(' ');
    s.append(name);
    assert(s@ =~= label(indent as nat, name@));
    s
}

fn step_in(indent: usize, step: usize) -> (r: usize)
    ensures
        r == deeper(indent as nat, step as nat),
{
    if step <= usize::MAX - indent {
        indent + step
    } else {
        indent
    }
}

fn push_line(out: &mut Vec<String>, line: String)
    ensures
        strings_view(final(out)@) == strings_view(old(out)@) + seq![line@],
{
    out.push(line);
    assert(strings_view(out@) =~= strings_view(old(out)@) + seq![line@]);
}

impl Literal {
    /// Appends the listing of the value to `out`.
    pub fn list(&self, out: &mut Vec<String>, indent: usize, step: usize)
        ensures
            strings_view(final(out)@) == strings_view(old(out)@) + literal_lines(
                self.view(),
                indent as nat,
                step as nat,
            ),
        decreases self, 0nat,
    {
        let ghost before = strings_view(out@);
        match self {
            Literal::Object(o) => {
                push_line(out, labelled(indent, "ObjectExpression"));
                o.list(out, step_in(indent, step), step);
                assert(strings_view(out@) =~= before + literal_lines(
                    self.view(),
                    indent as nat,
                    step as nat,
                ));
            },
            Literal::Array(a) => {
                push_line(out, labelled(indent, "ArrayExpression"));
                a.list(out, step_in(indent, step), step);
                assert(strings_view(out@) =~= before + literal_lines(
                    self.view(),
                    indent as nat,
                    step as nat,
                ));
            },
            Literal::Text(s) => {
                let mut line = labelled(indent, "StringLiteral");
                line.append(": '");
                line.append(s.value.as_str());
                line.append("'");
                push_line(out, line);
            },
            Literal::Null(_) => {
                push_line(out, labelled(indent, "NullLiteral"));
            },
            Literal::Boolean(b) => {
                let mut line = labelled(indent, "BooleanLiteral");
                line.append(": ");
                line.append(
                    if b.value {
                        "true"
                    } else {
                        "false"
                    },
                );
                push_line(out, line);
            },
            Literal::Numeric(n) => {
                let mut line = labelled(indent, "NumericLiteral");
                line.append(": ");
                let text = n.value.render();
                line.append(text.as_str());
                push_line(out, line);
            },
        }
    }
}

fn list_value(v: &Option<ValueLiteral>, out: &mut Vec<String>, indent: usize, step: usize)
    ensures
        strings_view(final(out)@) == strings_view(old(out)@) + value_lines(
            match v {
                Some(l) => Some(l.view()),
                None => None,
            },
            indent as nat,
            step as nat,
        ),
    decreases v, 1nat,
{
    let ghost before = strings_view(out@);
    match v {
        Some(value) => {
            push_line(out, labelled(indent, "ValueLiteral"));
            value.literal.list(out, step_in(indent, step), step);
            assert(strings_view(out@) =~= before + value_lines(
                Some(value.view()),
                indent as nat,
                step as nat,
            ));
        },
        None => {
            assert(strings_view(out@) =~= before + Seq::<Seq<char>>::empty());
        },
    }
}

impl ObjectLiteral {
    /// Appends the listing of the entry to `out`.
    pub fn list(&self, out: &mut Vec<String>, indent: usize, step: usize)
        ensures
            strings_view(final(out)@) == strings_view(old(out)@) + entry_lines(
                self.view(),
                indent as nat,
                step as nat,
            ),
        decreases self, 2nat,
    {
        let ghost before = strings_view(out@);
        let inner = step_in(indent, step);
        push_line(out, labelled(indent, "ObjectLiteral"));
        match &self.key {
            Some(k) => {
                push_line(out, labelled(inner, "KeyLiteral"));
                let mut line = labelled(step_in(inner, step), "StringLiteral");
                line.append(": '");
                line.append(k.lit_string.value.as_str());
                line.append("'");
                push_line(out, line);
            },
            None => {},
        }
        assert(strings_view(out@) =~= before + seq![label(indent as nat, "ObjectLiteral"@)]
            + key_lines(self.view().key, inner as nat, step as nat));
        list_value(&self.value, out, inner, step);
        assert(strings_view(out@) =~= before + entry_lines(
            self.view(),
            indent as nat,
            step as nat,
        ));
    }
}

impl ArrayLiteral {
    /// Appends the listing of the element to `out`.
    pub fn list(&self, out: &mut Vec<String>, indent: usize, step: usize)
        ensures
            strings_view(final(out)@) == strings_view(old(out)@) + element_lines(
                self.view(),
                indent as nat,
                step as nat,
            ),
        decreases self, 2nat,
    {
        let ghost before = strings_view(out@);
        push_line(out, labelled(indent, "ArrayLiteral"));
        list_value(&self.value, out, step_in(indent, step), step);
        assert(strings_view(out@) =~= before + element_lines(
            self.view(),
            indent as nat,
            step as nat,
        ));
    }
}

impl ObjectExpression {
    /// Appends the listing of the entries to `out`.
    pub fn list(&self, out: &mut Vec<String>, indent: usize, step: usize)
        ensures
            strings_view(final(out)@) == strings_view(old(out)@) + entries_lines(
                self.view(),
                indent as nat,
                step as nat,
            ),
        decreases self, 3nat,
    {
        let ghost before = strings_view(out@);
        let ghost es = self.view();
        proof {
            lemma_object_literals_view(self.lit_objects@);
        }
        let mut i: usize = 0;
        assert(es.take(0) =~= Seq::<ObjectLiteralView>::empty());
        assert(strings_view(out@) =~= before + entries_lines(es.take(0), indent as nat, step as nat));
        while i < self.lit_objects.len()
            invariant
                i <= self.lit_objects.len(),
                es == self.view(),
                es.len() == self.lit_objects.len(),
                forall|k: int| 0 <= k < es.len() ==> (#[trigger] es[k]) == self.lit_objects@[k].view(),
                strings_view(out@) == before + entries_lines(
                    es.take(i as int),
                    indent as nat,
                    step as nat,
                ),
            decreases self.lit_objects.len() - i,
        {
            self.lit_objects[i].list(out, indent, step);
            proof {
                assert(es.take(i + 1).drop_last() =~= es.take(i as int));
                assert(es.take(i + 1).last() == es[i as int]);
                assert(strings_view(out@) =~= before + entries_lines(
                    es.take(i + 1),
                    indent as nat,
                    step as nat,
                ));
            }
            i += 1;
        }
        assert(es.take(i as int) =~= es);
    }
}

impl ArrayExpression {
    /// Appends the listing of the elements to `out`.
    pub fn list(&self, out: &mut Vec<String>, indent: usize, step: usize)
        ensures
            strings_view(final(out)@) == strings_view(old(out)@) + elements_lines(
                self.view(),
                indent as nat,
                step as nat,
            ),
        decreases self, 3nat,
    {
        let ghost before = strings_view(out@);
        let ghost es = self.view();
        proof {
            lemma_array_literals_view(self.lit_elements@);
        }
        let mut i: usize = 0;
        assert(es.take(0) =~= Seq::<ArrayLiteralView>::empty());
        assert(strings_view(out@) =~= before + elements_lines(
            es.take(0),
            indent as nat,
            step as nat,
        ));
        while i < self.lit_elements.len()
            invariant
                i <= self.lit_elements.len(),
                es == self.view(),
                es.len() == self.lit_elements.len(),
                forall|k: int|
                    0 <= k < es.len() ==> (#[trigger] es[k]) == self.lit_elements@[k].view(),
                strings_view(out@) == before + elements_lines(
                    es.take(i as int),
                    indent as nat,
                    step as nat,
                ),
            decreases self.lit_elements.len() - i,
        {
            self.lit_elements[i].list(out, indent, step);
            proof {
                assert(es.take(i + 1).drop_last() =~= es.take(i as int));
                assert(es.take(i + 1).last() == es[i as int]);
                assert(strings_view(out@) =~= before + elements_lines(
                    es.take(i + 1),
                    indent as nat,
                    step as nat,
                ));
            }
            i += 1;
        }
        assert(es.take(i as int) =~= es);
    }
}

impl Node {
    /// The listing of the document, line by line.
    pub fn print(&self) -> (lines: Vec<String>)
        ensures
            strings_view(lines@) == document_lines(self.root.view()),
    {
        let mut out: Vec<String> = Vec::new();
        assert(strings_view(out@) =~= Seq::<Seq<char>>::empty());
        push_line(&mut out, String::from_str("-- Json Parser Tree --"));
        match &self.root {
            Literal::Object(o) => {
                push_line(&mut out, String::from_str("ObjectExpression"));
                o.list(&mut out, 3, 3);
            },
            Literal::Array(a) => {
                push_line(&mut out, String::from_str("ArrayExpression"));
                a.list(&mut out, 3, 3);
            },
            other => {
                other.list(&mut out, 0, 3);
            },
        }
        assert(strings_view(out@) =~= document_lines(self.root.view()));
        out
    }
}

} // verus!

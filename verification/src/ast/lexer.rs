use vstd::prelude::*;
use crate::error::JsonError;
use crate::text::{char_string, chars_of, string_of};

verus! {

#[derive(Debug, PartialEq, Eq, Clone, Copy, Structural)]
pub enum TokenType {
    ObjectStart,
    ObjectEnd,
    ArrayStart,
    ArrayEnd,
    ContentSeparator,
    ElementSeparator,
    JsonKey,
    JsonValue,
}

/// The kind of container a key or value token was found in.
#[derive(Debug, PartialEq, Eq, Clone, Copy, Structural)]
pub enum ValueOf {
    Array,
    Object,
    Neither,
}

#[derive(Debug)]
pub struct Token {
    pub tt: TokenType,
    pub vof: ValueOf,
    pub value: String,
    /// For a value token, whether its text stood between quotes.
    pub quoted: Option<bool>,
}

/// What a token is, with its text as a sequence of characters.
pub struct TokenView {
    pub tt: TokenType,
    pub vof: ValueOf,
    pub value: Seq<char>,
    pub quoted: Option<bool>,
}

impl View for Token {
    type V = TokenView;

    open spec fn view(&self) -> TokenView {
        TokenView { tt: self.tt, vof: self.vof, value: self.value@, quoted: self.quoted }
    }
}

impl Token {
    pub fn new(tt: TokenType, vof: ValueOf, value: String, quoted: Option<bool>) -> (t: Token)
        ensures
            t@ == (TokenView { tt, vof, value: value@, quoted }),
    {
        Token { tt, vof, value, quoted }
    }

    pub fn value(&self) -> (s: String)
        ensures
            s@ == self@.value,
    {
        self.value.clone()
    }
}

/// The views of a list of tokens.
pub open spec fn tokens_view(tokens: Seq<Token>) -> Seq<TokenView> {
    tokens.map_values(|t: Token| t@)
}

/// Whitespace that is skipped between tokens.
pub open spec fn is_space(c: char) -> bool {
    c == ' ' || c == '\n' || c == '\t'
}

/// The characters that end unquoted content.
pub open spec fn is_checker(c: char) -> bool {
    c == ',' || c == '}' || c == '{' || c == ']' || c == '[' || is_space(c)
}

/// Where the content that is being collected at `i` ends: the position of
/// the first unescaped quote, or, outside quotes, of the first unescaped
/// checker; the end of the text if there is none. A backslash escapes the
/// character after it, unless it is escaped itself.
pub open spec fn content_end(chars: Seq<char>, i: int, quoted: bool, escaped: bool) -> int
    decreases chars.len() - i,
{
    if i >= chars.len() {
        i
    } else if chars[i] == '"' && !escaped {
        i
    } else if !quoted && !escaped && is_checker(chars[i]) {
        i
    } else {
        content_end(chars, i + 1, quoted, chars[i] == '\\' && !escaped)
    }
}

pub proof fn lemma_content_end_bounds(chars: Seq<char>, i: int, quoted: bool, escaped: bool)
    requires
        0 <= i <= chars.len(),
    ensures
        i <= content_end(chars, i, quoted, escaped) <= chars.len(),
    decreases chars.len() - i,
{
    if i < chars.len() && !(chars[i] == '"' && !escaped) && !(!quoted && !escaped && is_checker(
        chars[i],
    )) {
        lemma_content_end_bounds(chars, i + 1, quoted, chars[i] == '\\' && !escaped);
    }
}

/// The token of a structural character.
pub open spec fn structural(tt: TokenType, c: char) -> TokenView {
    TokenView { tt, vof: ValueOf::Neither, value: seq![c], quoted: None }
}

/// The token of collected content: a key where a key is expected, else a
/// value that records its container and whether it was quoted.
pub open spec fn content_token(text: Seq<char>, in_object: bool, expects_key: bool, quoted: bool)
    -> TokenView {
    let vof = if in_object {
        ValueOf::Object
    } else {
        ValueOf::Array
    };
    if expects_key {
        TokenView { tt: TokenType::JsonKey, vof, value: text, quoted: None }
    } else {
        TokenView { tt: TokenType::JsonValue, vof, value: text, quoted: Some(quoted) }
    }
}

pub open spec fn prepend(t: TokenView, rest: Result<Seq<TokenView>, JsonError>) -> Result<
    Seq<TokenView>,
    JsonError,
> {
    match rest {
        Ok(ts) => Ok(seq![t] + ts),
        Err(e) => Err(e),
    }
}

pub open spec fn pop_track(track: Seq<bool>) -> Seq<bool> {
    if track.len() > 0 {
        track.drop_last()
    } else {
        track
    }
}

pub open spec fn set_top(track: Seq<bool>, b: bool) -> Seq<bool> {
    if track.len() > 0 {
        track.drop_last().push(b)
    } else {
        track
    }
}

/// The tokens of `chars[pos..]`, read at a depth whose containers are
/// `objs` (true for an object) and whose key expectations are `keys`.
///
/// Content is accepted as a value wherever a value may stand, and as a key
/// only between quotes. Any other content character is an error at its
/// position: outside every container, or unquoted where a key is expected.
pub open spec fn lex(chars: Seq<char>, pos: int, objs: Seq<bool>, keys: Seq<bool>) -> Result<
    Seq<TokenView>,
    JsonError,
>
    decreases chars.len() - pos,
{
    if pos < 0 || pos >= chars.len() {
        Ok(Seq::empty())
    } else {
        let c = chars[pos];
        if is_space(c) {
            lex(chars, pos + 1, objs, keys)
        } else if c == '{' {
            prepend(
                structural(TokenType::ObjectStart, c),
                lex(chars, pos + 1, objs.push(true), keys.push(true)),
            )
        } else if c == '}' {
            prepend(
                structural(TokenType::ObjectEnd, c),
                lex(chars, pos + 1, pop_track(objs), pop_track(keys)),
            )
        } else if c == '[' {
            prepend(
                structural(TokenType::ArrayStart, c),
                lex(chars, pos + 1, objs.push(false), keys.push(false)),
            )
        } else if c == ']' {
            prepend(
                structural(TokenType::ArrayEnd, c),
                lex(chars, pos + 1, pop_track(objs), pop_track(keys)),
            )
        } else if c == ':' {
            prepend(
                structural(TokenType::ContentSeparator, c),
                lex(chars, pos + 1, objs, set_top(keys, false)),
            )
        } else if c == ',' {
            prepend(
                structural(TokenType::ElementSeparator, c),
                lex(chars, pos + 1, objs, if objs.len() > 0 {
                    set_top(keys, objs.last())
                } else {
                    keys
                }),
            )
        } else if objs.len() == 0 || keys.len() == 0 {
            Err(JsonError::LexError(#[verifier::truncate] (pos as usize)))
        } else if c != '"' && keys.last() {
            Err(JsonError::LexError(#[verifier::truncate] (pos as usize)))
        } else {
            let quoted = c == '"';
            let end = content_end(chars, pos + 1, quoted, false);
            proof {
                lemma_content_end_bounds(chars, pos + 1, quoted, false);
            }
            let text = if quoted {
                chars.subrange(pos + 1, end)
            } else {
                chars.subrange(pos, end)
            };
            let next = if quoted && end < chars.len() {
                end + 1
            } else {
                end
            };
            prepend(
                content_token(text, objs.last(), keys.last(), quoted),
                lex(chars, next, objs, keys),
            )
        }
    }
}

/// The tokens of a whole text.
pub open spec fn tokenize_spec(text: Seq<char>) -> Result<Seq<TokenView>, JsonError> {
    lex(text, 0, Seq::empty(), Seq::empty())
}

pub struct Lexer {
    chars: Vec<char>,
    index: usize,
    tokens: Vec<Token>,
    is_quoted: bool,
    object_track: Vec<bool>,
    key_track: Vec<bool>,
}

impl Lexer {
    /// The two tracks run in parallel, the position lies in the text, and a
    /// quote is left open only at the end of the text.
    pub closed spec fn wf(&self) -> bool {
        &&& self.index <= self.chars.len()
        &&& self.object_track.len() == self.key_track.len()
        &&& self.is_quoted ==> self.index == self.chars.len()
    }

    /// The tokens that are still to come.
    pub closed spec fn remaining(&self) -> Result<Seq<TokenView>, JsonError> {
        lex(self.chars@, self.index as int, self.object_track@, self.key_track@)
    }

    /// What tokenizing ends with from this state: the tokens read so far
    /// followed by those still to come, or the error that lies ahead.
    pub closed spec fn outcome(&self) -> Result<Seq<TokenView>, JsonError> {
        match self.remaining() {
            Ok(ts) => Ok(tokens_view(self.tokens@) + ts),
            Err(e) => Err(e),
        }
    }

    /// The number of characters not yet read.
    pub closed spec fn unread(&self) -> nat {
        (self.chars.len() - self.index) as nat
    }

    pub closed spec fn tokens(&self) -> Seq<TokenView> {
        tokens_view(self.tokens@)
    }

    pub fn new(json: &str) -> (lexer: Lexer)
        ensures
            lexer.wf(),
            lexer.outcome() == tokenize_spec(json@),
            lexer.unread() == json@.len(),
    {
        let lexer = Lexer {
            chars: chars_of(json),
            index: 0,
            tokens: Vec::new(),
            is_quoted: false,
            object_track: Vec::new(),
            key_track: Vec::new(),
        };
        proof {
            let r = lex(json@, 0, Seq::empty(), Seq::empty());
            assert(lexer.object_track@ =~= Seq::empty());
            assert(lexer.key_track@ =~= Seq::empty());
            if let Ok(ts) = r {
                assert(tokens_view(lexer.tokens@) + ts =~= ts);
            }
        }
        lexer
    }

    /// Reads the whole text. The result is the token list of the text, or
    /// the first character that no rule accepts.
    pub fn tokenize(&mut self) -> (r: Result<&Vec<Token>, JsonError>)
        requires
            old(self).wf(),
        ensures
            final(self).wf(),
            match r {
                Ok(tokens) => old(self).outcome() == Ok::<Seq<TokenView>, JsonError>(
                    tokens_view(tokens@),
                ) && final(self).tokens() == tokens_view(tokens@),
                Err(e) => old(self).outcome() == Err::<Seq<TokenView>, JsonError>(e),
            },
    {
        loop
            invariant
                self.wf(),
                self.outcome() == old(self).outcome(),
            ensures
                self.wf(),
                old(self).outcome() == Ok::<Seq<TokenView>, JsonError>(self.tokens()),
            decreases self.unread(),
        {
            match self.next() {
                Ok(more) => {
                    if !more {
                        break ;
                    }
                },
                Err(e) => {
                    return Err(e);
                },
            }
        }
        Ok(&self.tokens)
    }

    fn emit(&mut self, t: Token)
        requires
            old(self).wf(),
        ensures
            final(self).wf(),
            final(self).chars == old(self).chars,
            final(self).index == old(self).index,
            final(self).is_quoted == old(self).is_quoted,
            final(self).object_track == old(self).object_track,
            final(self).key_track == old(self).key_track,
            final(self).tokens@ == old(self).tokens@.push(t),
            tokens_view(final(self).tokens@) == tokens_view(old(self).tokens@).push(t@),
    {
        self.tokens.push(t);
        assert(tokens_view(self.tokens@) =~= tokens_view(old(self).tokens@).push(t@));
    }

    /// One step: skips a space, or reads one token. `Ok(false)` at the end
    /// of the text.
    fn next(&mut self) -> (r: Result<bool, JsonError>)
        requires
            old(self).wf(),
        ensures
            final(self).wf(),
            match r {
                Ok(more) => {
                    &&& final(self).outcome() == old(self).outcome()
                    &&& more ==> final(self).unread() < old(self).unread()
                    &&& !more ==> old(self).outcome() == Ok::<Seq<TokenView>, JsonError>(
                        final(self).tokens(),
                    )
                },
                Err(e) => old(self).outcome() == Err::<Seq<TokenView>, JsonError>(e),
            },
    {
        if self.index >= self.chars.len() {
            proof {
                assert(tokens_view(self.tokens@) + Seq::<TokenView>::empty() =~= tokens_view(
                    self.tokens@,
                ));
            }
            return Ok(false);
        }
        let c = self.chars[self.index];
        let ghost before = *self;
        let ghost rest = lex(
            self.chars@,
            self.index as int,
            self.object_track@,
            self.key_track@,
        );
        if c == ' ' || c == '\n' || c == '\t' {
            self.index += 1;
            return Ok(true);
        }
        if c == '{' || c == '}' || c == '[' || c == ']' || c == ':' || c == ',' {
            let tt = if c == '{' {
                self.object_track.push(true);
                self.key_track.push(true);
                TokenType::ObjectStart
            } else if c == '}' {
                self.object_track.pop();
                self.key_track.pop();
                TokenType::ObjectEnd
            } else if c == '[' {
                self.object_track.push(false);
                self.key_track.push(false);
                TokenType::ArrayStart
            } else if c == ']' {
                self.object_track.pop();
                self.key_track.pop();
                TokenType::ArrayEnd
            } else if c == ':' {
                if self.key_track.len() > 0 {
                    self.key_track.pop();
                    self.key_track.push(false);
                }
                TokenType::ContentSeparator
            } else {
                if self.key_track.len() > 0 {
                    let in_object = self.object_track[self.object_track.len() - 1];
                    self.key_track.pop();
                    self.key_track.push(in_object);
                }
                TokenType::ElementSeparator
            };
            self.index += 1;
            let t = Token::new(tt, ValueOf::Neither, char_string(c), None);
            let ghost after = lex(
                self.chars@,
                self.index as int,
                self.object_track@,
                self.key_track@,
            );
            assert(rest == prepend(t@, after));
            self.emit(t);
            proof {
                if let Ok(ts) = after {
                    assert(tokens_view(before.tokens@) + (seq![t@] + ts) =~= tokens_view(
                        before.tokens@,
                    ).push(t@) + ts);
                }
            }
            return Ok(true);
        }
        if self.key_track.len() == 0 {
            return Err(JsonError::LexError(self.index));
        }
        let expects_key = self.key_track[self.key_track.len() - 1];
        if c != '"' && expects_key {
            return Err(JsonError::LexError(self.index));
        }
        self.add_content(c == '"');
        Ok(true)
    }

    /// Collects the content that starts at the current character and emits
    /// its token.
    fn add_content(&mut self, quoted: bool)
        requires
            old(self).wf(),
            old(self).index < old(self).chars.len(),
            old(self).key_track.len() > 0,
            quoted == (old(self).chars@[old(self).index as int] == '"'),
            !quoted ==> !old(self).key_track@.last(),
            !is_space(old(self).chars@[old(self).index as int]),
            !is_checker(old(self).chars@[old(self).index as int]),
            old(self).chars@[old(self).index as int] != ':',
        ensures
            final(self).wf(),
            final(self).outcome() == old(self).outcome(),
            final(self).unread() < old(self).unread(),
    {
        let ghost before = *self;
        let start = self.index;
        let n = self.chars.len();
        self.is_quoted = quoted;
        let mut j: usize = start + 1;
        let mut escaped = false;
        while j < n
            invariant
                start < j <= n,
                n == self.chars.len(),
                self.chars == before.chars,
                content_end(self.chars@, start + 1, quoted, false) == content_end(
                    self.chars@,
                    j as int,
                    quoted,
                    escaped,
                ),
            ensures
                start < j <= n,
                j == content_end(self.chars@, start + 1, quoted, false),
            decreases n - j,
        {
            let q = self.chars[j];
            if q == '"' && !escaped {
                break ;
            }
            if !quoted && !escaped && (q == ',' || q == '}' || q == '{' || q == ']' || q == '['
                || q == ' ' || q == '\n' || q == '\t') {
                break ;
            }
            escaped = q == '\\' && !escaped;
            j += 1;
        }
        let from = if quoted {
            start + 1
        } else {
            start
        };
        let text = string_of(&self.chars, from, j);
        let in_object = self.object_track[self.object_track.len() - 1];
        let expects_key = self.key_track[self.key_track.len() - 1];
        let vof = if in_object {
            ValueOf::Object
        } else {
            ValueOf::Array
        };
        let t = if expects_key {
            Token::new(TokenType::JsonKey, vof, text, None)
        } else {
            Token::new(TokenType::JsonValue, vof, text, Some(quoted))
        };
        if quoted && j < n {
            self.is_quoted = false;
            self.index = j + 1;
        } else {
            self.is_quoted = quoted && j >= n;
            self.index = j;
        }
        let ghost after = lex(
            self.chars@,
            self.index as int,
            self.object_track@,
            self.key_track@,
        );
        assert(before.remaining() == prepend(t@, after));
        self.emit(t);
        proof {
            if let Ok(ts) = after {
                assert(tokens_view(before.tokens@) + (seq![t@] + ts) =~= tokens_view(
                    before.tokens@,
                ).push(t@) + ts);
            }
        }
    }
}

/// The tokens of `text`, or the position of the first character that no
/// rule accepts.
pub fn tokenize(text: &str) -> (r: Result<Vec<Token>, JsonError>)
    ensures
        match r {
            Ok(tokens) => tokenize_spec(text@) == Ok::<Seq<TokenView>, JsonError>(
                tokens_view(tokens@),
            ),
            Err(e) => tokenize_spec(text@) == Err::<Seq<TokenView>, JsonError>(e),
        },
{
    let mut lexer = Lexer::new(text);
    match lexer.tokenize() {
        Ok(_) => {},
        Err(e) => {
            return Err(e);
        },
    }
    Ok(lexer.into_tokens())
}

impl Lexer {
    /// Gives up the lexer for the tokens it has read.
    pub fn into_tokens(self) -> (tokens: Vec<Token>)
        ensures
            tokens_view(tokens@) == self.tokens(),
    {
        self.tokens
    }
}

} // verus!

use vstd::prelude::*;

verus! {

/// Why a token list does not describe a document.
#[derive(Clone, Copy, Debug, PartialEq, Eq, Structural)]
pub enum StructuralFault {
    /// The first and last tokens are not a matching pair of object or array
    /// delimiters.
    NotAContainer,
    /// A token arrived with no scope open for it, or a closing token would
    /// close the document before its last token.
    NoOpenScope,
    /// The document ended with scopes still open.
    UnclosedScope,
    /// A closing token does not match the kind of the scope it would close.
    MismatchedClose,
    /// A key token arrived while the current scope is an array.
    KeyInArray,
    /// A value token arrived in an object scope with no key waiting for it.
    ValueWithoutKey,
    /// A scope closed while one of its keys still waited for a value.
    KeyWithoutValue,
    /// A value token does not carry the context of the scope it arrived in.
    MisplacedValue,
}

/// Why a literal or a field does not have the requested type.
#[derive(Clone, Copy, Debug, PartialEq, Eq, Structural)]
pub enum TypeFault {
    /// Unquoted text that is neither a boolean, null, nor a number of any
    /// supported width.
    UnknownNumber,
    /// The value's tag is not the one that was asked for.
    Mismatch,
    /// The number is not an integer of the requested width.
    NotOfWidth,
    /// The text of the value does not read as what its tag says it is.
    Unreadable,
}

/// The failures of the codec. None is retried: each one reports malformed
/// input or a misuse of the typed accessors.
#[derive(Clone, Copy, Debug, PartialEq, Eq, Structural)]
pub enum JsonError {
    /// A character that no tokenizer rule accepts, with its position in the
    /// text (counted in characters).
    LexError(usize),
    StructuralError(StructuralFault),
    TypeError(TypeFault),
}

impl JsonError {
    pub open spec fn is_lex(self) -> bool {
        self is LexError
    }

    pub open spec fn is_structural(self) -> bool {
        self is StructuralError
    }

    pub open spec fn is_type(self) -> bool {
        self is TypeError
    }

    /// A short description of the failure class.
    pub fn describe(&self) -> (r: &'static str)
        ensures
            r@ == (match *self {
                JsonError::LexError(_) => "LexError"@,
                JsonError::StructuralError(_) => "StructuralError"@,
                JsonError::TypeError(_) => "TypeError"@,
            }),
    {
        match self {
            JsonError::LexError(_) => "LexError",
            JsonError::StructuralError(_) => "StructuralError",
            JsonError::TypeError(_) => "TypeError",
        }
    }
}

} // verus!

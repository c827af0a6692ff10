use vstd::prelude::*;
use crate::builder::convert::boolean_text;
use crate::builder::types::JsonType;
use crate::error::{JsonError, TypeFault};
use crate::number::{
    classify,
    number_of_text,
    read_signed,
    read_unsigned,
    signed_value,
    unsigned_value,
};
use crate::text::chars_of;

verus! {

/// A built value: its kind and its text. The text of a string is its
/// content without the quotes; the text of a container is its rendering.
#[derive(Debug)]
pub struct JsonBuilderValue {
    pub dt: JsonType,
    pub value: String,
}

pub struct JsonBuilderValueView {
    pub dt: JsonType,
    pub value: Seq<char>,
}

impl View for JsonBuilderValue {
    type V = JsonBuilderValueView;

    open spec fn view(&self) -> JsonBuilderValueView {
        JsonBuilderValueView { dt: self.dt, value: self.value@ }
    }
}

impl Clone for JsonBuilderValue {
    fn clone(&self) -> (r: Self)
        ensures
            r@ == self@,
    {
        JsonBuilderValue { dt: self.dt, value: self.value.clone() }
    }
}

/// `s` between quotes.
pub open spec fn quoted(s: Seq<char>) -> Seq<char> {
    seq!['"'] + s + seq!['"']
}

/// A value as it stands in a container: a string between quotes, anything
/// else as its text.
pub open spec fn element_text(v: JsonBuilderValueView) -> Seq<char> {
    if v.dt == JsonType::String {
        quoted(v.value)
    } else {
        v.value
    }
}

/// The elements of an array, separated by commas.
pub open spec fn elements_text(vs: Seq<JsonBuilderValueView>) -> Seq<char>
    decreases vs.len(),
{
    if vs.len() == 0 {
        Seq::empty()
    } else if vs.len() == 1 {
        element_text(vs[0])
    } else {
        elements_text(vs.drop_last()) + seq![','] + element_text(vs.last())
    }
}

/// The rendering of an array: `[v,...]`.
pub open spec fn array_text(vs: Seq<JsonBuilderValueView>) -> Seq<char> {
    seq!['['] + elements_text(vs) + seq![']']
}

/// An entry of an object: `"k":v`.
pub open spec fn entry_text(e: (Seq<char>, JsonBuilderValueView)) -> Seq<char> {
    quoted(e.0) + seq![':'] + element_text(e.1)
}

/// The entries of an object, separated by commas.
pub open spec fn entries_text(es: Seq<(Seq<char>, JsonBuilderValueView)>) -> Seq<char>
    decreases es.len(),
{
    if es.len() == 0 {
        Seq::empty()
    } else if es.len() == 1 {
        entry_text(es[0])
    } else {
        entries_text(es.drop_last()) + seq![','] + entry_text(es.last())
    }
}

/// The rendering of an object: `{"k":v,...}`.
pub open spec fn object_text(es: Seq<(Seq<char>, JsonBuilderValueView)>) -> Seq<char> {
    seq!['{'] + entries_text(es) + seq!['}']
}

impl JsonBuilderValue {
    pub fn new(dt: JsonType, value: String) -> (v: Self)
        ensures
            v@ == (JsonBuilderValueView { dt, value: value@ }),
    {
        JsonBuilderValue { dt, value }
    }

    /// Appends the value to `out` as it stands in a container.
    pub fn write_element(&self, out: &mut String)
        ensures
            final(out)@ == old(out)@ + element_text(self@),
    {
        if self.dt == JsonType::String {
            out.push('"');
            out.append(self.value.as_str());
            out.push('"');
            assert(out@ =~= old(out)@ + element_text(self@));
        } else {
            out.append(self.value.as_str());
        }
    }
}


/// The integer that a number's text is read as by an unsigned type that
/// reaches up to `max`.
pub open spec fn value_unsigned(v: JsonBuilderValueView, max: int) -> Result<int, JsonError> {
    if v.dt != JsonType::Number {
        Err(JsonError::TypeError(TypeFault::Mismatch))
    } else {
        match unsigned_value(v.value) {
            Some(n) if n <= max => Ok(n as int),
            _ => Err(JsonError::TypeError(TypeFault::NotOfWidth)),
        }
    }
}

/// The integer that a number's text is read as by a signed type that
/// reaches from `min` to `max`.
pub open spec fn value_signed(v: JsonBuilderValueView, min: int, max: int) -> Result<
    int,
    JsonError,
> {
    if v.dt != JsonType::Number {
        Err(JsonError::TypeError(TypeFault::Mismatch))
    } else {
        match signed_value(v.value) {
            Some(n) if min <= n <= max => Ok(n),
            _ => Err(JsonError::TypeError(TypeFault::NotOfWidth)),
        }
    }
}

/// The boolean that a value holds: its text must be `true` or `false`.
pub open spec fn value_boolean(v: JsonBuilderValueView) -> Result<bool, JsonError> {
    if v.dt != JsonType::Boolean {
        Err(JsonError::TypeError(TypeFault::Mismatch))
    } else if v.value == boolean_text(true) {
        Ok(true)
    } else if v.value == boolean_text(false) {
        Ok(false)
    } else {
        Err(JsonError::TypeError(TypeFault::Unreadable))
    }
}

/// The text that a string value holds.
pub open spec fn value_text(v: JsonBuilderValueView) -> Result<Seq<char>, JsonError> {
    if v.dt != JsonType::String {
        Err(JsonError::TypeError(TypeFault::Mismatch))
    } else {
        Ok(v.value)
    }
}

impl JsonBuilderValue {
    /// A number given by its text, which must read as a number of some
    /// supported width. This is how a number with a fraction or an exponent
    /// is built.
    pub fn number(text: &str) -> (r: Result<JsonBuilderValue, JsonError>)
        ensures
            match r {
                Ok(v) => number_of_text(text@) is Some && v@ == (JsonBuilderValueView {
                    dt: JsonType::Number,
                    value: text@,
                }),
                Err(e) => number_of_text(text@) is None && e == JsonError::TypeError(
                    TypeFault::UnknownNumber,
                ),
            },
    {
        match classify(text) {
            Ok(_) => Ok(JsonBuilderValue::new(JsonType::Number, text.to_owned())),
            Err(e) => Err(e),
        }
    }

    pub fn is_null(&self) -> (b: bool)
        ensures
            b == (self@.dt == JsonType::Null),
    {
        self.dt == JsonType::Null
    }

    /// The boolean, if the value is one.
    pub fn to_bool(&self) -> (r: Result<bool, JsonError>)
        ensures
            r == value_boolean(self@),
    {
        if self.dt != JsonType::Boolean {
            return Err(JsonError::TypeError(TypeFault::Mismatch));
        }
        let chars = chars_of(self.value.as_str());
        let t = vec!['t', 'r', 'u', 'e'];
        let f = vec!['f', 'a', 'l', 's', 'e'];
        assert(t@ =~= boolean_text(true));
        assert(f@ =~= boolean_text(false));
        if same_chars(&chars, &t) {
            Ok(true)
        } else if same_chars(&chars, &f) {
            Ok(false)
        } else {
            Err(JsonError::TypeError(TypeFault::Unreadable))
        }
    }

    /// The boolean, or nothing for null.
    pub fn to_optional_bool(&self) -> (r: Result<Option<bool>, JsonError>)
        ensures
            match r {
                Ok(Some(b)) => self@.dt != JsonType::Null && value_boolean(self@) == Ok::<
                    bool,
                    JsonError,
                >(b),
                Ok(None) => self@.dt == JsonType::Null,
                Err(e) => self@.dt != JsonType::Null && value_boolean(self@) == Err::<
                    bool,
                    JsonError,
                >(e),
            },
    {
        if self.dt == JsonType::Null {
            return Ok(None);
        }
        match self.to_bool() {
            Ok(b) => Ok(Some(b)),
            Err(e) => Err(e),
        }
    }

    /// The text, if the value is a string.
    pub fn to_text(&self) -> (r: Result<String, JsonError>)
        ensures
            match r {
                Ok(s) => value_text(self@) == Ok::<Seq<char>, JsonError>(s@),
                Err(e) => value_text(self@) == Err::<Seq<char>, JsonError>(e),
            },
    {
        if self.dt != JsonType::String {
            return Err(JsonError::TypeError(TypeFault::Mismatch));
        }
        Ok(self.value.clone())
    }

    /// The text, or nothing for null.
    pub fn to_optional_text(&self) -> (r: Result<Option<String>, JsonError>)
        ensures
            match r {
                Ok(Some(s)) => self@.dt != JsonType::Null && value_text(self@) == Ok::<
                    Seq<char>,
                    JsonError,
                >(s@),
                Ok(None) => self@.dt == JsonType::Null,
                Err(e) => self@.dt != JsonType::Null && value_text(self@) == Err::<
                    Seq<char>,
                    JsonError,
                >(e),
            },
    {
        if self.dt == JsonType::Null {
            return Ok(None);
        }
        match self.to_text() {
            Ok(s) => Ok(Some(s)),
            Err(e) => Err(e),
        }
    }

    /// The number as `u8`.
    pub fn to_u8(&self) -> (r: Result<u8, JsonError>)
        ensures
            match r {
                Ok(n) => value_unsigned(self@, u8::MAX as int) == Ok::<int, JsonError>(n as int),
                Err(e) => value_unsigned(self@, u8::MAX as int) == Err::<int, JsonError>(e),
            },
    {
        if self.dt != JsonType::Number {
            return Err(JsonError::TypeError(TypeFault::Mismatch));
        }
        match read_unsigned(self.value.as_str()) {
            Some(v) => if v <= 0xff {
                    Ok(v as u8)
                } else {
                    Err(JsonError::TypeError(TypeFault::NotOfWidth))
                },
            None => Err(JsonError::TypeError(TypeFault::NotOfWidth)),
        }
    }

    /// The number as `u8`, or nothing for null.
    pub fn to_optional_u8(&self) -> (r: Result<Option<u8>, JsonError>)
        ensures
            match r {
                Ok(Some(n)) => self@.dt != JsonType::Null && value_unsigned(self@, u8::MAX as int)
                    == Ok::<int, JsonError>(n as int),
                Ok(None) => self@.dt == JsonType::Null,
                Err(e) => self@.dt != JsonType::Null && value_unsigned(self@, u8::MAX as int)
                    == Err::<int, JsonError>(e),
            },
    {
        if self.dt == JsonType::Null {
            return Ok(None);
        }
        match self.to_u8() {
            Ok(n) => Ok(Some(n)),
            Err(e) => Err(e),
        }
    }

    /// The number as `u16`.
    pub fn to_u16(&self) -> (r: Result<u16, JsonError>)
        ensures
            match r {
                Ok(n) => value_unsigned(self@, u16::MAX as int) == Ok::<int, JsonError>(n as int),
                Err(e) => value_unsigned(self@, u16::MAX as int) == Err::<int, JsonError>(e),
            },
    {
        if self.dt != JsonType::Number {
            return Err(JsonError::TypeError(TypeFault::Mismatch));
        }
        match read_unsigned(self.value.as_str()) {
            Some(v) => if v <= 0xffff {
                    Ok(v as u16)
                } else {
                    Err(JsonError::TypeError(TypeFault::NotOfWidth))
                },
            None => Err(JsonError::TypeError(TypeFault::NotOfWidth)),
        }
    }

    /// The number as `u16`, or nothing for null.
    pub fn to_optional_u16(&self) -> (r: Result<Option<u16>, JsonError>)
        ensures
            match r {
                Ok(Some(n)) => self@.dt != JsonType::Null && value_unsigned(self@, u16::MAX as int)
                    == Ok::<int, JsonError>(n as int),
                Ok(None) => self@.dt == JsonType::Null,
                Err(e) => self@.dt != JsonType::Null && value_unsigned(self@, u16::MAX as int)
                    == Err::<int, JsonError>(e),
            },
    {
        if self.dt == JsonType::Null {
            return Ok(None);
        }
        match self.to_u16() {
            Ok(n) => Ok(Some(n)),
            Err(e) => Err(e),
        }
    }

    /// The number as `u32`.
    pub fn to_u32(&self) -> (r: Result<u32, JsonError>)
        ensures
            match r {
                Ok(n) => value_unsigned(self@, u32::MAX as int) == Ok::<int, JsonError>(n as int),
                Err(e) => value_unsigned(self@, u32::MAX as int) == Err::<int, JsonError>(e),
            },
    {
        if self.dt != JsonType::Number {
            return Err(JsonError::TypeError(TypeFault::Mismatch));
        }
        match read_unsigned(self.value.as_str()) {
            Some(v) => if v <= 0xffff_ffff {
                    Ok(v as u32)
                } else {
                    Err(JsonError::TypeError(TypeFault::NotOfWidth))
                },
            None => Err(JsonError::TypeError(TypeFault::NotOfWidth)),
        }
    }

    /// The number as `u32`, or nothing for null.
    pub fn to_optional_u32(&self) -> (r: Result<Option<u32>, JsonError>)
        ensures
            match r {
                Ok(Some(n)) => self@.dt != JsonType::Null && value_unsigned(self@, u32::MAX as int)
                    == Ok::<int, JsonError>(n as int),
                Ok(None) => self@.dt == JsonType::Null,
                Err(e) => self@.dt != JsonType::Null && value_unsigned(self@, u32::MAX as int)
                    == Err::<int, JsonError>(e),
            },
    {
        if self.dt == JsonType::Null {
            return Ok(None);
        }
        match self.to_u32() {
            Ok(n) => Ok(Some(n)),
            Err(e) => Err(e),
        }
    }

    /// The number as `u64`.
    pub fn to_u64(&self) -> (r: Result<u64, JsonError>)
        ensures
            match r {
                Ok(n) => value_unsigned(self@, u64::MAX as int) == Ok::<int, JsonError>(n as int),
                Err(e) => value_unsigned(self@, u64::MAX as int) == Err::<int, JsonError>(e),
            },
    {
        if self.dt != JsonType::Number {
            return Err(JsonError::TypeError(TypeFault::Mismatch));
        }
        match read_unsigned(self.value.as_str()) {
            Some(v) => if v <= 0xffff_ffff_ffff_ffff {
                    Ok(v as u64)
                } else {
                    Err(JsonError::TypeError(TypeFault::NotOfWidth))
                },
            None => Err(JsonError::TypeError(TypeFault::NotOfWidth)),
        }
    }

    /// The number as `u64`, or nothing for null.
    pub fn to_optional_u64(&self) -> (r: Result<Option<u64>, JsonError>)
        ensures
            match r {
                Ok(Some(n)) => self@.dt != JsonType::Null && value_unsigned(self@, u64::MAX as int)
                    == Ok::<int, JsonError>(n as int),
                Ok(None) => self@.dt == JsonType::Null,
                Err(e) => self@.dt != JsonType::Null && value_unsigned(self@, u64::MAX as int)
                    == Err::<int, JsonError>(e),
            },
    {
        if self.dt == JsonType::Null {
            return Ok(None);
        }
        match self.to_u64() {
            Ok(n) => Ok(Some(n)),
            Err(e) => Err(e),
        }
    }

    /// The number as `u128`.
    pub fn to_u128(&self) -> (r: Result<u128, JsonError>)
        ensures
            match r {
                Ok(n) => value_unsigned(self@, u128::MAX as int) == Ok::<int, JsonError>(n as int),
                Err(e) => value_unsigned(self@, u128::MAX as int) == Err::<int, JsonError>(e),
            },
    {
        if self.dt != JsonType::Number {
            return Err(JsonError::TypeError(TypeFault::Mismatch));
        }
        match read_unsigned(self.value.as_str()) {
            Some(v) => Ok(v),
            None => Err(JsonError::TypeError(TypeFault::NotOfWidth)),
        }
    }

    /// The number as `u128`, or nothing for null.
    pub fn to_optional_u128(&self) -> (r: Result<Option<u128>, JsonError>)
        ensures
            match r {
                Ok(Some(n)) => self@.dt != JsonType::Null && value_unsigned(self@, u128::MAX as int)
                    == Ok::<int, JsonError>(n as int),
                Ok(None) => self@.dt == JsonType::Null,
                Err(e) => self@.dt != JsonType::Null && value_unsigned(self@, u128::MAX as int)
                    == Err::<int, JsonError>(e),
            },
    {
        if self.dt == JsonType::Null {
            return Ok(None);
        }
        match self.to_u128() {
            Ok(n) => Ok(Some(n)),
            Err(e) => Err(e),
        }
    }

    /// The number as `i8`.
    pub fn to_i8(&self) -> (r: Result<i8, JsonError>)
        ensures
            match r {
                Ok(n) => value_signed(self@, i8::MIN as int, i8::MAX as int) == Ok::<
                    int,
                    JsonError,
                >(n as int),
                Err(e) => value_signed(self@, i8::MIN as int, i8::MAX as int) == Err::<
                    int,
                    JsonError,
                >(e),
            },
    {
        if self.dt != JsonType::Number {
            return Err(JsonError::TypeError(TypeFault::Mismatch));
        }
        match read_signed(self.value.as_str()) {
            Some(v) => if -0x80 <= v && v <= 0x7f {
                    Ok(v as i8)
                } else {
                    Err(JsonError::TypeError(TypeFault::NotOfWidth))
                },
            None => Err(JsonError::TypeError(TypeFault::NotOfWidth)),
        }
    }

    /// The number as `i8`, or nothing for null.
    pub fn to_optional_i8(&self) -> (r: Result<Option<i8>, JsonError>)
        ensures
            match r {
                Ok(Some(n)) => self@.dt != JsonType::Null && value_signed(
                    self@,
                    i8::MIN as int,
                    i8::MAX as int,
                ) == Ok::<int, JsonError>(n as int),
                Ok(None) => self@.dt == JsonType::Null,
                Err(e) => self@.dt != JsonType::Null && value_signed(
                    self@,
                    i8::MIN as int,
                    i8::MAX as int,
                ) == Err::<int, JsonError>(e),
            },
    {
        if self.dt == JsonType::Null {
            return Ok(None);
        }
        match self.to_i8() {
            Ok(n) => Ok(Some(n)),
            Err(e) => Err(e),
        }
    }

    /// The number as `i16`.
    pub fn to_i16(&self) -> (r: Result<i16, JsonError>)
        ensures
            match r {
                Ok(n) => value_signed(self@, i16::MIN as int, i16::MAX as int) == Ok::<
                    int,
                    JsonError,
                >(n as int),
                Err(e) => value_signed(self@, i16::MIN as int, i16::MAX as int) == Err::<
                    int,
                    JsonError,
                >(e),
            },
    {
        if self.dt != JsonType::Number {
            return Err(JsonError::TypeError(TypeFault::Mismatch));
        }
        match read_signed(self.value.as_str()) {
            Some(v) => if -0x8000 <= v && v <= 0x7fff {
                    Ok(v as i16)
                } else {
                    Err(JsonError::TypeError(TypeFault::NotOfWidth))
                },
            None => Err(JsonError::TypeError(TypeFault::NotOfWidth)),
        }
    }

    /// The number as `i16`, or nothing for null.
    pub fn to_optional_i16(&self) -> (r: Result<Option<i16>, JsonError>)
        ensures
            match r {
                Ok(Some(n)) => self@.dt != JsonType::Null && value_signed(
                    self@,
                    i16::MIN as int,
                    i16::MAX as int,
                ) == Ok::<int, JsonError>(n as int),
                Ok(None) => self@.dt == JsonType::Null,
                Err(e) => self@.dt != JsonType::Null && value_signed(
                    self@,
                    i16::MIN as int,
                    i16::MAX as int,
                ) == Err::<int, JsonError>(e),
            },
    {
        if self.dt == JsonType::Null {
            return Ok(None);
        }
        match self.to_i16() {
            Ok(n) => Ok(Some(n)),
            Err(e) => Err(e),
        }
    }

    /// The number as `i32`.
    pub fn to_i32(&self) -> (r: Result<i32, JsonError>)
        ensures
            match r {
                Ok(n) => value_signed(self@, i32::MIN as int, i32::MAX as int) == Ok::<
                    int,
                    JsonError,
                >(n as int),
                Err(e) => value_signed(self@, i32::MIN as int, i32::MAX as int) == Err::<
                    int,
                    JsonError,
                >(e),
            },
    {
        if self.dt != JsonType::Number {
            return Err(JsonError::TypeError(TypeFault::Mismatch));
        }
        match read_signed(self.value.as_str()) {
            Some(v) => if -0x8000_0000 <= v && v <= 0x7fff_ffff {
                    Ok(v as i32)
                } else {
                    Err(JsonError::TypeError(TypeFault::NotOfWidth))
                },
            None => Err(JsonError::TypeError(TypeFault::NotOfWidth)),
        }
    }

    /// The number as `i32`, or nothing for null.
    pub fn to_optional_i32(&self) -> (r: Result<Option<i32>, JsonError>)
        ensures
            match r {
                Ok(Some(n)) => self@.dt != JsonType::Null && value_signed(
                    self@,
                    i32::MIN as int,
                    i32::MAX as int,
                ) == Ok::<int, JsonError>(n as int),
                Ok(None) => self@.dt == JsonType::Null,
                Err(e) => self@.dt != JsonType::Null && value_signed(
                    self@,
                    i32::MIN as int,
                    i32::MAX as int,
                ) == Err::<int, JsonError>(e),
            },
    {
        if self.dt == JsonType::Null {
            return Ok(None);
        }
        match self.to_i32() {
            Ok(n) => Ok(Some(n)),
            Err(e) => Err(e),
        }
    }

    /// The number as `i64`.
    pub fn to_i64(&self) -> (r: Result<i64, JsonError>)
        ensures
            match r {
                Ok(n) => value_signed(self@, i64::MIN as int, i64::MAX as int) == Ok::<
                    int,
                    JsonError,
                >(n as int),
                Err(e) => value_signed(self@, i64::MIN as int, i64::MAX as int) == Err::<
                    int,
                    JsonError,
                >(e),
            },
    {
        if self.dt != JsonType::Number {
            return Err(JsonError::TypeError(TypeFault::Mismatch));
        }
        match read_signed(self.value.as_str()) {
            Some(v) => if -0x8000_0000_0000_0000 <= v && v <= 0x7fff_ffff_ffff_ffff {
                    Ok(v as i64)
                } else {
                    Err(JsonError::TypeError(TypeFault::NotOfWidth))
                },
            None => Err(JsonError::TypeError(TypeFault::NotOfWidth)),
        }
    }

    /// The number as `i64`, or nothing for null.
    pub fn to_optional_i64(&self) -> (r: Result<Option<i64>, JsonError>)
        ensures
            match r {
                Ok(Some(n)) => self@.dt != JsonType::Null && value_signed(
                    self@,
                    i64::MIN as int,
                    i64::MAX as int,
                ) == Ok::<int, JsonError>(n as int),
                Ok(None) => self@.dt == JsonType::Null,
                Err(e) => self@.dt != JsonType::Null && value_signed(
                    self@,
                    i64::MIN as int,
                    i64::MAX as int,
                ) == Err::<int, JsonError>(e),
            },
    {
        if self.dt == JsonType::Null {
            return Ok(None);
        }
        match self.to_i64() {
            Ok(n) => Ok(Some(n)),
            Err(e) => Err(e),
        }
    }

    /// The number as `i128`.
    pub fn to_i128(&self) -> (r: Result<i128, JsonError>)
        ensures
            match r {
                Ok(n) => value_signed(self@, i128::MIN as int, i128::MAX as int) == Ok::<
                    int,
                    JsonError,
                >(n as int),
                Err(e) => value_signed(self@, i128::MIN as int, i128::MAX as int) == Err::<
                    int,
                    JsonError,
                >(e),
            },
    {
        if self.dt != JsonType::Number {
            return Err(JsonError::TypeError(TypeFault::Mismatch));
        }
        match read_signed(self.value.as_str()) {
            Some(v) => Ok(v),
            None => Err(JsonError::TypeError(TypeFault::NotOfWidth)),
        }
    }

    /// The number as `i128`, or nothing for null.
    pub fn to_optional_i128(&self) -> (r: Result<Option<i128>, JsonError>)
        ensures
            match r {
                Ok(Some(n)) => self@.dt != JsonType::Null && value_signed(
                    self@,
                    i128::MIN as int,
                    i128::MAX as int,
                ) == Ok::<int, JsonError>(n as int),
                Ok(None) => self@.dt == JsonType::Null,
                Err(e) => self@.dt != JsonType::Null && value_signed(
                    self@,
                    i128::MIN as int,
                    i128::MAX as int,
                ) == Err::<int, JsonError>(e),
            },
    {
        if self.dt == JsonType::Null {
            return Ok(None);
        }
        match self.to_i128() {
            Ok(n) => Ok(Some(n)),
            Err(e) => Err(e),
        }
    }
}

/// Whether two lists of characters are the same.
pub fn same_chars(a: &Vec<char>, b: &Vec<char>) -> (r: bool)
    ensures
        r == (a@ == b@),
{
    if a.len() != b.len() {
        return false;
    }
    let mut i: usize = 0;
    while i < a.len()
        invariant
            a.len() == b.len(),
            i <= a.len(),
            forall|k: int| 0 <= k < i ==> a@[k] == b@[k],
        decreases a.len() - i,
    {
        if a[i] != b[i] {
            return false;
        }
        i += 1;
    }
    assert(a@ =~= b@);
    true
}

} // verus!

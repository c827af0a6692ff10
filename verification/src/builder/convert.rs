use vstd::prelude::*;
use vstd::std_specs::convert::FromSpecImpl;
use vstd::string::StringExecFns;
use crate::builder::array::{JsonBuilderArray, values_view};
use crate::builder::object::JsonBuilderObject;
use crate::builder::types::{JsonNull, JsonType};
use crate::builder::value::{JsonBuilderValue, JsonBuilderValueView, array_text, object_text};
use crate::number::{int_decimal, render_signed, render_unsigned};

verus! {

/// The value of an integer: a number with its decimal text.
pub open spec fn number_value(v: int) -> JsonBuilderValueView {
    JsonBuilderValueView { dt: JsonType::Number, value: int_decimal(v) }
}

pub open spec fn boolean_text(b: bool) -> Seq<char> {
    if b {
        seq!['t', 'r', 'u', 'e']
    } else {
        seq!['f', 'a', 'l', 's', 'e']
    }
}

/// The value of a boolean: `true` or `false`.
pub open spec fn boolean_value(b: bool) -> JsonBuilderValueView {
    JsonBuilderValueView { dt: JsonType::Boolean, value: boolean_text(b) }
}

pub open spec fn null_text() -> Seq<char> {
    seq!['n', 'u', 'l', 'l']
}

/// The value of the null marker.
pub open spec fn null_value() -> JsonBuilderValueView {
    JsonBuilderValueView { dt: JsonType::Null, value: null_text() }
}

/// The value of a string: its text as it is.
pub open spec fn string_value(s: Seq<char>) -> JsonBuilderValueView {
    JsonBuilderValueView { dt: JsonType::String, value: s }
}

/// The value of an object: its rendering.
pub open spec fn object_value(es: Seq<(Seq<char>, JsonBuilderValueView)>) -> JsonBuilderValueView {
    JsonBuilderValueView { dt: JsonType::Object, value: object_text(es) }
}

/// The value of an array: its rendering.
pub open spec fn array_value(vs: Seq<JsonBuilderValueView>) -> JsonBuilderValueView {
    JsonBuilderValueView { dt: JsonType::Array, value: array_text(vs) }
}

impl From<JsonNull> for JsonBuilderValue {
    fn from(v: JsonNull) -> (r: Self)
        ensures
            r@ == null_value(),
    {
        proof {
            reveal_strlit("null");
        }
        let r = JsonBuilderValue::new(JsonType::Null, String::from_str("null"));
        assert(r@.value =~= null_text());
        r
    }
}

impl FromSpecImpl<JsonNull> for JsonBuilderValue {
    open spec fn obeys_from_spec() -> bool {
        false
    }

    open spec fn from_spec(v: JsonNull) -> Self {
        arbitrary()
    }
}

impl From<bool> for JsonBuilderValue {
    fn from(v: bool) -> (r: Self)
        ensures
            r@ == boolean_value(v),
    {
        proof {
            reveal_strlit("true");
            reveal_strlit("false");
        }
        let r = JsonBuilderValue::new(
            JsonType::Boolean,
            String::from_str(
                if v {
                    "true"
                } else {
                    "false"
                },
            ),
        );
        assert(r@.value =~= boolean_text(v));
        r
    }
}

impl FromSpecImpl<bool> for JsonBuilderValue {
    open spec fn obeys_from_spec() -> bool {
        false
    }

    open spec fn from_spec(v: bool) -> Self {
        arbitrary()
    }
}

impl From<&str> for JsonBuilderValue {
    fn from(v: &str) -> (r: Self)
        ensures
            r@ == string_value(v@),
    {
        JsonBuilderValue::new(JsonType::String, String::from_str(v))
    }
}

impl FromSpecImpl<&str> for JsonBuilderValue {
    open spec fn obeys_from_spec() -> bool {
        false
    }

    open spec fn from_spec(v: &str) -> Self {
        arbitrary()
    }
}

impl From<String> for JsonBuilderValue {
    fn from(v: String) -> (r: Self)
        ensures
            r@ == string_value(v@),
    {
        JsonBuilderValue::new(JsonType::String, v)
    }
}

impl FromSpecImpl<String> for JsonBuilderValue {
    open spec fn obeys_from_spec() -> bool {
        false
    }

    open spec fn from_spec(v: String) -> Self {
        arbitrary()
    }
}

impl From<JsonBuilderObject> for JsonBuilderValue {
    fn from(v: JsonBuilderObject) -> (r: Self)
        ensures
            r@ == object_value(v@),
    {
        JsonBuilderValue::new(JsonType::Object, v.render())
    }
}

impl FromSpecImpl<JsonBuilderObject> for JsonBuilderValue {
    open spec fn obeys_from_spec() -> bool {
        false
    }

    open spec fn from_spec(v: JsonBuilderObject) -> Self {
        arbitrary()
    }
}

impl From<JsonBuilderArray> for JsonBuilderValue {
    fn from(v: JsonBuilderArray) -> (r: Self)
        ensures
            r@ == array_value(v@),
    {
        JsonBuilderValue::new(JsonType::Array, v.render())
    }
}

impl FromSpecImpl<JsonBuilderArray> for JsonBuilderValue {
    open spec fn obeys_from_spec() -> bool {
        false
    }

    open spec fn from_spec(v: JsonBuilderArray) -> Self {
        arbitrary()
    }
}

/// A homogeneous sequence becomes an array: each item is converted, in
/// order, and the array is rendered.
impl<T: Into<JsonBuilderValue>> From<Vec<T>> for JsonBuilderValue {
    fn from(v: Vec<T>) -> (r: Self)
        ensures
            exists|vals: Seq<JsonBuilderValue>|
                {
                    &&& vals.len() == v.len()
                    &&& forall|i: int|
                        0 <= i < v.len() ==> call_ensures(
                            <T as Into<JsonBuilderValue>>::into,
                            (v[i],),
                            #[trigger] vals[i],
                        )
                    &&& r@ == array_value(values_view(vals))
                },
    {
        let mut array = JsonBuilderArray::new();
        let ghost mut vals: Seq<JsonBuilderValue> = Seq::empty();
        for e in it: v
            invariant
                it.seq() == v@,
                vals.len() == it.index(),
                forall|i: int|
                    0 <= i < it.index() ==> call_ensures(
                        <T as Into<JsonBuilderValue>>::into,
                        (v[i],),
                        #[trigger] vals[i],
                    ),
                array@ == values_view(vals),
        {
            let value: JsonBuilderValue = e.into();
            proof {
                vals = vals.push(value);
            }
            array.push(value);
            assert(array@ =~= values_view(vals));
        }
        JsonBuilderValue::new(JsonType::Array, array.render())
    }
}

impl<T: Into<JsonBuilderValue>> FromSpecImpl<Vec<T>> for JsonBuilderValue {
    open spec fn obeys_from_spec() -> bool {
        false
    }

    open spec fn from_spec(v: Vec<T>) -> Self {
        arbitrary()
    }
}

impl From<u8> for JsonBuilderValue {
    fn from(v: u8) -> (r: Self)
        ensures
            r@ == number_value(v as int),
    {
        JsonBuilderValue::new(JsonType::Number, render_unsigned(v as u128))
    }
}

impl FromSpecImpl<u8> for JsonBuilderValue {
    open spec fn obeys_from_spec() -> bool {
        false
    }

    open spec fn from_spec(v: u8) -> Self {
        arbitrary()
    }
}

impl From<u16> for JsonBuilderValue {
    fn from(v: u16) -> (r: Self)
        ensures
            r@ == number_value(v as int),
    {
        JsonBuilderValue::new(JsonType::Number, render_unsigned(v as u128))
    }
}

impl FromSpecImpl<u16> for JsonBuilderValue {
    open spec fn obeys_from_spec() -> bool {
        false
    }

    open spec fn from_spec(v: u16) -> Self {
        arbitrary()
    }
}

impl From<u32> for JsonBuilderValue {
    fn from(v: u32) -> (r: Self)
        ensures
            r@ == number_value(v as int),
    {
        JsonBuilderValue::new(JsonType::Number, render_unsigned(v as u128))
    }
}

impl FromSpecImpl<u32> for JsonBuilderValue {
    open spec fn obeys_from_spec() -> bool {
        false
    }

    open spec fn from_spec(v: u32) -> Self {
        arbitrary()
    }
}

impl From<u64> for JsonBuilderValue {
    fn from(v: u64) -> (r: Self)
        ensures
            r@ == number_value(v as int),
    {
        JsonBuilderValue::new(JsonType::Number, render_unsigned(v as u128))
    }
}

impl FromSpecImpl<u64> for JsonBuilderValue {
    open spec fn obeys_from_spec() -> bool {
        false
    }

    open spec fn from_spec(v: u64) -> Self {
        arbitrary()
    }
}

impl From<u128> for JsonBuilderValue {
    fn from(v: u128) -> (r: Self)
        ensures
            r@ == number_value(v as int),
    {
        JsonBuilderValue::new(JsonType::Number, render_unsigned(v))
    }
}

impl FromSpecImpl<u128> for JsonBuilderValue {
    open spec fn obeys_from_spec() -> bool {
        false
    }

    open spec fn from_spec(v: u128) -> Self {
        arbitrary()
    }
}

impl From<i8> for JsonBuilderValue {
    fn from(v: i8) -> (r: Self)
        ensures
            r@ == number_value(v as int),
    {
        JsonBuilderValue::new(JsonType::Number, render_signed(v as i128))
    }
}

impl FromSpecImpl<i8> for JsonBuilderValue {
    open spec fn obeys_from_spec() -> bool {
        false
    }

    open spec fn from_spec(v: i8) -> Self {
        arbitrary()
    }
}

impl From<i16> for JsonBuilderValue {
    fn from(v: i16) -> (r: Self)
        ensures
            r@ == number_value(v as int),
    {
        JsonBuilderValue::new(JsonType::Number, render_signed(v as i128))
    }
}

impl FromSpecImpl<i16> for JsonBuilderValue {
    open spec fn obeys_from_spec() -> bool {
        false
    }

    open spec fn from_spec(v: i16) -> Self {
        arbitrary()
    }
}

impl From<i32> for JsonBuilderValue {
    fn from(v: i32) -> (r: Self)
        ensures
            r@ == number_value(v as int),
    {
        JsonBuilderValue::new(JsonType::Number, render_signed(v as i128))
    }
}

impl FromSpecImpl<i32> for JsonBuilderValue {
    open spec fn obeys_from_spec() -> bool {
        false
    }

    open spec fn from_spec(v: i32) -> Self {
        arbitrary()
    }
}

impl From<i64> for JsonBuilderValue {
    fn from(v: i64) -> (r: Self)
        ensures
            r@ == number_value(v as int),
    {
        JsonBuilderValue::new(JsonType::Number, render_signed(v as i128))
    }
}

impl FromSpecImpl<i64> for JsonBuilderValue {
    open spec fn obeys_from_spec() -> bool {
        false
    }

    open spec fn from_spec(v: i64) -> Self {
        arbitrary()
    }
}

impl From<i128> for JsonBuilderValue {
    fn from(v: i128) -> (r: Self)
        ensures
            r@ == number_value(v as int),
    {
        JsonBuilderValue::new(JsonType::Number, render_signed(v))
    }
}

impl FromSpecImpl<i128> for JsonBuilderValue {
    open spec fn obeys_from_spec() -> bool {
        false
    }

    open spec fn from_spec(v: i128) -> Self {
        arbitrary()
    }
}

} // verus!

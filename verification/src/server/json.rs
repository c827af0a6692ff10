use vstd::prelude::*;
use vstd::std_specs::convert::FromSpecImpl;
use vstd::string::StringExecFns;
use crate::builder::types::JsonType;
use crate::builder::value::quoted;
use crate::entries::{distinct_keys, first_at, has_key, key_index, lemma_put_distinct, lemma_without, put, without};
use crate::number::{int_decimal, render_signed, render_unsigned};

verus! {

/// The start of building a response body.
pub struct Json {}

/// A value as it stands in a body: its kind and its finished text, a
/// string with its quotes.
#[derive(Debug)]
pub struct JsonValue {
    dt: JsonType,
    value: String,
}

pub struct JsonValueView {
    pub dt: JsonType,
    pub value: Seq<char>,
}

impl View for JsonValue {
    type V = JsonValueView;

    closed spec fn view(&self) -> JsonValueView {
        JsonValueView { dt: self.dt, value: self.value@ }
    }
}

impl JsonValue {
    /// The value as it is shown in a log line.
    pub fn display(&self) -> (s: String)
        ensures
            s@ == "JsonValue { dt: "@ + crate::builder::types::kind_name(self@.dt) + ", value: "@
                + self@.value + " }"@,
    {
        let mut s = String::from_str("JsonValue { dt: ");
        s.append(self.dt.name());
        s.append(", value: ");
        s.append(self.value.as_str());
        s.append(" }");
        s
    }
}

/// The explicit null marker.
pub struct JsonNull {}

impl JsonNull {
    pub fn new() -> Self {
        Self {  }
    }
}

/// The text of a finished body.
pub struct JsonContainer {
    result: String,
}

impl View for JsonContainer {
    type V = Seq<char>;

    closed spec fn view(&self) -> Seq<char> {
        self.result@
    }
}

impl JsonContainer {
    pub fn result(self) -> (s: String)
        ensures
            s@ == self@,
    {
        self.result
    }
}

pub type Field = (Seq<char>, Seq<char>);

/// A field of an object: `"k":v`, where `v` is finished text.
pub open spec fn field_text(f: Field) -> Seq<char> {
    quoted(f.0) + seq![':'] + f.1
}

/// The fields of an object, separated by commas.
pub open spec fn fields_text(fs: Seq<Field>) -> Seq<char>
    decreases fs.len(),
{
    if fs.len() == 0 {
        Seq::empty()
    } else if fs.len() == 1 {
        field_text(fs[0])
    } else {
        fields_text(fs.drop_last()) + seq![','] + field_text(fs.last())
    }
}

/// The text of an object: `{"k":v,...}`.
pub open spec fn object_body(fs: Seq<Field>) -> Seq<char> {
    seq!['{'] + fields_text(fs) + seq!['}']
}

/// The objects of an array, separated by commas.
pub open spec fn objects_text(os: Seq<Seq<Field>>) -> Seq<char>
    decreases os.len(),
{
    if os.len() == 0 {
        Seq::empty()
    } else if os.len() == 1 {
        object_body(os[0])
    } else {
        objects_text(os.drop_last()) + seq![','] + object_body(os.last())
    }
}

/// The text of an array of objects: `[{...},...]`.
pub open spec fn array_body(os: Seq<Seq<Field>>) -> Seq<char> {
    seq!['['] + objects_text(os) + seq![']']
}

/// An object of a body: fields with distinct keys, in the order in which
/// their keys were first inserted, each with its finished text.
pub struct JsonObject {
    object: Vec<(String, String)>,
}

pub open spec fn fields_view(fs: Seq<(String, String)>) -> Seq<Field> {
    fs.map_values(|f: (String, String)| (f.0@, f.1@))
}

impl View for JsonObject {
    type V = Seq<Field>;

    closed spec fn view(&self) -> Seq<Field> {
        fields_view(self.object@)
    }
}

impl JsonObject {
    /// No key occurs twice.
    pub closed spec fn wf(&self) -> bool {
        distinct_keys(self@)
    }

    pub fn new() -> (o: Self)
        ensures
            o@ == Seq::<Field>::empty(),
            o.wf(),
    {
        let o = Self { object: Vec::new() };
        assert(o@ =~= Seq::<Field>::empty());
        o
    }

    fn position(&self, k: &String) -> (r: Option<usize>)
        ensures
            match r {
                Some(i) => has_key(self@, k@) && i == key_index(self@, k@) && i < self@.len(),
                None => !has_key(self@, k@),
            },
    {
        let mut i: usize = 0;
        while i < self.object.len()
            invariant
                i <= self.object.len(),
                forall|j: int| 0 <= j < i ==> (#[trigger] self@[j]).0 != k@,
            decreases self.object.len() - i,
        {
            if self.object[i].0 == *k {
                assert(self@[i as int].0 == k@);
                assert(first_at(self@, k@, i as int));
                proof {
                    crate::entries::lemma_key_index(self@, k@, i as int);
                }
                return Some(i);
            }
            i += 1;
        }
        None
    }

    /// Puts the text of what `v` converts to under `k`. A value that was
    /// there is replaced.
    pub fn insert<V: Into<JsonValue>>(&mut self, k: &str, v: V) -> (r: &mut Self)
        ensures
            exists|value: JsonValue|
                call_ensures(<V as Into<JsonValue>>::into, (v,), value) && r@ == put(
                    old(self)@,
                    k@,
                    value@.value,
                ),
            old(self).wf() ==> r.wf(),
            *final(self) == *final(r),
    {
        let value: JsonValue = v.into();
        let key = String::from_str(k);
        proof {
            if self.wf() {
                lemma_put_distinct(self@, k@, value@.value);
            }
        }
        match self.position(&key) {
            Some(i) => {
                self.object.set(i, (key, value.value));
                assert(self@ =~= put(old(self)@, k@, value@.value));
            },
            None => {
                self.object.push((key, value.value));
                assert(self@ =~= put(old(self)@, k@, value@.value));
            },
        }
        self
    }

    /// Deletes the field under `k`, if there is one.
    pub fn remove(&mut self, k: &str) -> (r: &mut Self)
        ensures
            r@ == without(old(self)@, k@),
            old(self).wf() ==> r.wf(),
            *final(self) == *final(r),
    {
        let key = String::from_str(k);
        proof {
            if self.wf() {
                lemma_without(self@, k@);
            }
        }
        match self.position(&key) {
            Some(i) => {
                let _ = self.object.remove(i);
                assert(self@ =~= without(old(self)@, k@));
            },
            None => {},
        }
        self
    }

    /// The text of the object, its fields in their order.
    pub fn render(&self) -> (s: String)
        ensures
            s@ == object_body(self@),
    {
        let mut s = String::new();
        s.push('{');
        let mut i: usize = 0;
        while i < self.object.len()
            invariant
                i <= self.object.len(),
                s@ == seq!['{'] + fields_text(self@.take(i as int)),
            decreases self.object.len() - i,
        {
            if i > 0 {
                s.push(',');
            }
            s.push('"');
            s.append(self.object[i].0.as_str());
            s.push('"');
            s.push(':');
            s.append(self.object[i].1.as_str());
            proof {
                let next = self@.take(i + 1);
                assert(next.drop_last() =~= self@.take(i as int));
                assert(next.last() == (self.object@[i as int].0@, self.object@[i as int].1@));
                assert(s@ =~= seq!['{'] + fields_text(next));
            }
            i += 1;
        }
        assert(self@.take(self.object.len() as int) =~= self@);
        s.push('}');
        s
    }
}

/// An array of a body: objects in the order in which they were appended.
pub struct JsonArray {
    array: Vec<JsonObject>,
}

pub open spec fn objects_view(os: Seq<JsonObject>) -> Seq<Seq<Field>> {
    os.map_values(|o: JsonObject| o@)
}

impl View for JsonArray {
    type V = Seq<Seq<Field>>;

    closed spec fn view(&self) -> Seq<Seq<Field>> {
        objects_view(self.array@)
    }
}

impl JsonArray {
    pub fn new() -> (a: Self)
        ensures
            a@ == Seq::<Seq<Field>>::empty(),
    {
        let a = Self { array: Vec::new() };
        assert(a@ =~= Seq::<Seq<Field>>::empty());
        a
    }

    pub fn append(&mut self, o: JsonObject) -> (r: &mut Self)
        ensures
            r@ == old(self)@.push(o@),
            *final(self) == *final(r),
    {
        self.array.push(o);
        assert(self@ =~= old(self)@.push(o@));
        self
    }

    /// Deletes the object at `index`; an index past the end deletes
    /// nothing.
    pub fn remove(&mut self, index: usize) -> (r: &mut Self)
        ensures
            r@ == (if index < old(self)@.len() {
                old(self)@.remove(index as int)
            } else {
                old(self)@
            }),
            *final(self) == *final(r),
    {
        if index < self.array.len() {
            let _ = self.array.remove(index);
            assert(self@ =~= old(self)@.remove(index as int));
        }
        self
    }

    /// The text of the array.
    pub fn render(&self) -> (s: String)
        ensures
            s@ == array_body(self@),
    {
        let mut s = String::new();
        s.push('[');
        let mut i: usize = 0;
        while i < self.array.len()
            invariant
                i <= self.array.len(),
                s@ == seq!['['] + objects_text(self@.take(i as int)),
            decreases self.array.len() - i,
        {
            if i > 0 {
                s.push(',');
            }
            let text = self.array[i].render();
            s.append(text.as_str());
            proof {
                let next = self@.take(i + 1);
                assert(next.drop_last() =~= self@.take(i as int));
                assert(next.last() == self.array@[i as int]@);
                assert(s@ =~= seq!['['] + objects_text(next));
            }
            i += 1;
        }
        assert(self@.take(self.array.len() as int) =~= self@);
        s.push(']');
        s
    }
}

/// Where building a body starts and ends.
pub trait JsonBuilder {
    fn object() -> (o: JsonObject)
        ensures
            o@ == Seq::<Field>::empty(),
            o.wf(),
    ;

    fn array() -> (a: JsonArray)
        ensures
            a@ == Seq::<Seq<Field>>::empty(),
    ;

    /// The text of a body: what it converts to.
    fn build<C: Into<JsonContainer>>(json_container: C) -> (s: String)
        ensures
            exists|c: JsonContainer|
                call_ensures(<C as Into<JsonContainer>>::into, (json_container,), c) && s@ == c@,
    ;
}

impl JsonBuilder for Json {
    fn object() -> (o: JsonObject) {
        JsonObject::new()
    }

    fn array() -> (a: JsonArray) {
        JsonArray::new()
    }

    fn build<C: Into<JsonContainer>>(json_container: C) -> (s: String) {
        let c: JsonContainer = json_container.into();
        let ghost made = c;
        let s = c.result;
        assert(call_ensures(<C as Into<JsonContainer>>::into, (json_container,), made) && s@
            == made@);
        s
    }
}

impl From<JsonObject> for JsonContainer {
    fn from(v: JsonObject) -> (r: Self)
        ensures
            r@ == object_body(v@),
    {
        JsonContainer { result: v.render() }
    }
}

impl FromSpecImpl<JsonObject> for JsonContainer {
    open spec fn obeys_from_spec() -> bool {
        false
    }

    open spec fn from_spec(v: JsonObject) -> Self {
        arbitrary()
    }
}

impl From<JsonArray> for JsonContainer {
    fn from(v: JsonArray) -> (r: Self)
        ensures
            r@ == array_body(v@),
    {
        JsonContainer { result: v.render() }
    }
}

impl FromSpecImpl<JsonArray> for JsonContainer {
    open spec fn obeys_from_spec() -> bool {
        false
    }

    open spec fn from_spec(v: JsonArray) -> Self {
        arbitrary()
    }
}

/// What converting gives: a value of kind `dt` with text `value`.
pub open spec fn made(dt: JsonType, value: Seq<char>) -> JsonValueView {
    JsonValueView { dt, value }
}

impl From<JsonArray> for JsonValue {
    fn from(v: JsonArray) -> (r: Self)
        ensures
            r@ == made(JsonType::Array, array_body(v@)),
    {
        JsonValue { dt: JsonType::Array, value: v.render() }
    }
}

impl FromSpecImpl<JsonArray> for JsonValue {
    open spec fn obeys_from_spec() -> bool {
        false
    }

    open spec fn from_spec(v: JsonArray) -> Self {
        arbitrary()
    }
}

impl From<JsonObject> for JsonValue {
    fn from(v: JsonObject) -> (r: Self)
        ensures
            r@ == made(JsonType::Object, object_body(v@)),
    {
        JsonValue { dt: JsonType::Object, value: v.render() }
    }
}

impl FromSpecImpl<JsonObject> for JsonValue {
    open spec fn obeys_from_spec() -> bool {
        false
    }

    open spec fn from_spec(v: JsonObject) -> Self {
        arbitrary()
    }
}

impl From<JsonNull> for JsonValue {
    fn from(v: JsonNull) -> (r: Self)
        ensures
            r@ == made(JsonType::Null, "null"@),
    {
        JsonValue { dt: JsonType::Null, value: String::from_str("null") }
    }
}

impl FromSpecImpl<JsonNull> for JsonValue {
    open spec fn obeys_from_spec() -> bool {
        false
    }

    open spec fn from_spec(v: JsonNull) -> Self {
        arbitrary()
    }
}

impl From<bool> for JsonValue {
    fn from(v: bool) -> (r: Self)
        ensures
            r@ == made(
                JsonType::Boolean,
                if v {
                    "true"@
                } else {
                    "false"@
                },
            ),
    {
        JsonValue {
            dt: JsonType::Boolean,
            value: String::from_str(
                if v {
                    "true"
                } else {
                    "false"
                },
            ),
        }
    }
}

impl FromSpecImpl<bool> for JsonValue {
    open spec fn obeys_from_spec() -> bool {
        false
    }

    open spec fn from_spec(v: bool) -> Self {
        arbitrary()
    }
}

fn quote(v: &str) -> (s: String)
    ensures
        s@ == quoted(v@),
{
    let mut s = String::new();
    s.push('"');
    s.append(v);
    s.push('"');
    assert(s@ =~= quoted(v@));
    s
}

impl From<&str> for JsonValue {
    fn from(v: &str) -> (r: Self)
        ensures
            r@ == made(JsonType::String, quoted(v@)),
    {
        JsonValue { dt: JsonType::String, value: quote(v) }
    }
}

impl FromSpecImpl<&str> for JsonValue {
    open spec fn obeys_from_spec() -> bool {
        false
    }

    open spec fn from_spec(v: &str) -> Self {
        arbitrary()
    }
}

impl From<String> for JsonValue {
    fn from(v: String) -> (r: Self)
        ensures
            r@ == made(JsonType::String, quoted(v@)),
    {
        JsonValue { dt: JsonType::String, value: quote(v.as_str()) }
    }
}

impl FromSpecImpl<String> for JsonValue {
    open spec fn obeys_from_spec() -> bool {
        false
    }

    open spec fn from_spec(v: String) -> Self {
        arbitrary()
    }
}

impl From<u8> for JsonValue {
    fn from(v: u8) -> (r: Self)
        ensures
            r@ == made(JsonType::Number, int_decimal(v as int)),
    {
        JsonValue { dt: JsonType::Number, value: render_unsigned(v as u128) }
    }
}

impl FromSpecImpl<u8> for JsonValue {
    open spec fn obeys_from_spec() -> bool {
        false
    }

    open spec fn from_spec(v: u8) -> Self {
        arbitrary()
    }
}

impl From<u16> for JsonValue {
    fn from(v: u16) -> (r: Self)
        ensures
            r@ == made(JsonType::Number, int_decimal(v as int)),
    {
        JsonValue { dt: JsonType::Number, value: render_unsigned(v as u128) }
    }
}

impl FromSpecImpl<u16> for JsonValue {
    open spec fn obeys_from_spec() -> bool {
        false
    }

    open spec fn from_spec(v: u16) -> Self {
        arbitrary()
    }
}

impl From<u32> for JsonValue {
    fn from(v: u32) -> (r: Self)
        ensures
            r@ == made(JsonType::Number, int_decimal(v as int)),
    {
        JsonValue { dt: JsonType::Number, value: render_unsigned(v as u128) }
    }
}

impl FromSpecImpl<u32> for JsonValue {
    open spec fn obeys_from_spec() -> bool {
        false
    }

    open spec fn from_spec(v: u32) -> Self {
        arbitrary()
    }
}

impl From<u64> for JsonValue {
    fn from(v: u64) -> (r: Self)
        ensures
            r@ == made(JsonType::Number, int_decimal(v as int)),
    {
        JsonValue { dt: JsonType::Number, value: render_unsigned(v as u128) }
    }
}

impl FromSpecImpl<u64> for JsonValue {
    open spec fn obeys_from_spec() -> bool {
        false
    }

    open spec fn from_spec(v: u64) -> Self {
        arbitrary()
    }
}

impl From<u128> for JsonValue {
    fn from(v: u128) -> (r: Self)
        ensures
            r@ == made(JsonType::Number, int_decimal(v as int)),
    {
        JsonValue { dt: JsonType::Number, value: render_unsigned(v) }
    }
}

impl FromSpecImpl<u128> for JsonValue {
    open spec fn obeys_from_spec() -> bool {
        false
    }

    open spec fn from_spec(v: u128) -> Self {
        arbitrary()
    }
}

impl From<i8> for JsonValue {
    fn from(v: i8) -> (r: Self)
        ensures
            r@ == made(JsonType::Number, int_decimal(v as int)),
    {
        JsonValue { dt: JsonType::Number, value: render_signed(v as i128) }
    }
}

impl FromSpecImpl<i8> for JsonValue {
    open spec fn obeys_from_spec() -> bool {
        false
    }

    open spec fn from_spec(v: i8) -> Self {
        arbitrary()
    }
}

impl From<i16> for JsonValue {
    fn from(v: i16) -> (r: Self)
        ensures
            r@ == made(JsonType::Number, int_decimal(v as int)),
    {
        JsonValue { dt: JsonType::Number, value: render_signed(v as i128) }
    }
}

impl FromSpecImpl<i16> for JsonValue {
    open spec fn obeys_from_spec() -> bool {
        false
    }

    open spec fn from_spec(v: i16) -> Self {
        arbitrary()
    }
}

impl From<i32> for JsonValue {
    fn from(v: i32) -> (r: Self)
        ensures
            r@ == made(JsonType::Number, int_decimal(v as int)),
    {
        JsonValue { dt: JsonType::Number, value: render_signed(v as i128) }
    }
}

impl FromSpecImpl<i32> for JsonValue {
    open spec fn obeys_from_spec() -> bool {
        false
    }

    open spec fn from_spec(v: i32) -> Self {
        arbitrary()
    }
}

impl From<i64> for JsonValue {
    fn from(v: i64) -> (r: Self)
        ensures
            r@ == made(JsonType::Number, int_decimal(v as int)),
    {
        JsonValue { dt: JsonType::Number, value: render_signed(v as i128) }
    }
}

impl FromSpecImpl<i64> for JsonValue {
    open spec fn obeys_from_spec() -> bool {
        false
    }

    open spec fn from_spec(v: i64) -> Self {
        arbitrary()
    }
}

impl From<i128> for JsonValue {
    fn from(v: i128) -> (r: Self)
        ensures
            r@ == made(JsonType::Number, int_decimal(v as int)),
    {
        JsonValue { dt: JsonType::Number, value: render_signed(v) }
    }
}

impl FromSpecImpl<i128> for JsonValue {
    open spec fn obeys_from_spec() -> bool {
        false
    }

    open spec fn from_spec(v: i128) -> Self {
        arbitrary()
    }
}

} // verus!

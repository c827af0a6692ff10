use vstd::prelude::*;
use vstd::string::StringExecFns;
use crate::entries::{distinct_keys, first_at, has_key, key_index, lookup, put};
use crate::error::{JsonError, TypeFault};
use crate::number::{Number, NumberView, number_int};

verus! {

/// A value of the typed tree.
pub enum JsonView {
    Object(Seq<(Seq<char>, JsonView)>),
    Array(Seq<JsonView>),
    Null,
    Text(Seq<char>),
    Boolean(bool),
    Numeric(NumberView),
}

#[derive(Debug)]
pub struct JsonTypeNull {}

#[derive(Debug)]
pub struct JsonTypeString {
    pub value: String,
}

#[derive(Debug)]
pub struct JsonTypeBoolean {
    pub value: bool,
}

#[derive(Debug)]
pub struct JsonTypeNumeric {
    pub value: Number,
}

/// An array: values in their order.
#[derive(Debug)]
pub struct JsonTypeArray {
    pub array: Vec<JsonTypeValue>,
}

/// An object: entries in the order in which their keys first came.
#[derive(Debug)]
pub struct JsonTypeObject {
    object: Vec<(String, JsonTypeValue)>,
}

/// Any value of the typed tree, by its kind.
#[derive(Debug)]
pub enum JsonTypeValue {
    Object(JsonTypeObject),
    Array(JsonTypeArray),
    Null(JsonTypeNull),
    Text(JsonTypeString),
    Boolean(JsonTypeBoolean),
    Numeric(JsonTypeNumeric),
}

pub open spec fn typed_values_view(vs: Seq<JsonTypeValue>) -> Seq<JsonView>
    decreases vs,
{
    if vs.len() == 0 {
        Seq::empty()
    } else {
        typed_values_view(vs.drop_last()).push(vs.last().view())
    }
}

pub open spec fn typed_entries_view(es: Seq<(String, JsonTypeValue)>) -> Seq<(Seq<char>, JsonView)>
    decreases es,
{
    if es.len() == 0 {
        Seq::empty()
    } else {
        typed_entries_view(es.drop_last()).push((es.last().0@, es.last().1.view()))
    }
}

impl JsonTypeValue {
    pub open spec fn view(&self) -> JsonView
        decreases self,
    {
        match self {
            JsonTypeValue::Object(o) => JsonView::Object(o.view()),
            JsonTypeValue::Array(a) => JsonView::Array(a.view()),
            JsonTypeValue::Null(_) => JsonView::Null,
            JsonTypeValue::Text(s) => JsonView::Text(s.value@),
            JsonTypeValue::Boolean(b) => JsonView::Boolean(b.value),
            JsonTypeValue::Numeric(n) => JsonView::Numeric(n.value@),
        }
    }
}

impl JsonTypeArray {
    pub open spec fn view(&self) -> Seq<JsonView>
        decreases self,
    {
        typed_values_view(self.array@)
    }
}

impl JsonTypeObject {
    pub closed spec fn view(&self) -> Seq<(Seq<char>, JsonView)>
        decreases self,
    {
        typed_entries_view(self.object@)
    }
}

pub proof fn lemma_typed_values_view(vs: Seq<JsonTypeValue>)
    ensures
        typed_values_view(vs).len() == vs.len(),
        forall|i: int| 0 <= i < vs.len() ==> (#[trigger] typed_values_view(vs)[i]) == vs[i].view(),
    decreases vs.len(),
{
    if vs.len() > 0 {
        lemma_typed_values_view(vs.drop_last());
    }
}

pub proof fn lemma_typed_entries_view(es: Seq<(String, JsonTypeValue)>)
    ensures
        typed_entries_view(es).len() == es.len(),
        forall|i: int|
            0 <= i < es.len() ==> (#[trigger] typed_entries_view(es)[i]) == (
                es[i].0@,
                es[i].1.view(),
            ),
    decreases es.len(),
{
    if es.len() > 0 {
        lemma_typed_entries_view(es.drop_last());
    }
}

/// What can be put into the typed tree.
pub trait JsonType: Sized {
    /// The value that this is.
    spec fn json(&self) -> JsonView;

    /// This as a value of any kind.
    fn into_value(self) -> (v: JsonTypeValue)
        ensures
            v.view() == self.json(),
    ;
}

impl JsonType for JsonTypeValue {
    open spec fn json(&self) -> JsonView {
        self.view()
    }

    fn into_value(self) -> (v: JsonTypeValue) {
        self
    }
}

impl JsonType for JsonTypeObject {
    open spec fn json(&self) -> JsonView {
        JsonView::Object(self.view())
    }

    fn into_value(self) -> (v: JsonTypeValue) {
        JsonTypeValue::Object(self)
    }
}

impl JsonType for JsonTypeArray {
    open spec fn json(&self) -> JsonView {
        JsonView::Array(self.view())
    }

    fn into_value(self) -> (v: JsonTypeValue) {
        JsonTypeValue::Array(self)
    }
}

impl JsonType for JsonTypeNull {
    open spec fn json(&self) -> JsonView {
        JsonView::Null
    }

    fn into_value(self) -> (v: JsonTypeValue) {
        JsonTypeValue::Null(self)
    }
}

impl JsonType for JsonTypeString {
    open spec fn json(&self) -> JsonView {
        JsonView::Text(self.value@)
    }

    fn into_value(self) -> (v: JsonTypeValue) {
        JsonTypeValue::Text(self)
    }
}

impl JsonType for JsonTypeBoolean {
    open spec fn json(&self) -> JsonView {
        JsonView::Boolean(self.value)
    }

    fn into_value(self) -> (v: JsonTypeValue) {
        JsonTypeValue::Boolean(self)
    }
}

impl JsonType for JsonTypeNumeric {
    open spec fn json(&self) -> JsonView {
        JsonView::Numeric(self.value@)
    }

    fn into_value(self) -> (v: JsonTypeValue) {
        JsonTypeValue::Numeric(self)
    }
}

impl JsonTypeObject {
    /// No key occurs twice. Every object made by `new` and changed by `add`
    /// is so.
    pub closed spec fn wf(&self) -> bool {
        distinct_keys(self.view())
    }

    pub fn new() -> (o: Self)
        ensures
            o.view() == Seq::<(Seq<char>, JsonView)>::empty(),
            o.wf(),
    {
        Self { object: Vec::new() }
    }

    pub fn len(&self) -> (n: usize)
        ensures
            n == self.view().len(),
    {
        proof {
            lemma_typed_entries_view(self.object@);
        }
        self.object.len()
    }

    fn position(&self, k: &String) -> (r: Option<usize>)
        ensures
            self.view().len() == self.object.len(),
            match r {
                Some(i) => has_key(self.view(), k@) && i == key_index(self.view(), k@) && i
                    < self.object.len() && self.object@[i as int].1.view() == self.view()[i as int].1,
                None => !has_key(self.view(), k@),
            },
    {
        proof {
            lemma_typed_entries_view(self.object@);
        }
        let mut i: usize = 0;
        while i < self.object.len()
            invariant
                i <= self.object.len(),
                self.view().len() == self.object.len(),
                forall|j: int|
                    0 <= j < self.object.len() ==> (#[trigger] self.view()[j]) == (
                        self.object@[j].0@,
                        self.object@[j].1.view(),
                    ),
                forall|j: int| 0 <= j < i ==> (#[trigger] self.view()[j]).0 != k@,
            decreases self.object.len() - i,
        {
            if self.object[i].0 == *k {
                assert(self.view()[i as int].0 == k@);
                assert(first_at(self.view(), k@, i as int));
                proof {
                    crate::entries::lemma_key_index(self.view(), k@, i as int);
                }
                return Some(i);
            }
            i += 1;
        }
        None
    }

    /// Puts `value` under `key`. A value that was there is replaced.
    pub fn add<T: JsonType>(&mut self, key: &str, value: T)
        ensures
            final(self).view() == put(old(self).view(), key@, value.json()),
            old(self).wf() ==> final(self).wf(),
    {
        let k = String::from_str(key);
        let v = value.into_value();
        proof {
            lemma_typed_entries_view(self.object@);
            if self.wf() {
                crate::entries::lemma_put_distinct(self.view(), key@, value.json());
            }
        }
        match self.position(&k) {
            Some(i) => {
                self.object.set(i, (k, v));
                proof {
                    lemma_typed_entries_view(self.object@);
                }
                assert(self.view() =~= put(old(self).view(), key@, value.json()));
            },
            None => {
                self.object.push((k, v));
                proof {
                    lemma_typed_entries_view(self.object@);
                }
                assert(self.view() =~= put(old(self).view(), key@, value.json()));
            },
        }
    }

    /// The value under `key`.
    pub fn get(&self, key: &str) -> (r: Option<&JsonTypeValue>)
        ensures
            match r {
                Some(v) => lookup(self.view(), key@) == Some(v.view()),
                None => lookup(self.view(), key@) is None,
            },
    {
        let k = String::from_str(key);
        match self.position(&k) {
            Some(i) => Some(&self.object[i].1),
            None => None,
        }
    }

    /// The key of the entry at `index`, if there is one.
    pub fn key_at(&self, index: usize) -> (r: Option<&String>)
        ensures
            match r {
                Some(k) => index < self.view().len() && k@ == self.view()[index as int].0,
                None => index >= self.view().len(),
            },
    {
        proof {
            lemma_typed_entries_view(self.object@);
        }
        if index < self.object.len() {
            Some(&self.object[index].0)
        } else {
            None
        }
    }

    /// The value of the entry at `index`, if there is one.
    pub fn value_at(&self, index: usize) -> (r: Option<&JsonTypeValue>)
        ensures
            match r {
                Some(v) => index < self.view().len() && v.view() == self.view()[index as int].1,
                None => index >= self.view().len(),
            },
    {
        proof {
            lemma_typed_entries_view(self.object@);
        }
        if index < self.object.len() {
            Some(&self.object[index].1)
        } else {
            None
        }
    }
}

impl JsonTypeArray {
    pub fn new() -> (a: Self)
        ensures
            a.view() == Seq::<JsonView>::empty(),
    {
        Self { array: Vec::new() }
    }

    pub fn len(&self) -> (n: usize)
        ensures
            n == self.view().len(),
    {
        proof {
            lemma_typed_values_view(self.array@);
        }
        self.array.len()
    }

    /// Appends `value` at the end.
    pub fn add<T: JsonType>(&mut self, value: T)
        ensures
            final(self).view() == old(self).view().push(value.json()),
    {
        self.array.push(value.into_value());
        assert(self.array@.drop_last() == old(self).array@);
    }

    /// The value at `index`, if there is one.
    pub fn get(&self, index: usize) -> (r: Option<&JsonTypeValue>)
        ensures
            match r {
                Some(v) => index < self.view().len() && v.view() == self.view()[index as int],
                None => index >= self.view().len(),
            },
    {
        proof {
            lemma_typed_values_view(self.array@);
        }
        if index < self.array.len() {
            Some(&self.array[index])
        } else {
            None
        }
    }
}

impl JsonTypeNull {
    pub fn new() -> Self {
        Self {  }
    }
}

impl JsonTypeString {
    pub fn new(value: &str) -> (s: Self)
        ensures
            s.value@ == value@,
    {
        Self { value: String::from_str(value) }
    }
}

impl JsonTypeBoolean {
    pub fn new(value: bool) -> (b: Self)
        ensures
            b.value == value,
    {
        Self { value }
    }
}

impl JsonTypeNumeric {
    pub fn new(value: Number) -> (n: Self)
        ensures
            n.value == value,
    {
        Self { value }
    }
}

/// The boolean that a value is.
pub open spec fn as_boolean(v: JsonView) -> Result<bool, JsonError> {
    match v {
        JsonView::Boolean(b) => Ok(b),
        _ => Err(JsonError::TypeError(TypeFault::Mismatch)),
    }
}

/// The text that a string value holds.
pub open spec fn as_text(v: JsonView) -> Result<Seq<char>, JsonError> {
    match v {
        JsonView::Text(s) => Ok(s),
        _ => Err(JsonError::TypeError(TypeFault::Mismatch)),
    }
}

/// The integer that a number holds, where it lies from `min` to `max`.
pub open spec fn as_integer(v: JsonView, min: int, max: int) -> Result<int, JsonError> {
    match v {
        JsonView::Numeric(n) => match number_int(n) {
            Some(i) if min <= i <= max => Ok(i),
            _ => Err(JsonError::TypeError(TypeFault::NotOfWidth)),
        },
        _ => Err(JsonError::TypeError(TypeFault::Mismatch)),
    }
}

/// The literal text of a number in floating form.
pub open spec fn as_float_text(v: JsonView) -> Result<Seq<char>, JsonError> {
    match v {
        JsonView::Numeric(NumberView::F32(s)) => Ok(s),
        JsonView::Numeric(_) => Err(JsonError::TypeError(TypeFault::NotOfWidth)),
        _ => Err(JsonError::TypeError(TypeFault::Mismatch)),
    }
}

/// The optional form of an extraction: null is no value, anything else is
/// extracted as before.
pub open spec fn optional<T>(v: JsonView, r: Result<T, JsonError>) -> Result<Option<T>, JsonError> {
    if v is Null {
        Ok(None)
    } else {
        match r {
            Ok(x) => Ok(Some(x)),
            Err(e) => Err(e),
        }
    }
}

impl JsonTypeValue {
    pub fn is_null(&self) -> (b: bool)
        ensures
            b == (self.view() is Null),
    {
        match self {
            JsonTypeValue::Null(_) => true,
            _ => false,
        }
    }

    /// The boolean, if the value is one.
    pub fn to_bool(&self) -> (r: Result<bool, JsonError>)
        ensures
            r == as_boolean(self.view()),
    {
        match self {
            JsonTypeValue::Boolean(b) => Ok(b.value),
            _ => Err(JsonError::TypeError(TypeFault::Mismatch)),
        }
    }

    /// The boolean, or nothing for null.
    pub fn to_optional_bool(&self) -> (r: Result<Option<bool>, JsonError>)
        ensures
            r == optional(self.view(), as_boolean(self.view())),
    {
        match self {
            JsonTypeValue::Null(_) => Ok(None),
            JsonTypeValue::Boolean(b) => Ok(Some(b.value)),
            _ => Err(JsonError::TypeError(TypeFault::Mismatch)),
        }
    }

    /// The text, if the value is a string.
    pub fn to_text(&self) -> (r: Result<String, JsonError>)
        ensures
            match r {
                Ok(s) => as_text(self.view()) == Ok::<Seq<char>, JsonError>(s@),
                Err(e) => as_text(self.view()) == Err::<Seq<char>, JsonError>(e),
            },
    {
        match self {
            JsonTypeValue::Text(s) => Ok(s.value.clone()),
            _ => Err(JsonError::TypeError(TypeFault::Mismatch)),
        }
    }

    /// The text, or nothing for null.
    pub fn to_optional_text(&self) -> (r: Result<Option<String>, JsonError>)
        ensures
            match r {
                Ok(Some(s)) => optional(self.view(), as_text(self.view())) == Ok::<
                    Option<Seq<char>>,
                    JsonError,
                >(Some(s@)),
                Ok(None) => self.view() is Null,
                Err(e) => optional(self.view(), as_text(self.view())) == Err::<
                    Option<Seq<char>>,
                    JsonError,
                >(e),
            },
    {
        match self {
            JsonTypeValue::Null(_) => Ok(None),
            JsonTypeValue::Text(s) => Ok(Some(s.value.clone())),
            _ => Err(JsonError::TypeError(TypeFault::Mismatch)),
        }
    }

    /// The number as an unsigned machine integer.
    pub fn to_usize(&self) -> (r: Result<usize, JsonError>)
        ensures
            match r {
                Ok(n) => as_integer(self.view(), 0, usize::MAX as int) == Ok::<int, JsonError>(
                    n as int,
                ),
                Err(e) => as_integer(self.view(), 0, usize::MAX as int) == Err::<int, JsonError>(e),
            },
    {
        match self {
            JsonTypeValue::Numeric(n) => match n.value.as_unsigned() {
                Some(v) => if v <= usize::MAX as u128 {
                    Ok(v as usize)
                } else {
                    Err(JsonError::TypeError(TypeFault::NotOfWidth))
                },
                None => Err(JsonError::TypeError(TypeFault::NotOfWidth)),
            },
            _ => Err(JsonError::TypeError(TypeFault::Mismatch)),
        }
    }

    /// The number as a signed machine integer.
    pub fn to_isize(&self) -> (r: Result<isize, JsonError>)
        ensures
            match r {
                Ok(n) => as_integer(self.view(), isize::MIN as int, isize::MAX as int) == Ok::<
                    int,
                    JsonError,
                >(n as int),
                Err(e) => as_integer(self.view(), isize::MIN as int, isize::MAX as int) == Err::<
                    int,
                    JsonError,
                >(e),
            },
    {
        match self {
            JsonTypeValue::Numeric(n) => match n.value.as_signed() {
                Some(v) => if isize::MIN as i128 <= v && v <= isize::MAX as i128 {
                    Ok(v as isize)
                } else {
                    Err(JsonError::TypeError(TypeFault::NotOfWidth))
                },
                None => Err(JsonError::TypeError(TypeFault::NotOfWidth)),
            },
            _ => Err(JsonError::TypeError(TypeFault::Mismatch)),
        }
    }

    /// The number as an unsigned machine integer, or nothing for null.
    pub fn to_optional_usize(&self) -> (r: Result<Option<usize>, JsonError>)
        ensures
            match r {
                Ok(Some(n)) => as_integer(self.view(), 0, usize::MAX as int) == Ok::<int, JsonError>(
                    n as int,
                ),
                Ok(None) => self.view() is Null,
                Err(e) => !(self.view() is Null) && as_integer(self.view(), 0, usize::MAX as int)
                    == Err::<int, JsonError>(e),
            },
    {
        match self {
            JsonTypeValue::Null(_) => Ok(None),
            _ => match self.to_usize() {
                Ok(n) => Ok(Some(n)),
                Err(e) => Err(e),
            },
        }
    }

    /// The number as a signed machine integer, or nothing for null.
    pub fn to_optional_isize(&self) -> (r: Result<Option<isize>, JsonError>)
        ensures
            match r {
                Ok(Some(n)) => as_integer(self.view(), isize::MIN as int, isize::MAX as int) == Ok::<
                    int,
                    JsonError,
                >(n as int),
                Ok(None) => self.view() is Null,
                Err(e) => !(self.view() is Null) && as_integer(
                    self.view(),
                    isize::MIN as int,
                    isize::MAX as int,
                ) == Err::<int, JsonError>(e),
            },
    {
        match self {
            JsonTypeValue::Null(_) => Ok(None),
            _ => match self.to_isize() {
                Ok(n) => Ok(Some(n)),
                Err(e) => Err(e),
            },
        }
    }

    /// The literal text of a number that has a fraction or an exponent.
    pub fn to_float_text(&self) -> (r: Result<String, JsonError>)
        ensures
            match r {
                Ok(s) => as_float_text(self.view()) == Ok::<Seq<char>, JsonError>(s@),
                Err(e) => as_float_text(self.view()) == Err::<Seq<char>, JsonError>(e),
            },
    {
        match self {
            JsonTypeValue::Numeric(n) => match &n.value {
                Number::F32(s) => Ok(s.clone()),
                _ => Err(JsonError::TypeError(TypeFault::NotOfWidth)),
            },
            _ => Err(JsonError::TypeError(TypeFault::Mismatch)),
        }
    }

    /// The object, if the value is one.
    pub fn to_object(&self) -> (r: Result<&JsonTypeObject, JsonError>)
        ensures
            match r {
                Ok(o) => self.view() == JsonView::Object(o.view()),
                Err(e) => !(self.view() is Object) && e == JsonError::TypeError(TypeFault::Mismatch),
            },
    {
        match self {
            JsonTypeValue::Object(o) => Ok(o),
            _ => Err(JsonError::TypeError(TypeFault::Mismatch)),
        }
    }

    /// The array, if the value is one.
    pub fn to_array(&self) -> (r: Result<&JsonTypeArray, JsonError>)
        ensures
            match r {
                Ok(a) => self.view() == JsonView::Array(a.view()),
                Err(e) => !(self.view() is Array) && e == JsonError::TypeError(TypeFault::Mismatch),
            },
    {
        match self {
            JsonTypeValue::Array(a) => Ok(a),
            _ => Err(JsonError::TypeError(TypeFault::Mismatch)),
        }
    }
}


/// The kind of the document that a container stack holds.
#[derive(Debug, PartialEq, Eq, Clone, Copy, Structural)]
pub enum JsonContainerType {
    Object,
    Array,
    Neither,
}

/// The stack of containers that are open while a text is read, the
/// document first.
#[derive(Debug)]
pub struct JsonContainer {
    jct: JsonContainerType,
    jev: Vec<JsonTypeValue>,
}

impl JsonContainer {
    pub closed spec fn view(&self) -> Seq<JsonView> {
        typed_values_view(self.jev@)
    }

    pub closed spec fn kind(&self) -> JsonContainerType {
        self.jct
    }

    pub fn new() -> (c: Self)
        ensures
            c.view() == Seq::<JsonView>::empty(),
            c.kind() == JsonContainerType::Neither,
    {
        Self { jct: JsonContainerType::Neither, jev: Vec::new() }
    }

    pub fn update_jct(&mut self, jct: JsonContainerType)
        ensures
            final(self).kind() == jct,
            final(self).view() == old(self).view(),
    {
        self.jct = jct;
    }

    pub fn jct(&self) -> (k: JsonContainerType)
        ensures
            k == self.kind(),
    {
        self.jct
    }

    pub fn get_last(&self) -> (r: Option<&JsonTypeValue>)
        ensures
            match r {
                Some(e) => self.view().len() > 0 && e.view() == self.view().last(),
                None => self.view().len() == 0,
            },
    {
        proof {
            lemma_typed_values_view(self.jev@);
        }
        if self.jev.len() > 0 {
            Some(&self.jev[self.jev.len() - 1])
        } else {
            None
        }
    }

    pub fn get_last_mut(&mut self) -> (r: Option<&mut JsonTypeValue>)
        ensures
            final(self).kind() == old(self).kind(),
            match r {
                Some(e) => old(self).view().len() > 0 && e.view() == old(self).view().last()
                    && final(self).view() == old(self).view().drop_last().push(final(e).view()),
                None => old(self).view().len() == 0 && final(self).view() == old(self).view(),
            },
    {
        proof {
            lemma_typed_values_view(self.jev@);
        }
        let n = self.jev.len();
        if n > 0 {
            let e = &mut self.jev[n - 1];
            proof {
                let after = old(self).jev@.update(n - 1, *final(e));
                lemma_typed_values_view(after);
                assert(typed_values_view(after) =~= old(self).view().drop_last().push(
                    final(e).view(),
                ));
            }
            Some(e)
        } else {
            None
        }
    }

    pub fn push_entity<T: JsonType>(&mut self, je: T)
        ensures
            final(self).kind() == old(self).kind(),
            final(self).view() == old(self).view().push(je.json()),
    {
        self.jev.push(je.into_value());
        assert(self.jev@.drop_last() == old(self).jev@);
    }

    /// Takes the innermost container off the stack, unless it is the
    /// document itself.
    pub fn pop_entity(&mut self) -> (r: Option<JsonTypeValue>)
        ensures
            final(self).kind() == old(self).kind(),
            match r {
                Some(e) => old(self).view().len() > 1 && e.view() == old(self).view().last()
                    && final(self).view() == old(self).view().drop_last(),
                None => old(self).view().len() <= 1 && final(self).view() == old(self).view(),
            },
    {
        proof {
            lemma_typed_values_view(self.jev@);
        }
        if self.jev.len() > 1 {
            let e = self.jev.pop();
            proof {
                lemma_typed_values_view(self.jev@);
            }
            assert(self.view() =~= old(self).view().drop_last());
            return e;
        }
        None
    }

    /// Takes the innermost container off the stack.
    pub fn pop_last(&mut self) -> (r: Option<JsonTypeValue>)
        ensures
            final(self).kind() == old(self).kind(),
            match r {
                Some(e) => old(self).view().len() > 0 && e.view() == old(self).view().last()
                    && final(self).view() == old(self).view().drop_last(),
                None => old(self).view().len() == 0 && final(self).view() == old(self).view(),
            },
    {
        proof {
            lemma_typed_values_view(self.jev@);
        }
        let e = self.jev.pop();
        proof {
            lemma_typed_values_view(self.jev@);
            if old(self).jev@.len() > 0 {
                assert(self.view() =~= old(self).view().drop_last());
            }
        }
        e
    }
}

} // verus!

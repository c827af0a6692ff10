use vstd::prelude::*;
use crate::builder::value::{JsonBuilderValue, JsonBuilderValueView, array_text, elements_text};

verus! {

/// An array under construction: values in the order they were appended.
#[derive(Debug)]
pub struct JsonBuilderArray {
    pub array: Vec<JsonBuilderValue>,
}

/// The views of a list of values.
pub open spec fn values_view(vs: Seq<JsonBuilderValue>) -> Seq<JsonBuilderValueView> {
    vs.map_values(|v: JsonBuilderValue| v@)
}

impl View for JsonBuilderArray {
    type V = Seq<JsonBuilderValueView>;

    open spec fn view(&self) -> Seq<JsonBuilderValueView> {
        values_view(self.array@)
    }
}

impl Clone for JsonBuilderArray {
    fn clone(&self) -> (r: Self)
        ensures
            r@ == self@,
    {
        let mut array: Vec<JsonBuilderValue> = Vec::new();
        let mut i: usize = 0;
        while i < self.array.len()
            invariant
                i <= self.array.len(),
                array.len() == i,
                forall|j: int| 0 <= j < i ==> (#[trigger] array@[j])@ == self.array@[j]@,
            decreases self.array.len() - i,
        {
            array.push(self.array[i].clone());
            i += 1;
        }
        let r = JsonBuilderArray { array };
        assert(r@ =~= self@);
        r
    }
}

impl JsonBuilderArray {
    pub fn new() -> (a: Self)
        ensures
            a@ == Seq::<JsonBuilderValueView>::empty(),
    {
        let a = Self { array: Vec::new() };
        assert(a@ =~= Seq::<JsonBuilderValueView>::empty());
        a
    }

    pub fn len(&self) -> (n: usize)
        ensures
            n == self@.len(),
    {
        self.array.len()
    }

    /// The value at `index`, if there is one.
    pub fn get(&self, index: usize) -> (r: Option<&JsonBuilderValue>)
        ensures
            match r {
                Some(v) => index < self@.len() && v@ == self@[index as int],
                None => index >= self@.len(),
            },
    {
        if index < self.array.len() {
            Some(&self.array[index])
        } else {
            None
        }
    }

    /// Appends a value at the end.
    pub fn push(&mut self, value: JsonBuilderValue) -> (r: &mut Self)
        ensures
            r@ == old(self)@.push(value@),
            *final(self) == *final(r),
    {
        self.array.push(value);
        assert(self@ =~= old(self)@.push(value@));
        self
    }

    /// Appends what `o` converts to at the end.
    pub fn append<V: Into<JsonBuilderValue>>(&mut self, o: V) -> (r: &mut Self)
        ensures
            exists|value: JsonBuilderValue|
                call_ensures(<V as Into<JsonBuilderValue>>::into, (o,), value) && r@ == old(
                    self,
                )@.push(value@),
            *final(self) == *final(r),
    {
        let value: JsonBuilderValue = o.into();
        self.push(value)
    }

    /// Deletes the value at `index`; the values after it move up. An index
    /// past the end deletes nothing.
    pub fn remove(&mut self, index: usize) -> (r: &mut Self)
        ensures
            r@ == (if index < old(self)@.len() {
                old(self)@.remove(index as int)
            } else {
                old(self)@
            }),
            *final(self) == *final(r),
    {
        if index < self.array.len() {
            let _ = self.array.remove(index);
            assert(self@ =~= old(self)@.remove(index as int));
        }
        self
    }

    /// The compact text of the array.
    pub fn render(&self) -> (s: String)
        ensures
            s@ == array_text(self@),
    {
        let mut s = String::new();
        s.push('[');
        let mut i: usize = 0;
        while i < self.array.len()
            invariant
                i <= self.array.len(),
                s@ == seq!['['] + elements_text(self@.take(i as int)),
            decreases self.array.len() - i,
        {
            if i > 0 {
                s.push(',');
            }
            self.array[i].write_element(&mut s);
            proof {
                let next = self@.take(i + 1);
                assert(next.drop_last() =~= self@.take(i as int));
                assert(next.last() == self.array@[i as int]@);
                assert(s@ =~= seq!['['] + elements_text(next));
            }
            i += 1;
        }
        assert(self@.take(self.array.len() as int) =~= self@);
        s.push(']');
        s
    }
}

} // verus!

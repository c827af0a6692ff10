use vstd::prelude::*;
use vstd::string::StringExecFns;
use crate::builder::value::{JsonBuilderValue, JsonBuilderValueView, entries_text, object_text};
use crate::entries::{distinct_keys, first_at, has_key, key_index, lookup, put, without};

verus! {

pub type EntryView = (Seq<char>, JsonBuilderValueView);

/// An object under construction: entries with distinct keys, in the order
/// in which their keys were first inserted.
#[derive(Debug)]
pub struct JsonBuilderObject {
    object: Vec<(String, JsonBuilderValue)>,
}

pub open spec fn entry_view(e: (String, JsonBuilderValue)) -> EntryView {
    (e.0@, e.1@)
}

pub open spec fn entries_view(es: Seq<(String, JsonBuilderValue)>) -> Seq<EntryView> {
    es.map_values(|e: (String, JsonBuilderValue)| entry_view(e))
}

impl View for JsonBuilderObject {
    type V = Seq<EntryView>;

    closed spec fn view(&self) -> Seq<EntryView> {
        entries_view(self.object@)
    }
}

impl JsonBuilderObject {
    /// No key occurs twice. Every object made by `new` and changed by the
    /// methods below is so.
    pub closed spec fn wf(&self) -> bool {
        distinct_keys(entries_view(self.object@))
    }

    pub fn new() -> (o: Self)
        ensures
            o@ == Seq::<EntryView>::empty(),
            o.wf(),
    {
        let o = Self { object: Vec::new() };
        assert(o@ =~= Seq::<EntryView>::empty());
        o
    }

    pub fn len(&self) -> (n: usize)
        ensures
            n == self@.len(),
    {
        self.object.len()
    }

    /// The place of `k` among the entries.
    fn position(&self, k: &String) -> (r: Option<usize>)
        ensures
            match r {
                Some(i) => has_key(self@, k@) && i == key_index(self@, k@) && i < self@.len()
                    && first_at(self@, k@, i as int),
                None => !has_key(self@, k@),
            },
    {
        let mut i: usize = 0;
        while i < self.object.len()
            invariant
                i <= self.object.len(),
                forall|j: int| 0 <= j < i ==> (#[trigger] self@[j]).0 != k@,
            decreases self.object.len() - i,
        {
            if self.object[i].0 == *k {
                assert(self@[i as int].0 == k@);
                assert(first_at(self@, k@, i as int));
                return Some(i);
            }
            i += 1;
        }
        None
    }

    /// Puts `value` under `key`. A value that was there is replaced.
    pub fn put(&mut self, key: String, value: JsonBuilderValue) -> (r: &mut Self)
        ensures
            r@ == put(old(self)@, key@, value@),
            old(self).wf() ==> r.wf(),
            *final(self) == *final(r),
    {
        match self.position(&key) {
            Some(i) => {
                self.object.set(i, (key, value));
                assert(entries_view(self.object@) =~= put(old(self)@, key@, value@));
            },
            None => {
                self.object.push((key, value));
                assert(entries_view(self.object@) =~= put(old(self)@, key@, value@));
            },
        }
        self
    }

    /// Puts what `v` converts to under `k`. A value that was there is
    /// replaced: the last write wins.
    pub fn insert<V: Into<JsonBuilderValue>>(&mut self, k: &str, v: V) -> (r: &mut Self)
        ensures
            exists|value: JsonBuilderValue|
                call_ensures(<V as Into<JsonBuilderValue>>::into, (v,), value) && r@ == put(
                    old(self)@,
                    k@,
                    value@,
                ),
            old(self).wf() ==> r.wf(),
            *final(self) == *final(r),
    {
        let value: JsonBuilderValue = v.into();
        self.put(String::from_str(k), value)
    }

    /// Deletes the entry under `k`, if there is one.
    pub fn remove(&mut self, k: &str) -> (r: &mut Self)
        ensures
            r@ == without(old(self)@, k@),
            old(self).wf() ==> r.wf(),
            *final(self) == *final(r),
    {
        let key = String::from_str(k);
        match self.position(&key) {
            Some(i) => {
                let _ = self.object.remove(i);
                assert(entries_view(self.object@) =~= without(old(self)@, k@));
            },
            None => {},
        }
        self
    }

    /// The value under `k`.
    pub fn get(&self, k: &str) -> (r: Option<&JsonBuilderValue>)
        ensures
            match r {
                Some(v) => lookup(self@, k@) == Some(v@),
                None => lookup(self@, k@) is None,
            },
    {
        let key = String::from_str(k);
        match self.position(&key) {
            Some(i) => Some(&self.object[i].1),
            None => None,
        }
    }

    /// The value under `k`, to be changed in its place.
    pub fn get_mut(&mut self, k: &str) -> (r: Option<&mut JsonBuilderValue>)
        ensures
            match r {
                Some(v) => {
                    &&& lookup(old(self)@, k@) == Some(v@)
                    &&& final(self)@ == old(self)@.update(
                        key_index(old(self)@, k@),
                        (k@, final(v)@),
                    )
                },
                None => lookup(old(self)@, k@) is None && final(self)@ == old(self)@,
            },
    {
        let key = String::from_str(k);
        match self.position(&key) {
            Some(i) => {
                let entry = &mut self.object[i];
                proof {
                    assert(entries_view(old(self).object@.update(i as int, *final(entry)))
                        =~= old(self)@.update(i as int, entry_view(*final(entry))));
                }
                let v = &mut entry.1;
                Some(v)
            },
            None => None,
        }
    }

    /// The key of the entry at `index`, if there is one.
    pub fn key_at(&self, index: usize) -> (r: Option<&String>)
        ensures
            match r {
                Some(k) => index < self@.len() && k@ == self@[index as int].0,
                None => index >= self@.len(),
            },
    {
        if index < self.object.len() {
            Some(&self.object[index].0)
        } else {
            None
        }
    }

    /// The value of the entry at `index`, if there is one.
    pub fn value_at(&self, index: usize) -> (r: Option<&JsonBuilderValue>)
        ensures
            match r {
                Some(v) => index < self@.len() && v@ == self@[index as int].1,
                None => index >= self@.len(),
            },
    {
        if index < self.object.len() {
            Some(&self.object[index].1)
        } else {
            None
        }
    }

    /// The compact text of the object, its entries in their order.
    pub fn render(&self) -> (s: String)
        ensures
            s@ == object_text(self@),
    {
        let mut s = String::new();
        s.push('{');
        let mut i: usize = 0;
        while i < self.object.len()
            invariant
                i <= self.object.len(),
                s@ == seq!['{'] + entries_text(self@.take(i as int)),
            decreases self.object.len() - i,
        {
            if i > 0 {
                s.push(',');
            }
            let ghost before = s@;
            s.push('"');
            s.append(self.object[i].0.as_str());
            s.push('"');
            s.push(':');
            self.object[i].1.write_element(&mut s);
            proof {
                let next = self@.take(i + 1);
                assert(next.drop_last() =~= self@.take(i as int));
                assert(next.last() == entry_view(self.object@[i as int]));
                assert(s@ =~= seq!['{'] + entries_text(next));
            }
            i += 1;
        }
        assert(self@.take(self.object.len() as int) =~= self@);
        s.push('}');
        s
    }
}

impl Clone for JsonBuilderObject {
    fn clone(&self) -> (r: Self)
        ensures
            r@ == self@,
            r.wf() == self.wf(),
    {
        let mut object: Vec<(String, JsonBuilderValue)> = Vec::new();
        let mut i: usize = 0;
        while i < self.object.len()
            invariant
                i <= self.object.len(),
                object.len() == i,
                forall|j: int| 0 <= j < i ==> entry_view(#[trigger] object@[j]) == entry_view(self.object@[j]),
            decreases self.object.len() - i,
        {
            object.push((self.object[i].0.clone(), self.object[i].1.clone()));
            i += 1;
        }
        let r = JsonBuilderObject { object };
        assert(r@ =~= self@);
        r
    }
}

} // verus!

use vstd::prelude::*;

verus! {

/// A place in the list's store.
pub type Indicator = Option<usize>;

/// A node: a value and the places of its neighbours.
pub struct FireNode<T> {
    value: T,
    prev: Indicator,
    next: Indicator,
}

impl<T> FireNode<T> {
    pub closed spec fn value(&self) -> T {
        self.value
    }

    pub closed spec fn links(&self) -> (Indicator, Indicator) {
        (self.prev, self.next)
    }

    fn new(value: T) -> (n: Self)
        ensures
            n.value == value,
            n.prev is None,
            n.next is None,
    {
        Self { value, next: None, prev: None }
    }

    pub fn get(&self) -> (v: &T)
        ensures
            *v == self.value(),
    {
        &self.value
    }

    pub fn get_mut(&mut self) -> (v: &mut T)
        ensures
            *v == old(self).value(),
            final(self).value() == *final(v),
            final(self).links() == old(self).links(),
    {
        &mut self.value
    }

    /// The place of the node after this one.
    pub fn next(&self) -> (r: &Indicator)
        ensures
            *r == self.links().1,
    {
        &self.next
    }

    /// The place of the node before this one.
    pub fn prev(&self) -> (r: &Indicator)
        ensures
            *r == self.links().0,
    {
        &self.prev
    }

    fn update_next(&mut self, next: Indicator)
        ensures
            final(self).next == next,
            final(self).prev == old(self).prev,
            final(self).value == old(self).value,
    {
        self.next = next;
    }

    fn update_prev(&mut self, prev: Indicator)
        ensures
            final(self).prev == prev,
            final(self).next == old(self).next,
            final(self).value == old(self).value,
    {
        self.prev = prev;
    }
}

/// A list whose nodes lie in a store and name their neighbours by their
/// places in it. A place is used once: the place of an unlinked node stays
/// empty.
pub struct FireList<T> {
    size: usize,
    head: Indicator,
    tail: Indicator,
    nodes: Vec<Option<FireNode<T>>>,
    order: Ghost<Seq<usize>>,
}

/// The neighbour of place `i` in `order` on one side: none at the end.
pub open spec fn neighbour(order: Seq<usize>, i: int) -> Indicator {
    if 0 <= i < order.len() {
        Some(order[i])
    } else {
        None
    }
}

impl<T> FireList<T> {
    /// The node at place `i` of the order is in the store and names the
    /// nodes before and after it.
    spec fn linked(&self, i: int) -> bool {
        let slot = self.order@[i];
        &&& slot < self.nodes.len()
        &&& self.nodes@[slot as int] matches Some(node) && node.prev == neighbour(
            self.order@,
            i - 1,
        ) && node.next == neighbour(self.order@, i + 1)
    }

    /// The links agree with the order of the list: the head is its first
    /// node, the tail its last, each node names its two neighbours, and no
    /// place occurs twice.
    pub closed spec fn wf(&self) -> bool {
        &&& self.size == self.order@.len()
        &&& self.size <= self.nodes.len()
        &&& self.head == neighbour(self.order@, 0)
        &&& self.tail == neighbour(self.order@, self.size - 1)
        &&& forall|i: int| 0 <= i < self.order@.len() ==> self.linked(i)
        &&& forall|i: int, j: int|
            0 <= i < j < self.order@.len() ==> self.order@[i] != self.order@[j]
    }

    /// The values of the list, from head to tail.
    pub closed spec fn view(&self) -> Seq<T> {
        Seq::new(self.order@.len(), |i: int| self.nodes@[self.order@[i] as int]->Some_0.value)
    }

    /// The places of the nodes in the store, from head to tail.
    pub closed spec fn places(&self) -> Seq<usize> {
        self.order@
    }

    /// The node that lies at a place of the store.
    pub closed spec fn stored(&self, place: usize) -> Option<FireNode<T>> {
        if place < self.nodes.len() {
            self.nodes@[place as int]
        } else {
            None
        }
    }

    pub fn new() -> (l: Self)
        ensures
            l.wf(),
            l.view() == Seq::<T>::empty(),
    {
        let l = Self { size: 0, head: None, tail: None, nodes: Vec::new(), order: Ghost(Seq::empty()) };
        assert(l.view() =~= Seq::<T>::empty());
        l
    }

    pub fn size(&self) -> (n: usize)
        requires
            self.wf(),
        ensures
            n == self.view().len(),
    {
        self.size
    }

    /// The place in the store of the node at `index`, found by walking
    /// from the head.
    fn item_finder(&self, index: usize) -> (r: Indicator)
        requires
            self.wf(),
        ensures
            r == neighbour(self.order@, index as int),
            index < self.size <==> r is Some,
    {
        let mut current = self.head;
        let mut counter: usize = 0;
        while counter < index
            invariant
                self.wf(),
                counter <= index,
                current == neighbour(self.order@, counter as int),
            decreases index - counter,
        {
            match current {
                None => {
                    return None;
                },
                Some(slot) => {
                    assert(self.linked(counter as int));
                    match &self.nodes[slot] {
                        Some(node) => {
                            current = node.next;
                        },
                        None => {
                            return None;
                        },
                    }
                },
            }
            counter += 1;
        }
        current
    }

    /// The node at `index`, if there is one.
    pub fn get(&self, index: usize) -> (r: Option<&FireNode<T>>)
        requires
            self.wf(),
        ensures
            match r {
                Some(node) => {
                    &&& index < self.view().len()
                    &&& node.value() == self.view()[index as int]
                    &&& node.links() == (
                        neighbour(self.places(), index - 1),
                        neighbour(self.places(), index + 1),
                    )
                    &&& self.stored(self.places()[index as int]) == Some(*node)
                },
                None => index >= self.view().len(),
            },
    {
        match self.item_finder(index) {
            Some(slot) => {
                assert(self.linked(index as int));
                self.nodes[slot].as_ref()
            },
            None => None,
        }
    }

    /// The node at a place of the store, as a neighbour names it.
    pub fn node(&self, place: usize) -> (r: Option<&FireNode<T>>)
        ensures
            match r {
                Some(node) => self.stored(place) == Some(*node),
                None => self.stored(place) is None,
            },
    {
        if place < self.nodes.len() {
            self.nodes[place].as_ref()
        } else {
            None
        }
    }

    /// Links `value` in after the tail.
    pub fn link(&mut self, value: T) -> (r: &mut Self)
        requires
            old(self).wf(),
        ensures
            r.wf(),
            r.view() == old(self).view().push(value),
            *final(self) == *final(r),
    {
        let ghost before = *self;
        let place = self.nodes.len();
        let mut node = FireNode::new(value);
        node.update_prev(self.tail);
        self.nodes.push(Some(node));
        let stored = self.nodes.len();
        assert(self.size < stored);
        let size = self.size + 1;
        match self.tail {
            Some(last) => {
                assert(before.linked(before.size - 1));
                match &mut self.nodes[last] {
                    Some(n) => {
                        n.update_next(Some(place));
                    },
                    None => {},
                }
            },
            None => {
                self.head = Some(place);
            },
        }
        self.tail = Some(place);
        self.size = size;
        proof {
            self.order@ = before.order@.push(place);
        }
        assert forall|i: int| 0 <= i < self.order@.len() implies self.linked(i) by {
            if i < before.order@.len() {
                assert(before.linked(i));
            }
        }
        assert forall|i: int, j: int| 0 <= i < j < self.order@.len() implies self.order@[i]
            != self.order@[j] by {
            assert(before.linked(i));
        }
        assert(self.view() =~= before.view().push(value)) by {
            assert forall|i: int| 0 <= i < before.order@.len() implies self.view()[i]
                == before.view()[i] by {
                assert(before.linked(i));
            }
        }
        self
    }

    /// Unlinks the node at `index`. An index past the tail unlinks nothing.
    pub fn unlink(&mut self, index: usize) -> (r: &mut Self)
        requires
            old(self).wf(),
        ensures
            r.wf(),
            r.view() == (if index < old(self).view().len() {
                old(self).view().remove(index as int)
            } else {
                old(self).view()
            }),
            *final(self) == *final(r),
    {
        let ghost before = *self;
        let slot = match self.item_finder(index) {
            Some(slot) => slot,
            None => {
                return self;
            },
        };
        assert(before.linked(index as int));
        let (prev, next) = match &self.nodes[slot] {
            Some(node) => (node.prev, node.next),
            None => (None, None),
        };
        match prev {
            Some(p) => {
                assert(before.linked(index - 1));
                match &mut self.nodes[p] {
                    Some(n) => {
                        n.update_next(next);
                    },
                    None => {},
                }
            },
            None => {
                self.head = next;
            },
        }
        match next {
            Some(q) => {
                assert(before.linked(index + 1));
                match &mut self.nodes[q] {
                    Some(n) => {
                        n.update_prev(prev);
                    },
                    None => {},
                }
            },
            None => {
                self.tail = prev;
            },
        }
        self.nodes.set(slot, None);
        self.size = self.size - 1;
        proof {
            self.order@ = before.order@.remove(index as int);
        }
        assert forall|i: int| 0 <= i < self.order@.len() implies self.linked(i) by {
            let old_i = if i < index {
                i
            } else {
                i + 1
            };
            assert(before.linked(old_i));
            assert(self.order@[i] == before.order@[old_i]);
        }
        assert(self.view() =~= before.view().remove(index as int)) by {
            assert forall|i: int| 0 <= i < self.order@.len() implies self.view()[i]
                == before.view().remove(index as int)[i] by {
                let old_i = if i < index {
                    i
                } else {
                    i + 1
                };
                assert(before.linked(old_i));
                assert(self.order@[i] == before.order@[old_i]);
            }
        }
        self
    }

    /// The values from head to tail.
    pub fn values(&self) -> (r: Vec<&T>)
        requires
            self.wf(),
        ensures
            r@.len() == self.view().len(),
            forall|i: int| 0 <= i < r@.len() ==> *(#[trigger] r@[i]) == self.view()[i],
    {
        let mut out: Vec<&T> = Vec::new();
        let mut current = self.head;
        let mut counter: usize = 0;
        while counter < self.size
            invariant
                self.wf(),
                counter <= self.size,
                current == neighbour(self.order@, counter as int),
                out@.len() == counter,
                forall|i: int| 0 <= i < counter ==> *(#[trigger] out@[i]) == self.view()[i],
            decreases self.size - counter,
        {
            assert(self.linked(counter as int));
            match current {
                Some(slot) => {
                    match &self.nodes[slot] {
                        Some(node) => {
                            out.push(&node.value);
                            current = node.next;
                        },
                        None => {},
                    }
                },
                None => {},
            }
            counter += 1;
        }
        out
    }
}

} // verus!

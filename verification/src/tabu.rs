//! The tabu set itself: a queue that keeps the order of admission and a hash
//! set that answers membership queries.

use crate::fifo::{
    admissible, evicted, inserted, lemma_inserted_admissible, lemma_inserted_contains,
};
use crate::key::{lemma_pack_unpack, lemma_unpack_pack, pack, spec_unpack};
use std::collections::{HashSet, VecDeque};
use vstd::prelude::*;

verus! {

/// A set of forbidden moves with limited capacity. It holds the most
/// recently admitted moves; when a new one does not fit, the oldest leaves.
///
/// The queue keeps the moves in the order of their admission. The set holds
/// the key of each of them, an integer: it is for integer keys that vstd
/// states how the standard hash set behaves.
pub struct TabuStructure {
    capacity: usize,
    queue: VecDeque<(i64, i64)>,
    tabu_set: HashSet<u128>,
}

impl View for TabuStructure {
    type V = Seq<(i64, i64)>;

    /// The resident elements, oldest first.
    closed spec fn view(&self) -> Seq<(i64, i64)> {
        self.queue@
    }
}

impl TabuStructure {
    /// The greatest number of elements that can be resident.
    pub closed spec fn spec_capacity(&self) -> usize {
        self.capacity
    }

    /// The set holds exactly the keys of the queue's elements.
    pub closed spec fn keys_agree(&self) -> bool {
        forall|key: u128| self.tabu_set@.contains(key) <==> self.queue@.contains(spec_unpack(key))
    }

    /// What every operation keeps: no element is resident twice, there are
    /// never more than the capacity, and set and queue agree.
    pub open spec fn wf(&self) -> bool {
        &&& admissible(self@, self.spec_capacity() as nat)
        &&& self.keys_agree()
    }

    /// Creates an empty set with room for `capacity` elements. A capacity of
    /// zero is allowed: nothing is ever resident in such a set.
    pub fn new(capacity: usize) -> (tabu: Self)
        ensures
            tabu.wf(),
            tabu@ == Seq::<(i64, i64)>::empty(),
            tabu.capacity() == capacity,
    {
        TabuStructure { capacity, queue: VecDeque::new(), tabu_set: HashSet::new() }
    }

    /// Whether `element` is resident: it was admitted and has not been
    /// evicted since. The query changes nothing, the order of eviction
    /// included.
    pub fn find(&self, element: (i64, i64)) -> (found: bool)
        requires
            self.wf(),
        ensures
            found == self@.contains(element),
    {
        proof {
            lemma_unpack_pack(element);
        }
        let key: u128 = pack(element);
        self.tabu_set.contains(&key)
    }

    /// Inserts `element`. If it is already resident nothing changes, its
    /// place in the order of eviction included. Otherwise it becomes the
    /// newest resident element, and if there are then more than the
    /// capacity, the oldest one leaves.
    pub fn insert(&mut self, element: (i64, i64))
        requires
            old(self).wf(),
        ensures
            final(self).wf(),
            final(self).capacity() == old(self).capacity(),
            final(self)@ == inserted(old(self)@, old(self).capacity() as nat, element),
            forall|other: (i64, i64)|
                final(self)@.contains(other) <==> {
                    ||| other == element && old(self).capacity() > 0
                    ||| old(self)@.contains(other) && evicted(
                        old(self)@,
                        old(self).capacity() as nat,
                        element,
                    ) != Some(other)
                },
            old(self)@.contains(element) ==> final(self)@.len() == old(self)@.len(),
            !old(self)@.contains(element) && old(self)@.len() < old(self).capacity()
                ==> final(self)@.len() == old(self)@.len() + 1,
            !old(self)@.contains(element) && old(self)@.len() == old(self).capacity()
                ==> final(self)@.len() == old(self).capacity(),
    {
        proof {
            assert forall|other: (i64, i64)|
                inserted(self@, self.capacity as nat, element).contains(other) <==> {
                    ||| other == element && self.capacity > 0
                    ||| self@.contains(other) && evicted(self@, self.capacity as nat, element)
                        != Some(other)
                } by {
                lemma_inserted_contains(self@, self.capacity as nat, element, other);
            }
        }
        if self.find(element) {
            return ;
        }
        let ghost before = self.queue@;
        let ghost room = self.capacity as nat;

        self.tabu_set.insert(pack(element));
        self.queue.push_back(element);
        proof {
            lemma_unpack_pack(element);
        }
        if self.queue.len() > self.capacity {
            if let Some(oldest) = self.queue.pop_front() {
                self.tabu_set.remove(&pack(oldest));
                proof {
                    lemma_unpack_pack(oldest);
                }
            }
        }
        proof {
            lemma_inserted_admissible(before, room, element);
            assert forall|key: u128|
                self.tabu_set@.contains(key) <==> self.queue@.contains(spec_unpack(key)) by {
                lemma_pack_unpack(key);
                lemma_inserted_contains(before, room, element, spec_unpack(key));
            }
        }
    }

    /// The greatest number of elements that can be resident.
    #[verifier::when_used_as_spec(spec_capacity)]
    pub fn capacity(&self) -> (capacity: usize)
        ensures
            capacity == self.spec_capacity(),
    {
        self.capacity
    }

    /// The number of resident elements.
    pub fn len(&self) -> (len: usize)
        requires
            self.wf(),
        ensures
            len == self@.len(),
            len <= self.capacity(),
    {
        self.queue.len()
    }
}

} // verus!

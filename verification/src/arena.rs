use vstd::prelude::*;
use vstd::set_lib::lemma_len_subset;

verus! {

broadcast use vstd::set::group_set_axioms, vstd::set_lib::range_set_properties;

/// Stable-keyed storage for in-flight entries.
///
/// A key is a slot index, valid exactly while an entry occupies that slot.
/// Removing an entry frees its key for reuse by a later insertion (most
/// recently freed first). Abstractly the arena is the partial map from
/// occupied keys to entries.
pub struct Arena<T> {
    slots: Vec<Option<T>>,
    free: Vec<usize>,
    count: usize,
}

impl<T> View for Arena<T> {
    type V = Map<usize, T>;

    closed spec fn view(&self) -> Map<usize, T> {
        Map::new(
            |k: usize| k < self.slots@.len() && self.slots@[k as int] is Some,
            |k: usize| self.slots@[k as int]->0,
        )
    }
}

impl<T> Arena<T> {
    /// The free list names distinct vacant slots, and `count` tracks how many
    /// slots are occupied.
    pub closed spec fn wf(&self) -> bool {
        &&& forall|i: int|
            0 <= i < self.free@.len() ==> (#[trigger] self.free@[i]) < self.slots@.len()
        &&& forall|i: int|
            0 <= i < self.free@.len() ==> self.slots@[#[trigger] self.free@[i] as int] is None
        &&& forall|i: int, j: int|
            0 <= i < j < self.free@.len() ==> self.free@[i] != self.free@[j]
        &&& self@.dom().finite()
        &&& self.count == self@.dom().len()
    }

    /// The key that the next insertion will occupy.
    pub closed spec fn next_key(&self) -> usize {
        if self.free@.len() > 0 {
            self.free@.last()
        } else {
            self.slots@.len() as usize
        }
    }

    /// A slot that was emptied by `swap_out` and not yet restored or released:
    /// vacant, but not available for reuse.
    pub closed spec fn reserved(&self, key: usize) -> bool {
        &&& key < self.slots@.len()
        &&& self.slots@[key as int] is None
        &&& !self.free@.contains(key)
    }

    /// Every occupied key indexes a slot, so the population is bounded by the
    /// slot count.
    proof fn lemma_dom_bounded(&self)
        requires
            self@.dom().finite(),
        ensures
            self@.dom().len() <= self.slots@.len(),
            self.slots@.len() <= usize::MAX,
            forall|k: usize| self@.dom().contains(k) ==> k < self.slots@.len(),
    {
        vstd::std_specs::vec::axiom_spec_len(&self.slots);
        let bound = self.slots@.len() as usize;
        let below = Set::<usize>::range(0, bound);
        assert forall|k: usize| self@.dom().contains(k) implies below.contains(k) by {
            assert(k < self.slots@.len());
        }
        assert(self@.dom().subset_of(below));
        lemma_len_subset(self@.dom(), below);
    }

    /// A vacant slot keeps the population strictly below the slot count.
    proof fn lemma_dom_missing_key(&self, key: usize)
        requires
            self@.dom().finite(),
            key < self.slots@.len(),
            !self@.dom().contains(key),
        ensures
            self@.dom().len() < self.slots@.len(),
            self.slots@.len() <= usize::MAX,
    {
        vstd::std_specs::vec::axiom_spec_len(&self.slots);
        let bound = self.slots@.len() as usize;
        let below = Set::<usize>::range(0, bound);
        assert forall|k: usize| self@.dom().contains(k) implies below.contains(k) by {
            assert(k < self.slots@.len());
        }
        assert(below.contains(key));
        self@.dom().lemma_subset_not_in_lt(below, key);
    }

    /// The set of occupied keys is finite.
    pub proof fn lemma_finite(&self)
        requires
            self.wf(),
        ensures
            self@.dom().finite(),
    {
    }

    pub fn new() -> (a: Arena<T>)
        ensures
            a.wf(),
            a@ == Map::<usize, T>::empty(),
    {
        let a = Arena { slots: Vec::new(), free: Vec::new(), count: 0 };
        proof {
            assert(a@ =~= Map::<usize, T>::empty());
        }
        a
    }

    /// The key the next insertion returns; it is currently unoccupied.
    pub fn vacant_key(&self) -> (key: usize)
        requires
            self.wf(),
        ensures
            key == self.next_key(),
            !self@.dom().contains(key),
    {
        if self.free.len() > 0 {
            self.free[self.free.len() - 1]
        } else {
            self.slots.len()
        }
    }

    /// Stores `value` in a vacant slot and returns its key, reusing the most
    /// recently freed key if one exists.
    pub fn insert(&mut self, value: T) -> (key: usize)
        requires
            old(self).wf(),
        ensures
            final(self).wf(),
            key == old(self).next_key(),
            !old(self)@.dom().contains(key),
            final(self)@ == old(self)@.insert(key, value),
    {
        if self.free.len() > 0 {
            let key = self.free.pop().unwrap();
            proof {
                self.lemma_dom_missing_key(key);
            }
            self.slots[key] = Some(value);
            self.count = self.count + 1;
            proof {
                assert(self@ =~= old(self)@.insert(key, value));
            }
            key
        } else {
            proof {
                self.lemma_dom_bounded();
            }
            let key = self.slots.len();
            self.slots.push(Some(value));
            proof {
                vstd::std_specs::vec::axiom_spec_len(&self.slots);
            }
            self.count = self.count + 1;
            proof {
                assert(self@ =~= old(self)@.insert(key, value));
            }
            key
        }
    }

    /// Takes the entry at `key` out of its slot, leaving the slot reserved for
    /// `put_back` or `release`; `None` if `key` is not occupied.
    pub fn swap_out(&mut self, key: usize) -> (r: Option<T>)
        requires
            old(self).wf(),
        ensures
            final(self).wf(),
            old(self)@.dom().contains(key) ==> r == Some(old(self)@[key]),
            old(self)@.dom().contains(key) ==> final(self)@ == old(self)@.remove(key),
            old(self)@.dom().contains(key) ==> final(self).reserved(key),
            !old(self)@.dom().contains(key) ==> r is None && final(self)@ == old(self)@,
    {
        if key < self.slots.len() {
            let taken = self.slots[key].take();
            if taken.is_some() {
                proof {
                    vstd::set::axiom_set_contains_len(old(self)@.dom(), key);
                }
                self.count = self.count - 1;
                proof {
                    assert(self@ =~= old(self)@.remove(key));
                    assert(forall|i: int|
                        0 <= i < self.free@.len()
                            ==> self.slots@[#[trigger] self.free@[i] as int] is None);
                    assert(!self.free@.contains(key)) by {
                        if self.free@.contains(key) {
                            let i = self.free@.index_of(key);
                            assert(old(self).slots@[self.free@[i] as int] is None);
                        }
                    }
                }
                taken
            } else {
                proof {
                    assert(self@ =~= old(self)@);
                }
                None
            }
        } else {
            None
        }
    }

    /// Restores an entry to the slot reserved for it by `swap_out`.
    pub fn put_back(&mut self, key: usize, value: T)
        requires
            old(self).wf(),
            old(self).reserved(key),
        ensures
            final(self).wf(),
            final(self)@ == old(self)@.insert(key, value),
    {
        proof {
            self.lemma_dom_missing_key(key);
        }
        self.slots[key] = Some(value);
        self.count = self.count + 1;
        proof {
            assert(self@ =~= old(self)@.insert(key, value));
        }
    }

    /// Frees the slot reserved by `swap_out`, making its key reusable.
    pub fn release(&mut self, key: usize)
        requires
            old(self).wf(),
            old(self).reserved(key),
        ensures
            final(self).wf(),
            final(self)@ == old(self)@,
    {
        self.free.push(key);
        proof {
            assert(self@ =~= old(self)@);
        }
    }

    /// Frees the slot at `key` and returns its entry, making the key
    /// reusable; `None` if `key` is not occupied.
    pub fn remove(&mut self, key: usize) -> (r: Option<T>)
        requires
            old(self).wf(),
        ensures
            final(self).wf(),
            r is Some <==> old(self)@.dom().contains(key),
            old(self)@.dom().contains(key) ==> r == Some(old(self)@[key]),
            final(self)@ == old(self)@.remove(key),
    {
        let taken = self.swap_out(key);
        if taken.is_some() {
            self.release(key);
        }
        proof {
            assert(self@ =~= old(self)@.remove(key));
        }
        taken
    }

    pub fn len(&self) -> (n: usize)
        requires
            self.wf(),
        ensures
            n == self@.dom().len(),
    {
        self.count
    }

    pub fn is_empty(&self) -> (r: bool)
        requires
            self.wf(),
        ensures
            r == self@.dom().is_empty(),
    {
        proof {
            if self.count == 0 {
                self@.dom().lemma_len0_is_empty();
            }
            if self@.dom().is_empty() {
                assert(self@.dom() =~= Set::<usize>::empty());
            }
        }
        self.count == 0
    }
}

} // verus!

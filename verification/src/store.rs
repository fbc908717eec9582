//! A sparse per-entity attribute array: one `Store` per attribute kind,
//! indexed by entity index.

use vstd::prelude::*;
use vstd::pervasive::VecAdditionalExecFns;

verus! {

/// Holds at most one attribute value of type `T` per entity index.
///
/// Its view is the partial map from indices to the values present.
#[derive(Clone, Debug)]
pub struct Store<T> {
    slots: Vec<Option<T>>,
}

impl<T> View for Store<T> {
    type V = Map<int, T>;

    closed spec fn view(&self) -> Map<int, T> {
        Map::new(
            |i: int| 0 <= i < self.slots@.len() && self.slots@[i] is Some,
            |i: int| self.slots@[i]->0,
        )
    }
}

impl<T> Store<T> {
    /// An empty store.
    pub fn new() -> (r: Store<T>)
        ensures
            r@ == Map::<int, T>::empty(),
    {
        let r = Store { slots: Vec::new() };
        proof {
            assert(r@ =~= Map::<int, T>::empty());
        }
        r
    }

    /// True if index `i` has a value.
    pub fn contains(&self, i: usize) -> (r: bool)
        ensures
            r == self@.contains_key(i as int),
    {
        i < self.slots.len() && self.slots[i].is_some()
    }

    /// A reference to the value at index `i`, if any.
    pub fn get(&self, i: usize) -> (r: Option<&T>)
        ensures
            match r {
                Some(v) => self@.contains_key(i as int) && *v == self@[i as int],
                None => !self@.contains_key(i as int),
            },
    {
        if i < self.slots.len() {
            match &self.slots[i] {
                Some(v) => Some(v),
                None => None,
            }
        } else {
            None
        }
    }

    /// Put a value at index `i`, replacing any present value.
    pub fn insert(&mut self, i: usize, v: T)
        requires
            i < usize::MAX,
        ensures
            final(self)@ == old(self)@.insert(i as int, v),
    {
        self.grow_to(i + 1);
        self.slots.set(i, Some(v));
        proof {
            assert(final(self)@ =~= old(self)@.insert(i as int, v));
        }
    }

    /// Remove the value at index `i`, if any.
    pub fn remove(&mut self, i: usize)
        ensures
            final(self)@ == old(self)@.remove(i as int),
    {
        if i < self.slots.len() {
            self.slots.set(i, None);
        }
        proof {
            assert(final(self)@ =~= old(self)@.remove(i as int));
        }
    }

    /// Remove and return the value at index `i`.
    pub fn take(&mut self, i: usize) -> (r: Option<T>)
        ensures
            final(self)@ == old(self)@.remove(i as int),
            match r {
                Some(v) => old(self)@.contains_key(i as int) && v == old(self)@[i as int],
                None => !old(self)@.contains_key(i as int),
            },
    {
        if i < self.slots.len() {
            let mut tmp: Option<T> = None;
            self.slots.set_and_swap(i, &mut tmp);
            proof {
                assert(final(self)@ =~= old(self)@.remove(i as int));
            }
            tmp
        } else {
            proof {
                assert(final(self)@ =~= old(self)@.remove(i as int));
            }
            None
        }
    }

    /// Remove every value.
    pub fn clear(&mut self)
        ensures
            final(self)@ == Map::<int, T>::empty(),
    {
        self.slots.clear();
        proof {
            assert(final(self)@ =~= Map::<int, T>::empty());
        }
    }

    /// Extend the slot array with empty slots until it has length at least `n`.
    fn grow_to(&mut self, n: usize)
        ensures
            final(self)@ == old(self)@,
            final(self).slots@.len() >= n,
            final(self).slots@.len() >= old(self).slots@.len(),
            forall|k: int|
                0 <= k < old(self).slots@.len() ==> final(self).slots@[k] == old(self).slots@[k],
    {
        while self.slots.len() < n
            invariant
                self@ == old(self)@,
                self.slots@.len() >= old(self).slots@.len(),
                forall|k: int|
                    0 <= k < old(self).slots@.len() ==> self.slots@[k] == old(self).slots@[k],
            decreases n - self.slots.len(),
        {
            let ghost prev = self@;
            let ghost prev_slots = self.slots@;
            self.slots.push(None);
            proof {
                assert(self@ =~= prev);
            }
        }
    }
}

} // verus!

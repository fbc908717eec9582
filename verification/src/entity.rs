//! Entity identifiers and their allocator.
//!
//! An entity is an opaque (index, generation) pair. Destroying an entity
//! bumps the generation of its index before the index can be reused, so a
//! stale identifier never passes for a live one.

use vstd::prelude::*;

verus! {

/// An opaque entity identifier.
#[derive(Clone, Copy, PartialEq, Eq, Structural, Debug, Hash)]
pub struct Entity {
    pub index: u32,
    pub generation: u32,
}

/// Allocates and tracks the liveness of entity identifiers.
#[derive(Clone, Debug)]
pub struct Entities {
    generations: Vec<u32>,
    alive: Vec<bool>,
    free: Vec<u32>,
}

impl Entities {
    /// Internal consistency of the allocator's bookkeeping.
    pub closed spec fn wf(self) -> bool {
        &&& self.alive@.len() == self.generations@.len()
        &&& self.generations@.len() <= u32::MAX as nat
        &&& forall|k: int|
            0 <= k < self.free@.len() ==> {
                &&& self.free@[k] < self.generations@.len()
                &&& !self.alive@[self.free@[k] as int]
            }
        &&& forall|k1: int, k2: int|
            0 <= k1 < k2 < self.free@.len() ==> self.free@[k1] != self.free@[k2]
    }

    /// How many index slots have ever been allocated.
    pub closed spec fn spec_capacity(self) -> nat {
        self.generations@.len()
    }

    /// The live entity occupying index slot `i`, if any.
    pub closed spec fn spec_entity_at(self, i: int) -> Option<Entity> {
        if 0 <= i < self.generations@.len() && self.alive@[i] {
            Some(Entity { index: i as u32, generation: self.generations@[i] })
        } else {
            None
        }
    }

    /// True if `e` denotes an entity that has been created and not destroyed.
    pub closed spec fn spec_is_live(self, e: Entity) -> bool {
        &&& e.index < self.generations@.len()
        &&& self.alive@[e.index as int]
        &&& self.generations@[e.index as int] == e.generation
    }

    /// True if `e` is retired: destroyed, and barred from ever becoming
    /// live again. Its slot either already carries a later generation, or
    /// still carries `e`'s generation but dead, so any reuse bumps past it.
    pub closed spec fn spec_retired(self, e: Entity) -> bool {
        &&& e.index < self.generations@.len()
        &&& (self.generations@[e.index as int] > e.generation || (self.generations@[e.index
            as int] == e.generation && !self.alive@[e.index as int]))
    }

    /// A retired identifier is not live.
    pub proof fn lemma_retired_not_live(self, e: Entity)
        requires
            self.spec_retired(e),
        ensures
            !self.spec_is_live(e),
    {
    }

    /// An allocator with no entities.
    pub fn new() -> (r: Entities)
        ensures
            r.wf(),
            r.spec_capacity() == 0,
            forall|e: Entity| !r.spec_is_live(e),
    {
        Entities { generations: Vec::new(), alive: Vec::new(), free: Vec::new() }
    }

    /// One more than the largest entity index ever handed out.
    pub fn capacity(&self) -> (r: usize)
        requires
            self.wf(),
        ensures
            r == self.spec_capacity(),
    {
        self.generations.len()
    }

    /// True if `e` is live: created, and not destroyed since.
    pub fn is_live(&self, e: Entity) -> (r: bool)
        requires
            self.wf(),
        ensures
            r == self.spec_is_live(e),
    {
        (e.index as usize) < self.generations.len() && self.alive[e.index as usize]
            && self.generations[e.index as usize] == e.generation
    }

    /// Create a fresh entity. The returned identifier is live, was not live
    /// before the call, and every other identifier keeps its liveness.
    pub fn create(&mut self) -> (r: Entity)
        requires
            old(self).wf(),
            old(self).spec_capacity() < u32::MAX as nat,
        ensures
            final(self).wf(),
            final(self).spec_is_live(r),
            !old(self).spec_is_live(r),
            old(self).spec_entity_at(r.index as int) is None,
            r.index < final(self).spec_capacity(),
            old(self).spec_capacity() <= final(self).spec_capacity() <= old(self).spec_capacity()
                + 1,
            forall|e: Entity|
                e != r ==> final(self).spec_is_live(e) == old(self).spec_is_live(e),
            forall|e: Entity| old(self).spec_retired(e) ==> final(self).spec_retired(e),
    {
        match self.free.pop() {
            Some(idx) if self.generations[idx as usize] < u32::MAX => {
                let g = self.generations[idx as usize] + 1;
                self.generations.set(idx as usize, g);
                self.alive.set(idx as usize, true);
                Entity { index: idx, generation: g }
            },
            _ => {
                let idx = self.generations.len() as u32;
                self.generations.push(0);
                self.alive.push(true);
                Entity { index: idx, generation: 0 }
            },
        }
    }

    /// Destroy a live entity. Afterwards it is no longer live; every other
    /// identifier keeps its liveness, and the identifier is never revived.
    pub fn destroy(&mut self, e: Entity)
        requires
            old(self).wf(),
            old(self).spec_is_live(e),
        ensures
            final(self).wf(),
            !final(self).spec_is_live(e),
            final(self).spec_retired(e),
            final(self).spec_capacity() == old(self).spec_capacity(),
            forall|o: Entity|
                o != e ==> final(self).spec_is_live(o) == old(self).spec_is_live(o),
            forall|o: Entity| old(self).spec_retired(o) ==> final(self).spec_retired(o),
    {
        self.alive.set(e.index as usize, false);
        self.free.push(e.index);
    }

    /// A live entity's index is strictly below the capacity, which itself
    /// fits in a `u32`.
    pub proof fn lemma_live_index(self, e: Entity)
        requires
            self.wf(),
            self.spec_is_live(e),
        ensures
            e.index < self.spec_capacity(),
            e.index < u32::MAX,
            self.spec_capacity() <= u32::MAX as nat,
    {
    }

    /// Outside the allocated range no slot holds an entity.
    pub proof fn lemma_entity_at_range(self, i: int)
        requires
            !(0 <= i < self.spec_capacity()),
        ensures
            self.spec_entity_at(i) is None,
    {
    }

    /// A populated slot holds a live entity with that index.
    pub proof fn lemma_entity_at_live(self, i: int)
        requires
            self.wf(),
            self.spec_entity_at(i) is Some,
        ensures
            self.spec_is_live(self.spec_entity_at(i)->0),
            (self.spec_entity_at(i)->0).index == i,
    {
    }

    /// A live entity is what its slot holds.
    pub proof fn lemma_live_entity_at(self, e: Entity)
        requires
            self.spec_is_live(e),
        ensures
            self.spec_entity_at(e.index as int) == Some(e),
    {
    }

    /// At most one live entity occupies an index slot.
    pub proof fn lemma_live_unique(self, e1: Entity, e2: Entity)
        requires
            self.spec_is_live(e1),
            self.spec_is_live(e2),
            e1.index == e2.index,
        ensures
            e1 == e2,
    {
    }

    /// The live entity at a given index slot, if the slot holds one.
    pub fn live_at(&self, index: usize) -> (r: Option<Entity>)
        requires
            self.wf(),
        ensures
            r == self.spec_entity_at(index as int),
            match r {
                Some(e) => self.spec_is_live(e) && e.index == index,
                None => forall|e: Entity| #[trigger]
                    self.spec_is_live(e) ==> e.index != index,
            },
    {
        if index < self.alive.len() && self.alive[index] {
            Some(Entity { index: index as u32, generation: self.generations[index] })
        } else {
            None
        }
    }
}

} // verus!

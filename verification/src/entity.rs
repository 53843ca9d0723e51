//! Entity identifiers and the allocator that mints them.

use vstd::prelude::*;

verus! {

/// An opaque, reusable identifier: a slot index and the generation of that
/// slot, by which a stale reference is told from a live one.
#[derive(Clone, Copy, Debug, PartialEq, Eq, Hash, Structural)]
pub struct Entity {
    index: u32,
    generation: u32,
}

impl Entity {
    /// The slot index, in contracts.
    pub closed spec fn spec_id(&self) -> u32 {
        self.index
    }

    /// The generation, in contracts.
    pub closed spec fn spec_generation(&self) -> u32 {
        self.generation
    }

    /// The slot index. Records are keyed by it.
    #[verifier::when_used_as_spec(spec_id)]
    pub fn id(&self) -> (r: u32)
        ensures
            r == self.id(),
    {
        self.index
    }

    /// The generation of the slot at the time the entity was minted.
    #[verifier::when_used_as_spec(spec_generation)]
    pub fn generation(&self) -> (r: u32)
        ensures
            r == self.generation(),
    {
        self.generation
    }
}

/// One slot of the allocator: its generation and whether an entity lives in it.
#[derive(Clone, Copy, Debug, PartialEq, Eq, Structural)]
struct Slot {
    generation: u32,
    alive: bool,
}

/// The entity allocator: one generation counter and one liveness flag per slot.
pub struct Entities {
    slots: Vec<Slot>,
}

impl Entities {
    /// The number of slots ever opened.
    pub closed spec fn slots(&self) -> nat {
        self.slots.len() as nat
    }

    /// The entity that currently lives in slot `id`, if one does.
    pub closed spec fn occupant(&self, id: u32) -> Option<Entity> {
        if id < self.slots.len() && self.slots[id as int].alive {
            Some(Entity { index: id, generation: self.slots[id as int].generation })
        } else {
            None
        }
    }

    /// The generation the slot `id` has reached, if the slot was ever opened.
    pub closed spec fn generation_at(&self, id: u32) -> Option<u32> {
        if id < self.slots.len() {
            Some(self.slots[id as int].generation)
        } else {
            None
        }
    }

    /// Whether the slot `id` is open, empty, and has a generation left to be
    /// used again.
    pub open spec fn reusable(&self, id: u32) -> bool {
        &&& self.occupant(id) is None
        &&& self.generation_at(id) matches Some(g)
        &&& g < u32::MAX
    }

    /// Whether `e` was minted here and has not been deleted since.
    pub open spec fn is_live(&self, e: Entity) -> bool {
        self.occupant(e.id()) == Some(e)
    }

    /// Whether a call of `create` can still mint an entity: a new slot can be
    /// opened, or a dead one has a generation left.
    pub closed spec fn has_room(&self) -> bool {
        ||| self.slots.len() < u32::MAX
        ||| exists|i: int|
            0 <= i < self.slots.len() && i < u32::MAX && !(#[trigger] self.slots[i]).alive
                && self.slots[i].generation < u32::MAX
    }

    /// The entity a call of `create` mints: the lowest reusable slot under its
    /// next generation, or failing that a new slot under generation zero.
    pub open spec fn mints(&self, e: Entity) -> bool {
        &&& forall|id: u32| id < e.id() ==> !self.reusable(id)
        &&& if self.reusable(e.id()) {
            e.generation() == self.generation_at(e.id())->0 + 1
        } else {
            e.id() == self.slots() && e.generation() == 0
        }
    }

    /// The allocator is `before` after it minted `e`: `e` is the entity that
    /// `before` mints, it is live now and was not before, and every other slot
    /// holds what it held.
    pub open spec fn minted(&self, before: &Entities, e: Entity) -> bool {
        &&& before.mints(e)
        &&& before.occupant(e.id()) is None
        &&& self.generation_at(e.id()) == Some(e.generation())
        &&& forall|id: u32| id != e.id() ==> self.generation_at(id) == before.generation_at(id)
        &&& self.occupant(e.id()) == Some(e)
        &&& e.id() < before.slots() ==> self.slots() == before.slots()
        &&& e.id() >= before.slots() ==> e.id() == before.slots() && self.slots() == before.slots()
            + 1
        &&& forall|id: u32| id != e.id() ==> self.occupant(id) == before.occupant(id)
    }

    /// Each allocator of `steps` but the first is the one before it after it
    /// minted the next entity of `made`.
    pub open spec fn in_turn(steps: Seq<Entities>, made: Seq<Entity>) -> bool {
        &&& steps.len() == made.len() + 1
        &&& forall|i: int|
            0 <= i < made.len() ==> (#[trigger] steps[i + 1]).minted(&steps[i], made[i])
    }

    /// The allocator is `before` after it minted the entities of `made`, one
    /// after the other.
    pub open spec fn minted_in_turn(&self, before: &Entities, made: Seq<Entity>) -> bool {
        exists|steps: Seq<Entities>|
            #[trigger] Self::in_turn(steps, made) && steps.first() == *before && steps.last()
                == *self
    }

    pub fn new() -> (s: Entities)
        ensures
            s.slots() == 0,
            s.has_room(),
            forall|id: u32| s.occupant(id) is None,
            forall|id: u32| s.generation_at(id) is None,
    {
        Entities { slots: Vec::new() }
    }

    /// The occupant of a slot carries the index of that slot and the
    /// generation the slot has reached, and only the slots opened so far have
    /// a generation.
    pub proof fn lemma_occupant_id(&self, id: u32)
        ensures
            self.occupant(id) matches Some(e) ==> e.id() == id && self.generation_at(id) == Some(
                e.generation(),
            ),
            self.generation_at(id) is Some <==> id < self.slots(),
    {
    }

    /// There is room exactly if a new slot can be opened, which takes fewer
    /// slots than the largest index, or some slot below that index is
    /// reusable.
    pub proof fn lemma_room(&self)
        ensures
            self.has_room() <==> self.slots() < u32::MAX || exists|id: u32|
                id < u32::MAX && self.reusable(id),
    {
        if self.has_room() && !(self.slots() < u32::MAX) {
            let i = choose|i: int|
                0 <= i < self.slots.len() && i < u32::MAX && !(#[trigger] self.slots[i]).alive
                    && self.slots[i].generation < u32::MAX;
            assert((i as u32) < u32::MAX && self.reusable(i as u32));
        }
        if exists|id: u32| id < u32::MAX && self.reusable(id) {
            let id = choose|id: u32| id < u32::MAX && self.reusable(id);
            assert(!self.slots[id as int].alive);
        }
    }

    /// The number of slots ever opened.
    pub fn slot_count(&self) -> (n: usize)
        ensures
            n == self.slots(),
    {
        self.slots.len()
    }

    /// Whether a call of `create` can still mint an entity.
    pub fn can_create(&self) -> (b: bool)
        ensures
            b == self.has_room(),
    {
        let n = self.slots.len();
        if n < u32::MAX as usize {
            return true;
        }
        let mut i: usize = 0;
        while i < n && i < u32::MAX as usize
            invariant
                0 <= i <= n,
                i <= u32::MAX,
                n == self.slots.len(),
                n >= u32::MAX,
                forall|j: int|
                    0 <= j < i ==> (#[trigger] self.slots[j]).alive || self.slots[j].generation
                        == u32::MAX,
            decreases n - i,
        {
            let slot = self.slots[i];
            if !slot.alive && slot.generation < u32::MAX {
                return true;
            }
            i += 1;
        }
        false
    }

    /// Mints an entity that no live entity is equal to. A dead slot is reused
    /// under its next generation; failing that a new slot is opened. `None`
    /// when every index and generation is taken.
    pub fn create(&mut self) -> (r: Option<Entity>)
        ensures
            r is Some <==> old(self).has_room(),
            r is None ==> *final(self) == *old(self),
            r matches Some(e) ==> final(self).minted(old(self), e),
    {
        let n = self.slots.len();
        let mut i: usize = 0;
        while i < n && i < u32::MAX as usize
            invariant
                0 <= i <= n,
                i <= u32::MAX,
                n == self.slots.len(),
                *self == *old(self),
                forall|j: int|
                    0 <= j < i ==> (#[trigger] self.slots[j]).alive || self.slots[j].generation
                        == u32::MAX,
            decreases n - i,
        {
            let slot = self.slots[i];
            if !slot.alive && slot.generation < u32::MAX {
                let generation = slot.generation + 1;
                self.slots.set(i, Slot { generation, alive: true });
                let e = Entity { index: i as u32, generation };
                assert(old(self).has_room());
                return Some(e);
            }
            i += 1;
        }
        if n < u32::MAX as usize {
            self.slots.push(Slot { generation: 0, alive: true });
            let e = Entity { index: n as u32, generation: 0 };
            assert(old(self).has_room());
            Some(e)
        } else {
            assert(!old(self).has_room());
            None
        }
    }

    /// Deletes `e`. Returns whether it was live; a stale reference changes
    /// nothing.
    pub fn delete(&mut self, e: Entity) -> (was_live: bool)
        ensures
            was_live == old(self).is_live(e),
            final(self).slots() == old(self).slots(),
            was_live ==> final(self).occupant(e.id()) is None,
            !was_live ==> *final(self) == *old(self),
            forall|id: u32| final(self).generation_at(id) == old(self).generation_at(id),
            forall|id: u32| id != e.id() ==> final(self).occupant(id) == old(self).occupant(id),
    {
        let i = e.index as usize;
        if i < self.slots.len() && self.slots[i].alive && self.slots[i].generation == e.generation {
            self.slots.set(i, Slot { generation: e.generation, alive: false });
            true
        } else {
            false
        }
    }

    pub fn is_alive(&self, e: Entity) -> (b: bool)
        ensures
            b == self.is_live(e),
    {
        let i = e.index as usize;
        i < self.slots.len() && self.slots[i].alive && self.slots[i].generation == e.generation
    }

    /// The live entity in slot `id`, if there is one.
    pub fn entity(&self, id: u32) -> (r: Option<Entity>)
        ensures
            r == self.occupant(id),
            r matches Some(e) ==> e.id() == id,
    {
        let i = id as usize;
        if i < self.slots.len() && self.slots[i].alive {
            Some(Entity { index: id, generation: self.slots[i].generation })
        } else {
            None
        }
    }
}

} // verus!

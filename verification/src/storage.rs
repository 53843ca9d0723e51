//! Keyed component stores.
//!
//! A store keeps at most one record per entity index. A flagged store also
//! keeps an ordered log of the inserts, updates and removals applied to it; a
//! consumer of the log keeps its own cursor, the number of events it has
//! already seen.

use vstd::prelude::*;

verus! {

/// One change to a store, with the index of the entity it concerns.
#[derive(Clone, Copy, Debug, PartialEq, Eq, Structural)]
pub enum ComponentEvent {
    /// A record was attached to an entity that had none.
    Inserted(u32),
    /// The record of an entity was replaced.
    Modified(u32),
    /// The record of an entity was taken away.
    Removed(u32),
}

impl ComponentEvent {
    /// The index of the entity the event concerns.
    pub open spec fn subject(self) -> u32 {
        match self {
            ComponentEvent::Inserted(id) => id,
            ComponentEvent::Modified(id) => id,
            ComponentEvent::Removed(id) => id,
        }
    }
}

/// The indices are those of `records`, each once, in ascending order.
pub open spec fn ascending(ids: Seq<u32>, records: Set<u32>) -> bool {
    &&& forall|i: int, j: int| 0 <= i < j < ids.len() ==> ids[i] < ids[j]
    &&& forall|id: u32| ids.contains(id) <==> records.contains(id)
}

/// A store of `T` records keyed by entity index.
pub struct Storage<T> {
    slots: Vec<Option<T>>,
}

impl<T> View for Storage<T> {
    type V = Map<u32, T>;

    /// The records held, by entity index.
    closed spec fn view(&self) -> Map<u32, T> {
        Map::new(
            |id: u32| id < self.slots.len() && self.slots[id as int] is Some,
            |id: u32| self.slots[id as int]->0,
        )
    }
}

impl<T> Storage<T> {
    /// The store is `before` with a record attached to `id`: every other
    /// record is as it was.
    pub open spec fn attached_to(&self, before: &Storage<T>, id: u32) -> bool {
        &&& self@.dom() == before@.dom().insert(id)
        &&& forall|other: u32|
            other != id && before@.contains_key(other) ==> self@[other] == before@[other]
    }

    pub fn new() -> (s: Storage<T>)
        ensures
            s@ == Map::<u32, T>::empty(),
    {
        let s = Storage { slots: Vec::new() };
        assert(s@ =~= Map::<u32, T>::empty());
        s
    }

    pub fn contains(&self, id: u32) -> (b: bool)
        ensures
            b == self@.contains_key(id),
    {
        let i = id as usize;
        i < self.slots.len() && self.slots[i].is_some()
    }

    pub fn get(&self, id: u32) -> (r: Option<&T>)
        ensures
            r is Some <==> self@.contains_key(id),
            r matches Some(v) ==> *v == self@[id],
    {
        let i = id as usize;
        if i < self.slots.len() {
            self.slots[i].as_ref()
        } else {
            None
        }
    }

    /// Attaches `value` to `id`, replacing wholesale what was there. Returns
    /// the record replaced.
    pub fn insert(&mut self, id: u32, value: T) -> (previous: Option<T>)
        ensures
            final(self)@ == old(self)@.insert(id, value),
            final(self).attached_to(old(self), id),
            previous is Some <==> old(self)@.contains_key(id),
            previous matches Some(p) ==> p == old(self)@[id],
    {
        let i = id as usize;
        while self.slots.len() <= i
            invariant
                i == id as usize,
                old(self).slots.len() <= self.slots.len(),
                forall|j: int| 0 <= j < old(self).slots.len() ==> self.slots[j] == old(self).slots[j],
                forall|j: int| old(self).slots.len() <= j < self.slots.len() ==> self.slots[j] is None,
            decreases i + 1 - self.slots.len(),
        {
            self.slots.push(None);
        }
        assert(self@ =~= old(self)@);
        let mut cell = Some(value);
        std::mem::swap(&mut self.slots[i], &mut cell);
        assert(self@ =~= old(self)@.insert(id, value));
        cell
    }

    /// Takes the record of `id` away and returns it.
    pub fn remove(&mut self, id: u32) -> (previous: Option<T>)
        ensures
            final(self)@ == old(self)@.remove(id),
            previous is Some <==> old(self)@.contains_key(id),
            previous matches Some(p) ==> p == old(self)@[id],
    {
        let i = id as usize;
        if i < self.slots.len() && self.slots[i].is_some() {
            let mut cell = None;
            std::mem::swap(&mut self.slots[i], &mut cell);
            assert(self@ =~= old(self)@.remove(id));
            cell
        } else {
            assert(self@ =~= old(self)@.remove(id));
            None
        }
    }

    /// The indices that hold a record, in ascending order.
    pub fn ids(&self) -> (r: Vec<u32>)
        ensures
            ascending(r@, self@.dom()),
    {
        let mut out: Vec<u32> = Vec::new();
        let mut i: usize = 0;
        while i < self.slots.len() && i <= u32::MAX as usize
            invariant
                0 <= i <= self.slots.len(),
                i <= u32::MAX + 1,
                forall|a: int, b: int| 0 <= a < b < out.len() ==> out[a] < out[b],
                forall|a: int| 0 <= a < out.len() ==> out[a] < i,
                forall|id: u32| out@.contains(id) <==> id < i && self@.contains_key(id),
            decreases self.slots.len() - i,
        {
            if self.slots[i].is_some() {
                let ghost prev = out@;
                out.push(i as u32);
                assert forall|id: u32| out@.contains(id) <==> id < i + 1 && self@.contains_key(
                    id,
                ) by {
                    if out@.contains(id) {
                        let k = choose|k: int| 0 <= k < out@.len() && out@[k] == id;
                        if k < prev.len() {
                            assert(prev[k] == id);
                            assert(prev.contains(id));
                        }
                    }
                    if id < i + 1 && self@.contains_key(id) {
                        if id < i {
                            assert(prev.contains(id));
                            let k = choose|k: int| 0 <= k < prev.len() && prev[k] == id;
                            assert(out@[k] == id);
                        } else {
                            assert(out@[prev.len() as int] == id);
                        }
                    }
                }
            }
            i += 1;
        }
        out
    }

    /// Takes every record away.
    pub fn clear(&mut self)
        ensures
            final(self)@ == Map::<u32, T>::empty(),
    {
        self.slots.clear();
        assert(self@ =~= Map::<u32, T>::empty());
    }
}

/// A store that logs every change it undergoes, for those who follow it.
pub struct FlaggedStorage<T> {
    records: Storage<T>,
    log: Vec<ComponentEvent>,
}

impl<T> View for FlaggedStorage<T> {
    type V = Map<u32, T>;

    /// The records held, by entity index.
    closed spec fn view(&self) -> Map<u32, T> {
        self.records@
    }
}

impl<T> FlaggedStorage<T> {
    /// Every change applied to the store so far, oldest first.
    pub closed spec fn events(&self) -> Seq<ComponentEvent> {
        self.log@
    }

    /// The event that attaching a record to `id` adds to the log of a store
    /// that holds records for `held`.
    pub open spec fn insert_event(held: Set<u32>, id: u32) -> ComponentEvent {
        if held.contains(id) {
            ComponentEvent::Modified(id)
        } else {
            ComponentEvent::Inserted(id)
        }
    }

    /// The log of a store that held records for `held` after the record of
    /// `id` is taken away.
    pub open spec fn log_without(log: Seq<ComponentEvent>, held: Set<u32>, id: u32) -> Seq<
        ComponentEvent,
    > {
        if held.contains(id) {
            log.push(ComponentEvent::Removed(id))
        } else {
            log
        }
    }

    /// The store is `before` with a record attached to `id`: every other
    /// record is as it was, and the log has grown by the one event.
    pub open spec fn attached_to(&self, before: &FlaggedStorage<T>, id: u32) -> bool {
        &&& self@.dom() == before@.dom().insert(id)
        &&& forall|other: u32|
            other != id && before@.contains_key(other) ==> self@[other] == before@[other]
        &&& self.events() == before.events().push(Self::insert_event(before@.dom(), id))
    }

    pub fn new() -> (s: FlaggedStorage<T>)
        ensures
            s@ == Map::<u32, T>::empty(),
            s.events() == Seq::<ComponentEvent>::empty(),
    {
        FlaggedStorage { records: Storage::new(), log: Vec::new() }
    }

    pub fn contains(&self, id: u32) -> (b: bool)
        ensures
            b == self@.contains_key(id),
    {
        self.records.contains(id)
    }

    pub fn get(&self, id: u32) -> (r: Option<&T>)
        ensures
            r is Some <==> self@.contains_key(id),
            r matches Some(v) ==> *v == self@[id],
    {
        self.records.get(id)
    }

    /// Attaches `value` to `id`, replacing wholesale what was there, and logs
    /// an insert or an update accordingly. Returns the record replaced.
    pub fn insert(&mut self, id: u32, value: T) -> (previous: Option<T>)
        ensures
            final(self)@ == old(self)@.insert(id, value),
            final(self).events() == old(self).events().push(
                Self::insert_event(old(self)@.dom(), id),
            ),
            final(self).attached_to(old(self), id),
            previous is Some <==> old(self)@.contains_key(id),
            previous matches Some(p) ==> p == old(self)@[id],
    {
        let previous = self.records.insert(id, value);
        if previous.is_some() {
            self.log.push(ComponentEvent::Modified(id));
        } else {
            self.log.push(ComponentEvent::Inserted(id));
        }
        previous
    }

    /// Takes the record of `id` away and logs the removal. A store that holds
    /// nothing for `id` is left as it was, log included.
    pub fn remove(&mut self, id: u32) -> (previous: Option<T>)
        ensures
            final(self)@ == old(self)@.remove(id),
            final(self).events() == Self::log_without(old(self).events(), old(self)@.dom(), id),
            previous is Some <==> old(self)@.contains_key(id),
            previous matches Some(p) ==> p == old(self)@[id],
    {
        let previous = self.records.remove(id);
        if previous.is_some() {
            self.log.push(ComponentEvent::Removed(id));
        }
        previous
    }

    /// The indices that hold a record, in ascending order.
    pub fn ids(&self) -> (r: Vec<u32>)
        ensures
            ascending(r@, self@.dom()),
    {
        self.records.ids()
    }

    /// The number of events logged so far.
    pub fn event_count(&self) -> (n: usize)
        ensures
            n == self.events().len(),
    {
        self.log.len()
    }

    /// The event at position `at` of the log.
    pub fn event(&self, at: usize) -> (e: ComponentEvent)
        requires
            at < self.events().len(),
        ensures
            e == self.events()[at as int],
    {
        self.log[at]
    }
}

} // verus!

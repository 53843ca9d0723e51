//! Everything a frame reads and writes: the entities and their records.

use vstd::prelude::*;
use crate::button::Button;
use crate::components::{Invisible, Name, Text};
use crate::constraint::Constraints;
use crate::entity::{Entities, Entity};
use crate::event::{Events, Mouse};
use crate::geometry::{ContentSize, ElementBox, WindowSize};
use crate::picture::Picture;
use crate::shrinkwrap::Shrinkwrap;
use crate::storage::{ComponentEvent, FlaggedStorage, Storage};
use crate::variable::{VariableX, VariableY, VariableZ};

verus! {

/// The component store: one keyed store per kind of record, the entity
/// allocator, and the two samples the outside hands in every frame.
pub struct World {
    pub entities: Entities,
    pub constraints_x: FlaggedStorage<Constraints<VariableX>>,
    pub constraints_y: FlaggedStorage<Constraints<VariableY>>,
    pub constraints_z: FlaggedStorage<Constraints<VariableZ>>,
    pub element_boxes: Storage<ElementBox>,
    pub content_sizes: Storage<ContentSize>,
    pub shrinkwraps: Storage<Shrinkwrap>,
    pub events: Storage<Events>,
    pub names: Storage<Name>,
    pub pictures: Storage<Picture>,
    pub texts: Storage<Text>,
    pub invisibles: Storage<Invisible>,
    pub buttons: Storage<Button>,
    pub mouse: Mouse,
    pub window_size: WindowSize,
}

impl World {
    /// The world has no entities and no records, its logs are empty, the
    /// pointer is at rest and the viewport empty.
    pub open spec fn pristine(&self) -> bool {
        &&& self.entities.slots() == 0
        &&& self.entities.has_room()
        &&& forall|id: u32| self.entities.occupant(id) is None
        &&& forall|id: u32| self.entities.generation_at(id) is None
        &&& self.constraints_x@ == Map::<u32, Constraints<VariableX>>::empty()
        &&& self.constraints_y@ == Map::<u32, Constraints<VariableY>>::empty()
        &&& self.constraints_z@ == Map::<u32, Constraints<VariableZ>>::empty()
        &&& self.constraints_x.events() == Seq::<ComponentEvent>::empty()
        &&& self.constraints_y.events() == Seq::<ComponentEvent>::empty()
        &&& self.constraints_z.events() == Seq::<ComponentEvent>::empty()
        &&& self.element_boxes@ == Map::<u32, ElementBox>::empty()
        &&& self.content_sizes@ == Map::<u32, ContentSize>::empty()
        &&& self.shrinkwraps@ == Map::<u32, Shrinkwrap>::empty()
        &&& self.events@ == Map::<u32, Events>::empty()
        &&& self.names@ == Map::<u32, Name>::empty()
        &&& self.pictures@ == Map::<u32, Picture>::empty()
        &&& self.texts@ == Map::<u32, Text>::empty()
        &&& self.invisibles@ == Map::<u32, Invisible>::empty()
        &&& self.buttons@ == Map::<u32, Button>::empty()
        &&& self.mouse == Mouse::at_rest()
        &&& self.window_size == (WindowSize { width: 0, height: 0 })
    }

    /// A world without entities or records.
    pub fn new() -> (w: World)
        ensures
            w.pristine(),
    {
        World {
            entities: Entities::new(),
            constraints_x: FlaggedStorage::new(),
            constraints_y: FlaggedStorage::new(),
            constraints_z: FlaggedStorage::new(),
            element_boxes: Storage::new(),
            content_sizes: Storage::new(),
            shrinkwraps: Storage::new(),
            events: Storage::new(),
            names: Storage::new(),
            pictures: Storage::new(),
            texts: Storage::new(),
            invisibles: Storage::new(),
            buttons: Storage::new(),
            mouse: Mouse::default(),
            window_size: WindowSize::default(),
        }
    }

    /// What is left of the world `before` once `e` and every record attached
    /// to it are gone.
    pub open spec fn without(&self, before: &World, e: Entity) -> bool {
        let id = e.id();
        &&& self.entities.occupant(id) is None
        &&& self.entities.slots() == before.entities.slots()
        &&& forall|other: u32|
            other != id ==> self.entities.occupant(other) == before.entities.occupant(other)
        &&& forall|other: u32|
            self.entities.generation_at(other) == before.entities.generation_at(other)
        &&& self.constraints_x@ == before.constraints_x@.remove(id)
        &&& self.constraints_y@ == before.constraints_y@.remove(id)
        &&& self.constraints_z@ == before.constraints_z@.remove(id)
        &&& self.constraints_x.events() == FlaggedStorage::<Constraints<VariableX>>::log_without(
            before.constraints_x.events(),
            before.constraints_x@.dom(),
            id,
        )
        &&& self.constraints_y.events() == FlaggedStorage::<Constraints<VariableY>>::log_without(
            before.constraints_y.events(),
            before.constraints_y@.dom(),
            id,
        )
        &&& self.constraints_z.events() == FlaggedStorage::<Constraints<VariableZ>>::log_without(
            before.constraints_z.events(),
            before.constraints_z@.dom(),
            id,
        )
        &&& self.element_boxes@ == before.element_boxes@.remove(id)
        &&& self.content_sizes@ == before.content_sizes@.remove(id)
        &&& self.shrinkwraps@ == before.shrinkwraps@.remove(id)
        &&& self.events@ == before.events@.remove(id)
        &&& self.names@ == before.names@.remove(id)
        &&& self.pictures@ == before.pictures@.remove(id)
        &&& self.texts@ == before.texts@.remove(id)
        &&& self.invisibles@ == before.invisibles@.remove(id)
        &&& self.buttons@ == before.buttons@.remove(id)
        &&& self.mouse == before.mouse
        &&& self.window_size == before.window_size
    }

    /// Deletes the entity and takes every record attached to it away, which
    /// the stores log as removals. A stale reference changes nothing.
    pub fn delete_entity(&mut self, e: Entity) -> (was_live: bool)
        ensures
            was_live == old(self).entities.is_live(e),
            was_live ==> final(self).without(old(self), e),
            !was_live ==> *final(self) == *old(self),
    {
        if !self.entities.delete(e) {
            return false;
        }
        let id = e.id();
        self.constraints_x.remove(id);
        self.constraints_y.remove(id);
        self.constraints_z.remove(id);
        self.element_boxes.remove(id);
        self.content_sizes.remove(id);
        self.shrinkwraps.remove(id);
        self.events.remove(id);
        self.names.remove(id);
        self.pictures.remove(id);
        self.texts.remove(id);
        self.invisibles.remove(id);
        self.buttons.remove(id);
        true
    }
}

/// A kind of record with a plain store of its own in the world.
pub trait Component: Sized {
    /// The records of this kind in the world, by entity index.
    spec fn records(world: &World) -> Map<u32, Self>;

    /// The world `after` is the world `before` but for the store of this
    /// kind.
    spec fn rest_kept(before: &World, after: &World) -> bool;

    /// A world that did not change is itself but for the store of this kind.
    proof fn lemma_rest_kept(world: &World)
        ensures
            Self::rest_kept(world, world),
    ;

    /// The record of this kind attached to `id`, if there is one.
    fn get(world: &World, id: u32) -> (r: Option<&Self>)
        ensures
            r is Some <==> Self::records(world).contains_key(id),
            r matches Some(v) ==> *v == Self::records(world)[id],
    ;

    /// Attaches the record to `id`, replacing the one that was there, or takes
    /// the record of `id` away where none is given.
    fn set(world: &mut World, id: u32, record: Option<Self>)
        ensures
            Self::rest_kept(old(world), final(world)),
            Self::records(final(world)) == (match record {
                Some(c) => Self::records(old(world)).insert(id, c),
                None => Self::records(old(world)).remove(id),
            }),
    ;
}

impl Component for Text {
    open spec fn records(world: &World) -> Map<u32, Text> {
        world.texts@
    }

    open spec fn rest_kept(before: &World, after: &World) -> bool {
        *after == (World { texts: after.texts, ..*before })
    }

    proof fn lemma_rest_kept(world: &World) {
    }

    fn get(world: &World, id: u32) -> (r: Option<&Text>) {
        world.texts.get(id)
    }

    fn set(world: &mut World, id: u32, record: Option<Text>) {
        match record {
            Some(c) => {
                world.texts.insert(id, c);
            },
            None => {
                world.texts.remove(id);
            },
        }
    }
}

impl Component for Name {
    open spec fn records(world: &World) -> Map<u32, Name> {
        world.names@
    }

    open spec fn rest_kept(before: &World, after: &World) -> bool {
        *after == (World { names: after.names, ..*before })
    }

    proof fn lemma_rest_kept(world: &World) {
    }

    fn get(world: &World, id: u32) -> (r: Option<&Name>) {
        world.names.get(id)
    }

    fn set(world: &mut World, id: u32, record: Option<Name>) {
        match record {
            Some(c) => {
                world.names.insert(id, c);
            },
            None => {
                world.names.remove(id);
            },
        }
    }
}

impl Component for Picture {
    open spec fn records(world: &World) -> Map<u32, Picture> {
        world.pictures@
    }

    open spec fn rest_kept(before: &World, after: &World) -> bool {
        *after == (World { pictures: after.pictures, ..*before })
    }

    proof fn lemma_rest_kept(world: &World) {
    }

    fn get(world: &World, id: u32) -> (r: Option<&Picture>) {
        world.pictures.get(id)
    }

    fn set(world: &mut World, id: u32, record: Option<Picture>) {
        match record {
            Some(c) => {
                world.pictures.insert(id, c);
            },
            None => {
                world.pictures.remove(id);
            },
        }
    }
}

impl Component for ElementBox {
    open spec fn records(world: &World) -> Map<u32, ElementBox> {
        world.element_boxes@
    }

    open spec fn rest_kept(before: &World, after: &World) -> bool {
        *after == (World { element_boxes: after.element_boxes, ..*before })
    }

    proof fn lemma_rest_kept(world: &World) {
    }

    fn get(world: &World, id: u32) -> (r: Option<&ElementBox>) {
        world.element_boxes.get(id)
    }

    fn set(world: &mut World, id: u32, record: Option<ElementBox>) {
        match record {
            Some(c) => {
                world.element_boxes.insert(id, c);
            },
            None => {
                world.element_boxes.remove(id);
            },
        }
    }
}

impl Component for ContentSize {
    open spec fn records(world: &World) -> Map<u32, ContentSize> {
        world.content_sizes@
    }

    open spec fn rest_kept(before: &World, after: &World) -> bool {
        *after == (World { content_sizes: after.content_sizes, ..*before })
    }

    proof fn lemma_rest_kept(world: &World) {
    }

    fn get(world: &World, id: u32) -> (r: Option<&ContentSize>) {
        world.content_sizes.get(id)
    }

    fn set(world: &mut World, id: u32, record: Option<ContentSize>) {
        match record {
            Some(c) => {
                world.content_sizes.insert(id, c);
            },
            None => {
                world.content_sizes.remove(id);
            },
        }
    }
}

impl Component for Shrinkwrap {
    open spec fn records(world: &World) -> Map<u32, Shrinkwrap> {
        world.shrinkwraps@
    }

    open spec fn rest_kept(before: &World, after: &World) -> bool {
        *after == (World { shrinkwraps: after.shrinkwraps, ..*before })
    }

    proof fn lemma_rest_kept(world: &World) {
    }

    fn get(world: &World, id: u32) -> (r: Option<&Shrinkwrap>) {
        world.shrinkwraps.get(id)
    }

    fn set(world: &mut World, id: u32, record: Option<Shrinkwrap>) {
        match record {
            Some(c) => {
                world.shrinkwraps.insert(id, c);
            },
            None => {
                world.shrinkwraps.remove(id);
            },
        }
    }
}

impl Component for Events {
    open spec fn records(world: &World) -> Map<u32, Events> {
        world.events@
    }

    open spec fn rest_kept(before: &World, after: &World) -> bool {
        *after == (World { events: after.events, ..*before })
    }

    proof fn lemma_rest_kept(world: &World) {
    }

    fn get(world: &World, id: u32) -> (r: Option<&Events>) {
        world.events.get(id)
    }

    fn set(world: &mut World, id: u32, record: Option<Events>) {
        match record {
            Some(c) => {
                world.events.insert(id, c);
            },
            None => {
                world.events.remove(id);
            },
        }
    }
}

impl Component for Invisible {
    open spec fn records(world: &World) -> Map<u32, Invisible> {
        world.invisibles@
    }

    open spec fn rest_kept(before: &World, after: &World) -> bool {
        *after == (World { invisibles: after.invisibles, ..*before })
    }

    proof fn lemma_rest_kept(world: &World) {
    }

    fn get(world: &World, id: u32) -> (r: Option<&Invisible>) {
        world.invisibles.get(id)
    }

    fn set(world: &mut World, id: u32, record: Option<Invisible>) {
        match record {
            Some(c) => {
                world.invisibles.insert(id, c);
            },
            None => {
                world.invisibles.remove(id);
            },
        }
    }
}

impl Component for Button {
    open spec fn records(world: &World) -> Map<u32, Button> {
        world.buttons@
    }

    open spec fn rest_kept(before: &World, after: &World) -> bool {
        *after == (World { buttons: after.buttons, ..*before })
    }

    proof fn lemma_rest_kept(world: &World) {
    }

    fn get(world: &World, id: u32) -> (r: Option<&Button>) {
        world.buttons.get(id)
    }

    fn set(world: &mut World, id: u32, record: Option<Button>) {
        match record {
            Some(c) => {
                world.buttons.insert(id, c);
            },
            None => {
                world.buttons.remove(id);
            },
        }
    }
}

} // verus!

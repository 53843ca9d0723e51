//! Pointer hit testing and the interaction events derived from it.
//!
//! Every frame the engine compares the pointer with its state of the frame
//! before and with each entity's solved rectangle, and gives each entity the
//! events of that frame. Events are edge-triggered: they are raised on the
//! frame a condition changes, not on every frame it holds.

use vstd::prelude::*;
use crate::entity::{Entities, Entity};
use crate::geometry::ElementBox;
use crate::storage::{ascending, Storage};

verus! {

/// The pointer state: position and the three buttons.
#[derive(Clone, Copy, Debug, PartialEq, Eq, Structural)]
pub struct Mouse {
    pub x: i32,
    pub y: i32,
    pub left_btn_down: bool,
    pub middle_btn_down: bool,
    pub right_btn_down: bool,
}

impl Mouse {
    /// The pointer at the origin with no button held.
    pub open spec fn at_rest() -> Mouse {
        Mouse { x: 0, y: 0, left_btn_down: false, middle_btn_down: false, right_btn_down: false }
    }
}

impl Default for Mouse {
    fn default() -> (m: Mouse)
        ensures
            m == Mouse::at_rest(),
    {
        Mouse { x: 0, y: 0, left_btn_down: false, middle_btn_down: false, right_btn_down: false }
    }
}

/// An interaction event of one entity in one frame.
#[derive(Clone, Copy, Debug, PartialEq, Eq, Structural)]
pub enum Event {
    /// The pointer entered the rectangle.
    MouseOver,
    /// The pointer moved while inside the rectangle.
    MouseMove,
    /// The pointer left the rectangle.
    MouseOut,
    /// The left button went down inside the rectangle.
    MouseDown,
    /// The left button went up inside the rectangle.
    MouseUp,
}

/// The events of one entity in one frame, in the order they were derived.
#[derive(Clone, Debug, PartialEq)]
pub struct Events(pub Vec<Event>);

impl View for Events {
    type V = Seq<Event>;

    open spec fn view(&self) -> Seq<Event> {
        self.0@
    }
}

impl Events {
    /// Whether the list holds `event`.
    pub fn contains(&self, event: Event) -> (b: bool)
        ensures
            b == self@.contains(event),
    {
        let mut i: usize = 0;
        while i < self.0.len()
            invariant
                0 <= i <= self.0.len(),
                forall|j: int| 0 <= j < i ==> self@[j] != event,
            decreases self.0.len() - i,
        {
            if self.0[i] == event {
                return true;
            }
            i += 1;
        }
        false
    }
}

/// The left button went down between the two samples.
pub open spec fn pressed_edge(previous: Mouse, current: Mouse) -> bool {
    current.left_btn_down && !previous.left_btn_down
}

/// The left button went up between the two samples.
pub open spec fn released_edge(previous: Mouse, current: Mouse) -> bool {
    !current.left_btn_down && previous.left_btn_down
}

/// The pointer is at another place than in the sample before.
pub open spec fn has_moved(previous: Mouse, current: Mouse) -> bool {
    current.x != previous.x || current.y != previous.y
}

/// The button event of an entity, if any: a release takes precedence over a
/// press, and neither is raised outside the rectangle.
pub open spec fn button_events(inside: bool, previous: Mouse, current: Mouse) -> Seq<Event> {
    if inside && released_edge(previous, current) {
        seq![Event::MouseUp]
    } else if inside && pressed_edge(previous, current) {
        seq![Event::MouseDown]
    } else {
        Seq::empty()
    }
}

/// The hover event of an entity, if any.
pub open spec fn hover_events(inside: bool, hovered: bool, previous: Mouse, current: Mouse) -> Seq<
    Event,
> {
    if inside && hovered {
        if has_moved(previous, current) {
            seq![Event::MouseMove]
        } else {
            Seq::empty()
        }
    } else if inside {
        seq![Event::MouseOver]
    } else if hovered {
        seq![Event::MouseOut]
    } else {
        Seq::empty()
    }
}

/// The events of one entity in one frame: given whether the pointer is inside
/// its rectangle now, whether the entity was hovered before, and the two
/// pointer samples. The button event comes first.
pub open spec fn derived_events(inside: bool, hovered: bool, previous: Mouse, current: Mouse) -> Seq<
    Event,
> {
    button_events(inside, previous, current) + hover_events(inside, hovered, previous, current)
}

/// Whether `v` holds `id`.
fn holds(v: &Vec<u32>, id: u32) -> (b: bool)
    ensures
        b == v@.contains(id),
{
    let mut i: usize = 0;
    while i < v.len()
        invariant
            0 <= i <= v.len(),
            forall|j: int| 0 <= j < i ==> v@[j] != id,
        decreases v.len() - i,
    {
        if v[i] == id {
            return true;
        }
        i += 1;
    }
    false
}

/// The items of `v` other than `id`, in their order.
fn without(v: &Vec<u32>, id: u32) -> (r: Vec<u32>)
    ensures
        forall|x: u32| r@.contains(x) <==> v@.contains(x) && x != id,
{
    let mut out: Vec<u32> = Vec::new();
    let mut i: usize = 0;
    while i < v.len()
        invariant
            0 <= i <= v.len(),
            forall|x: u32| out@.contains(x) <==> v@.take(i as int).contains(x) && x != id,
        decreases v.len() - i,
    {
        let ghost prev = out@;
        let ghost head = v@.take(i as int);
        let item = v[i];
        if item != id {
            out.push(item);
        }
        proof {
            let next = v@.take(i + 1);
            assert(next == head.push(item));
            assert forall|x: u32| out@.contains(x) <==> next.contains(x) && x != id by {
                if out@.contains(x) {
                    let k = choose|k: int| 0 <= k < out@.len() && out@[k] == x;
                    if k < prev.len() {
                        assert(prev[k] == x);
                        assert(prev.contains(x));
                        let h = choose|h: int| 0 <= h < head.len() && head[h] == x;
                        assert(next[h] == x);
                    } else {
                        assert(next[i as int] == x);
                    }
                }
                if next.contains(x) && x != id {
                    let h = choose|h: int| 0 <= h < next.len() && next[h] == x;
                    if h < i {
                        assert(head[h] == x);
                        assert(head.contains(x));
                        assert(prev.contains(x));
                        let k = choose|k: int| 0 <= k < prev.len() && prev[k] == x;
                        assert(out@[k] == x);
                    } else {
                        assert(out@[prev.len() as int] == x);
                    }
                }
            }
        }
        i += 1;
    }
    assert(v@.take(i as int) == v@);
    out
}

/// The interaction engine: the pointer sample of the frame before, and the
/// entities the pointer was last found inside.
pub struct EventSystem {
    mouse: Mouse,
    entities_mouse_is_over: Vec<u32>,
}

impl EventSystem {
    /// The pointer sample of the frame before.
    pub closed spec fn previous(&self) -> Mouse {
        self.mouse
    }

    /// The indices of the entities currently considered hovered.
    pub closed spec fn hovered(&self) -> Set<u32> {
        Set::new(|id: u32| self.entities_mouse_is_over@.contains(id))
    }

    pub fn new() -> (s: EventSystem)
        ensures
            s.previous() == Mouse::at_rest(),
            s.hovered() == Set::<u32>::empty(),
    {
        let s = EventSystem { mouse: Mouse::default(), entities_mouse_is_over: Vec::new() };
        assert(s.hovered() =~= Set::<u32>::empty());
        s
    }

    /// Whether the entity with index `id` is considered hovered.
    pub fn is_hovered(&self, id: u32) -> (b: bool)
        ensures
            b == self.hovered().contains(id),
    {
        holds(&self.entities_mouse_is_over, id)
    }

    /// Derives the events of one entity for the pointer sample `mouse` and
    /// brings the hovered set up to date for it. `None` stands for no event.
    pub fn determine_current_events(
        &mut self,
        ent: Entity,
        element_box: &ElementBox,
        mouse: &Mouse,
    ) -> (r: Option<Events>)
        ensures
            final(self).previous() == old(self).previous(),
            final(self).hovered() == (if element_box.covers(mouse.x as int, mouse.y as int) {
                old(self).hovered().insert(ent.id())
            } else {
                old(self).hovered().remove(ent.id())
            }),
            r is Some <==> derived_events(
                element_box.covers(mouse.x as int, mouse.y as int),
                old(self).hovered().contains(ent.id()),
                old(self).previous(),
                *mouse,
            ).len() > 0,
            r matches Some(events) ==> events@ == derived_events(
                element_box.covers(mouse.x as int, mouse.y as int),
                old(self).hovered().contains(ent.id()),
                old(self).previous(),
                *mouse,
            ),
    {
        let id = ent.id();
        let mut events: Vec<Event> = Vec::new();
        let mouse_is_over = element_box.contains_point(mouse.x, mouse.y);
        let was_previously_over = holds(&self.entities_mouse_is_over, id);
        let mouse_has_moved = mouse.x != self.mouse.x || mouse.y != self.mouse.y;
        let left_went_down = mouse.left_btn_down && !self.mouse.left_btn_down;
        let left_went_up = !mouse.left_btn_down && self.mouse.left_btn_down;
        let ghost expected = derived_events(
            mouse_is_over,
            was_previously_over,
            self.mouse,
            *mouse,
        );

        if mouse_is_over {
            if left_went_up {
                events.push(Event::MouseUp);
            } else if left_went_down {
                events.push(Event::MouseDown);
            }
            if was_previously_over {
                if mouse_has_moved {
                    events.push(Event::MouseMove);
                }
            } else {
                events.push(Event::MouseOver);
                let ghost before = self.entities_mouse_is_over@;
                self.entities_mouse_is_over.push(id);
                assert forall|x: u32|
                    self.entities_mouse_is_over@.contains(x) <==> before.contains(x) || x
                        == id by {
                    if before.contains(x) {
                        let k = choose|k: int| 0 <= k < before.len() && before[k] == x;
                        assert(self.entities_mouse_is_over@[k] == x);
                    }
                    if x == id {
                        assert(self.entities_mouse_is_over@[before.len() as int] == x);
                    }
                }
            }
            assert(self.hovered() =~= old(self).hovered().insert(id));
        } else {
            if was_previously_over {
                events.push(Event::MouseOut);
                self.entities_mouse_is_over = without(&self.entities_mouse_is_over, id);
            }
            assert(self.hovered() =~= old(self).hovered().remove(id));
        }
        assert(events@ =~= expected);
        if events.len() > 0 {
            Some(Events(events))
        } else {
            None
        }
    }

    /// What a frame does: `self` is the engine after a frame that began with
    /// the engine `before`, and `events` are the events of that frame.
    ///
    /// The pointer sample is stored for the next frame. An entity that takes
    /// part is hovered exactly if the pointer is inside its rectangle; the
    /// others stay as they were. An entity has an event list exactly if it
    /// takes part and the frame derives an event for it, and the list holds
    /// the events derived.
    pub open spec fn stepped(
        &self,
        before: &EventSystem,
        entities: &Entities,
        mouse: Mouse,
        boxes: Map<u32, ElementBox>,
        events: Map<u32, Events>,
    ) -> bool {
        &&& self.previous() == mouse
        &&& forall|id: u32|
            self.hovered().contains(id) == (if takes_part(entities, boxes, id) {
                boxes[id].covers(mouse.x as int, mouse.y as int)
            } else {
                before.hovered().contains(id)
            })
        &&& forall|id: u32|
            #[trigger] events.contains_key(id) <==> takes_part(entities, boxes, id)
                && frame_events(
                boxes[id],
                before.hovered().contains(id),
                before.previous(),
                mouse,
            ).len() > 0
        &&& forall|id: u32|
            #[trigger] events.contains_key(id) ==> events[id]@ == frame_events(
                boxes[id],
                before.hovered().contains(id),
                before.previous(),
                mouse,
            )
    }

    /// Runs one frame: drops the events of the frame before, derives the
    /// events of every live entity that has a rectangle, and stores `mouse` as
    /// the sample to compare the next frame with.
    pub fn run(
        &mut self,
        entities: &Entities,
        mouse: &Mouse,
        element_boxes: &Storage<ElementBox>,
        events: &mut Storage<Events>,
    )
        ensures
            final(self).stepped(old(self), entities, *mouse, element_boxes@, final(events)@),
    {
        // Remove any events that were in the store before.
        events.clear();

        // Figure out the new events.
        let ids = element_boxes.ids();
        let mut k: usize = 0;
        while k < ids.len()
            invariant
                0 <= k <= ids.len(),
                ascending(ids@, element_boxes@.dom()),
                self.previous() == old(self).previous(),
                forall|id: u32|
                    self.hovered().contains(id) == (if ids@.take(k as int).contains(id)
                        && takes_part(entities, element_boxes@, id) {
                        element_boxes@[id].covers(mouse.x as int, mouse.y as int)
                    } else {
                        old(self).hovered().contains(id)
                    }),
                forall|id: u32|
                    #[trigger] events@.contains_key(id) <==> ids@.take(k as int).contains(id)
                        && takes_part(entities, element_boxes@, id) && frame_events(
                        element_boxes@[id],
                        old(self).hovered().contains(id),
                        old(self).previous(),
                        *mouse,
                    ).len() > 0,
                forall|id: u32|
                    #[trigger] events@.contains_key(id) ==> events@[id]@ == frame_events(
                        element_boxes@[id],
                        old(self).hovered().contains(id),
                        old(self).previous(),
                        *mouse,
                    ),
            decreases ids.len() - k,
        {
            let id = ids[k];
            let ghost head = ids@.take(k as int);
            let ghost next = ids@.take(k + 1);
            proof {
                assert(next == head.push(id));
                assert(ids@.contains(id));
                assert(!head.contains(id)) by {
                    if head.contains(id) {
                        let j = choose|j: int| 0 <= j < head.len() && head[j] == id;
                        assert(ids[j] < ids[k as int]);
                    }
                }
                assert forall|x: u32| next.contains(x) <==> head.contains(x) || x == id by {
                    if head.contains(x) {
                        let j = choose|j: int| 0 <= j < head.len() && head[j] == x;
                        assert(next[j] == x);
                    }
                    if x == id {
                        assert(next[k as int] == x);
                    }
                    if next.contains(x) {
                        let j = choose|j: int| 0 <= j < next.len() && next[j] == x;
                        if j < k {
                            assert(head[j] == x);
                        }
                    }
                }
            }
            let ghost hovered_before = self.hovered();
            let ghost events_before = events@;
            assert(hovered_before.contains(id) == old(self).hovered().contains(id));
            assert(!events_before.contains_key(id));
            match entities.entity(id) {
                Some(ent) => {
                    match element_boxes.get(id) {
                        Some(element_box) => {
                            let found = self.determine_current_events(ent, element_box, mouse);
                            match found {
                                Some(evs) => {
                                    events.insert(id, evs);
                                },
                                None => {},
                            }
                        },
                        None => {},
                    }
                },
                None => {},
            }
            proof {
                assert forall|x: u32|
                    self.hovered().contains(x) == (if next.contains(x) && takes_part(
                        entities,
                        element_boxes@,
                        x,
                    ) {
                        element_boxes@[x].covers(mouse.x as int, mouse.y as int)
                    } else {
                        old(self).hovered().contains(x)
                    }) by {
                    if x != id {
                        assert(self.hovered().contains(x) == hovered_before.contains(x));
                    }
                }
                assert forall|x: u32| #[trigger]
                    events@.contains_key(x) <==> next.contains(x) && takes_part(
                        entities,
                        element_boxes@,
                        x,
                    ) && frame_events(
                        element_boxes@[x],
                        old(self).hovered().contains(x),
                        old(self).previous(),
                        *mouse,
                    ).len() > 0 by {
                    if x != id {
                        assert(events@.contains_key(x) == events_before.contains_key(x));
                    }
                }
                assert forall|x: u32| #[trigger] events@.contains_key(x) implies events@[x]@
                    == frame_events(
                    element_boxes@[x],
                    old(self).hovered().contains(x),
                    old(self).previous(),
                    *mouse,
                ) by {
                    if x != id {
                        assert(events_before.contains_key(x));
                        assert(events@[x] == events_before[x]);
                    }
                }
            }
            k += 1;
        }
        assert(ids@.take(k as int) == ids@);

        // Update the stored mouse.
        self.mouse = *mouse;
    }
}

/// Whether the entity index takes part in a frame: a live entity occupies it
/// and a rectangle is stored for it.
pub open spec fn takes_part(entities: &Entities, boxes: Map<u32, ElementBox>, id: u32) -> bool {
    entities.occupant(id) is Some && boxes.contains_key(id)
}

/// The events of an entity with rectangle `b` in a frame.
pub open spec fn frame_events(b: ElementBox, hovered: bool, previous: Mouse, current: Mouse) -> Seq<
    Event,
> {
    derived_events(b.covers(current.x as int, current.y as int), hovered, previous, current)
}

} // verus!

use berry::entity::{Entities, Entity};
use berry::event::{Event, EventSystem, Events, Mouse};
use berry::geometry::ElementBox;
use berry::storage::Storage;

fn pointer(x: i32, y: i32, left: bool) -> Mouse {
    Mouse { x, y, left_btn_down: left, middle_btn_down: false, right_btn_down: false }
}

fn square() -> ElementBox {
    ElementBox { x: 0, y: 0, z: 0, width: 100, height: 100 }
}

struct Scene {
    entities: Entities,
    boxes: Storage<ElementBox>,
    events: Storage<Events>,
    system: EventSystem,
    entity: Entity,
}

fn scene() -> Scene {
    let mut entities = Entities::new();
    let entity = entities.create().unwrap();
    let mut boxes = Storage::new();
    boxes.insert(entity.id(), square());
    Scene { entities, boxes, events: Storage::new(), system: EventSystem::new(), entity }
}

fn frame(s: &mut Scene, mouse: Mouse) -> Vec<Event> {
    s.system.run(&s.entities, &mouse, &s.boxes, &mut s.events);
    match s.events.get(s.entity.id()) {
        Some(events) => events.0.clone(),
        None => vec![],
    }
}

#[test]
fn pointer_enters_moves_and_leaves() {
    let mut s = scene();
    assert_eq!(frame(&mut s, pointer(50, 50, false)), vec![Event::MouseOver]);
    assert_eq!(frame(&mut s, pointer(50, 50, false)), vec![]);
    assert_eq!(frame(&mut s, pointer(60, 60, false)), vec![Event::MouseMove]);
    assert_eq!(frame(&mut s, pointer(200, 200, false)), vec![Event::MouseOut]);
    assert_eq!(frame(&mut s, pointer(200, 200, false)), vec![]);
}

#[test]
fn press_then_release_inside() {
    let mut s = scene();
    assert_eq!(frame(&mut s, pointer(50, 50, false)), vec![Event::MouseOver]);
    assert_eq!(frame(&mut s, pointer(50, 50, true)), vec![Event::MouseDown]);
    assert_eq!(frame(&mut s, pointer(50, 50, true)), vec![]);
    assert_eq!(frame(&mut s, pointer(50, 50, false)), vec![Event::MouseUp]);
    assert_eq!(frame(&mut s, pointer(50, 50, false)), vec![]);
}

#[test]
fn button_event_comes_before_the_hover_event() {
    let mut s = scene();
    assert_eq!(frame(&mut s, pointer(300, 300, false)), vec![]);
    assert_eq!(frame(&mut s, pointer(10, 10, true)), vec![Event::MouseDown, Event::MouseOver]);
    assert_eq!(frame(&mut s, pointer(20, 10, false)), vec![Event::MouseUp, Event::MouseMove]);
}

#[test]
fn press_outside_raises_nothing() {
    let mut s = scene();
    assert_eq!(frame(&mut s, pointer(300, 300, true)), vec![]);
    assert_eq!(frame(&mut s, pointer(300, 300, false)), vec![]);
    assert!(s.events.get(s.entity.id()).is_none());
}

#[test]
fn all_four_sides_are_inside() {
    for (x, y) in [(0, 0), (100, 0), (0, 100), (100, 100)] {
        let mut s = scene();
        assert_eq!(frame(&mut s, pointer(300, 300, false)), vec![]);
        assert_eq!(frame(&mut s, pointer(x, y, false)), vec![Event::MouseOver]);
    }
    for (x, y) in [(-1, 0), (101, 0), (0, -1), (0, 101)] {
        let mut s = scene();
        assert_eq!(frame(&mut s, pointer(x, y, false)), vec![]);
    }
}

#[test]
fn events_do_not_outlive_their_frame() {
    let mut s = scene();
    frame(&mut s, pointer(300, 300, false));
    frame(&mut s, pointer(50, 50, false));
    assert!(s.events.contains(s.entity.id()));
    frame(&mut s, pointer(50, 50, false));
    assert!(!s.events.contains(s.entity.id()));
}

#[test]
fn hovered_set_follows_the_pointer() {
    let mut s = scene();
    frame(&mut s, pointer(300, 300, false));
    assert!(!s.system.is_hovered(s.entity.id()));
    frame(&mut s, pointer(50, 50, false));
    assert!(s.system.is_hovered(s.entity.id()));
    frame(&mut s, pointer(300, 300, false));
    assert!(!s.system.is_hovered(s.entity.id()));
}

#[test]
fn dead_entities_take_no_part() {
    let mut s = scene();
    frame(&mut s, pointer(300, 300, false));
    assert!(s.entities.delete(s.entity));
    assert_eq!(frame(&mut s, pointer(50, 50, false)), vec![]);
}

#[test]
fn determine_current_events_for_one_entity() {
    let mut s = scene();
    let first = s.system.determine_current_events(s.entity, &square(), &pointer(50, 50, true));
    assert_eq!(first, Some(Events(vec![Event::MouseDown, Event::MouseOver])));
    // the stored sample is only replaced by a whole frame
    let second = s.system.determine_current_events(s.entity, &square(), &pointer(50, 50, true));
    assert_eq!(second, Some(Events(vec![Event::MouseDown, Event::MouseMove])));
    let third = s.system.determine_current_events(s.entity, &square(), &pointer(500, 50, true));
    assert_eq!(third, Some(Events(vec![Event::MouseOut])));
    let fourth = s.system.determine_current_events(s.entity, &square(), &pointer(500, 50, true));
    assert_eq!(fourth, None);
}

#[test]
fn wide_boxes_do_not_overflow() {
    let b = ElementBox { x: i32::MAX, y: i32::MAX, z: 0, width: u32::MAX, height: u32::MAX };
    assert_eq!(b.right(), i32::MAX as i64 + u32::MAX as i64);
    assert_eq!(b.bottom(), i32::MAX as i64 + u32::MAX as i64);
    assert!(b.contains_point(i32::MAX, i32::MAX));
    assert!(!b.contains_point(0, 0));
    assert_eq!(ElementBox::new(), ElementBox { x: 0, y: 0, z: 0, width: 0, height: 0 });
    assert_eq!((square().left(), square().top(), square().z_index()), (0, 0, 0));
    assert_eq!(Mouse::default(), pointer(0, 0, false));
}

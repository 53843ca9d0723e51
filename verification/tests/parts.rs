use berry::components::{
    copy_picture, Color, ElementBuilder, HasXConstraints, HasYConstraints, HasZConstraints, Name,
    Stage, Text,
};
use berry::constraint::{
    Constraints, Expression, LinearConstraint, LinearTerm, Relation, Strength,
};
use berry::drawing::{is_visible, placement, Placement};
use berry::entity::Entities;
use berry::event::Mouse;
use berry::geometry::{ElementBox, WindowSize};
use berry::input::{mk_update, InputEvent, Key, MouseButton, Update};
use berry::label::Label;
use berry::paths::call;
use berry::picture::{Picture, PictureCmd};
use berry::storage::{ComponentEvent, FlaggedStorage, Storage};
use berry::variable::{coordinate, extent, Axis, AxisVariable, VariableX, VariableY, VariableZ};
use berry::world::World;

#[test]
fn entities_are_minted_deleted_and_reused() {
    let mut entities = Entities::new();
    let a = entities.create().unwrap();
    let b = entities.create().unwrap();
    assert_ne!(a, b);
    assert_eq!((a.id(), b.id()), (0, 1));
    assert!(entities.is_alive(a));
    assert_eq!(entities.entity(0), Some(a));
    assert!(entities.delete(a));
    assert!(!entities.delete(a));
    assert!(!entities.is_alive(a));
    assert_eq!(entities.entity(0), None);
    assert_eq!(entities.entity(7), None);
    let c = entities.create().unwrap();
    assert_eq!(c.id(), a.id());
    assert_eq!(c.generation(), a.generation() + 1);
    assert!(entities.is_alive(c));
    assert!(!entities.is_alive(a));
    assert!(entities.is_alive(b));
}

#[test]
fn the_plain_store_keeps_one_record_per_index() {
    let mut store: Storage<u8> = Storage::new();
    assert_eq!(store.insert(3, 7), None);
    assert_eq!(store.insert(3, 8), Some(7));
    assert_eq!(store.insert(1, 9), None);
    assert_eq!(store.remove(5), None);
    assert_eq!(store.remove(3), Some(8));
    assert_eq!(store.get(3), None);
    assert_eq!(store.get(1), Some(&9));
    assert!(store.contains(1));
    assert!(!store.contains(3));
    store.insert(0, 1);
    store.insert(9, 2);
    assert_eq!(store.ids(), vec![0, 1, 9]);
    store.clear();
    assert_eq!(store.ids(), vec![]);
    assert!(!store.contains(9));
}

#[test]
fn the_flagged_store_logs_every_change() {
    let mut store: FlaggedStorage<u8> = FlaggedStorage::new();
    assert_eq!(store.insert(3, 7), None);
    assert_eq!(store.insert(3, 8), Some(7));
    assert_eq!(store.insert(1, 9), None);
    assert_eq!(store.remove(5), None);
    assert_eq!(store.remove(3), Some(8));
    assert_eq!(store.get(3), None);
    assert_eq!(store.get(1), Some(&9));
    assert!(store.contains(1));
    assert!(!store.contains(3));
    assert_eq!(store.ids(), vec![1]);
    assert_eq!(store.event_count(), 4);
    assert_eq!(store.event(0), ComponentEvent::Inserted(3));
    assert_eq!(store.event(1), ComponentEvent::Modified(3));
    assert_eq!(store.event(2), ComponentEvent::Inserted(1));
    assert_eq!(store.event(3), ComponentEvent::Removed(3));
    store.insert(0, 1);
    store.insert(9, 2);
    assert_eq!(store.ids(), vec![0, 1, 9]);
    assert_eq!(store.event_count(), 6);
}

#[test]
fn expressions_are_compared_as_written() {
    let mut entities = Entities::new();
    let e = entities.create().unwrap();
    let f = entities.create().unwrap();
    let a = e.left().plus_constant(5);
    assert!(a.equals(&e.left().plus_constant(5)));
    assert!(a.equals(&a.duplicate()));
    assert!(!a.equals(&e.left().plus_constant(6)));
    assert!(!a.equals(&f.left().plus_constant(5)));
    assert!(!a.equals(&e.width().plus_constant(5)));
    assert!(e.right().equals(&e.left().plus(e.width())));
    assert!(!e.right().equals(&e.width().plus(e.left())));
    assert!(e.bottom().equals(&e.top().plus(e.height())));
    assert!(Stage.right().equals(&Stage.left().plus(Stage.width())));
    assert!(Stage.bottom().equals(&Stage.top().plus(Stage.height())));
    assert_eq!(e.left().minus_constant(3).constant, -3);
    assert_eq!(e.right().terms.len(), 2);
    assert_eq!(e.left().terms[0].coefficient, 1);
    assert!(e.left().terms[0].equals(&LinearTerm { variable: VariableX::Left(Some(e)), coefficient: 1 }));
    assert_eq!(Expression::<VariableX>::from_constant(9).terms.len(), 0);

    let c = e.left().is(f.right());
    assert_eq!(c.relation, Relation::Equal);
    assert_eq!(c.strength, Strength::Required);
    assert!(c.equals(&c.duplicate()));
    assert!(!c.equals(&e.left().is_ge(f.right())));
    assert!(!c.equals(&e.left().is_le(f.right())));
    assert!(!c.equals(&e.left().is(f.right()).with_strength(Strength::Medium)));
    assert_eq!(e.left().is_ge(f.right()).relation, Relation::GreaterOrEqual);
    assert_eq!(e.left().is_le(f.right()).relation, Relation::LessOrEqual);
    assert!(e.left().is_constant(4).equals(&e.left().is(Expression::from_constant(4))));
    assert!(e.z_index().is_constant(4).equals(&Expression::from_variable(VariableZ(e)).is_constant(4)));

    let set = Constraints(vec![e.left().is(f.right()), e.width().is_constant(4)]);
    assert!(set.contains(&e.width().is_constant(4)));
    assert!(!set.contains(&e.width().is_constant(5)));
    assert!(set.equals(&set.duplicate()));
    assert!(!set.equals(&Constraints::new()));
    assert!(Strength::Weak.rank() < Strength::Medium.rank());
    assert!(Strength::Medium.rank() < Strength::Strong.rank());
    assert!(Strength::Strong.rank() < Strength::Required.rank());
}

#[test]
fn variables_know_their_axis() {
    let mut entities = Entities::new();
    let e = entities.create().unwrap();
    let window = WindowSize { width: 800, height: 600 };
    assert_eq!(VariableX::axis(), Axis::X);
    assert_eq!(VariableY::axis(), Axis::Y);
    assert_eq!(VariableZ::axis(), Axis::Z);
    assert_eq!(VariableX::Left(Some(e)).entity(), Some(e));
    assert_eq!(VariableY::Height(None).entity(), None);
    assert_eq!(VariableZ(e).entity(), Some(e));
    assert!(VariableX::Left(Some(e)).same(&VariableX::Left(Some(e))));
    assert!(!VariableX::Left(Some(e)).same(&VariableX::Left(None)));
    assert!(!VariableX::Left(Some(e)).same(&VariableX::Width(Some(e))));
    assert!(VariableY::Top(None).same(&VariableY::Top(None)));
    assert!(!VariableY::Top(None).same(&VariableY::Height(None)));
    assert!(VariableZ(e).same(&VariableZ(e)));
    assert_eq!(VariableX::edit_variables(), vec![VariableX::Width(None)]);
    assert_eq!(VariableY::edit_variables(), vec![VariableY::Height(None)]);
    assert_eq!(VariableZ::edit_variables(), vec![]);
    assert_eq!(VariableX::Width(None).get_edit_variable_value(&window), 800);
    assert_eq!(VariableX::Left(None).get_edit_variable_value(&window), 0);
    assert_eq!(VariableY::Height(None).get_edit_variable_value(&window), 600);
    assert_eq!(VariableY::Top(None).get_edit_variable_value(&window), 0);
    assert_eq!(VariableZ(e).get_edit_variable_value(&window), 0);
    assert!(VariableX::initial_constraints()
        .equals(&Constraints(vec![Stage.left().is_constant(0)])));
    assert!(VariableY::initial_constraints()
        .equals(&Constraints(vec![Stage.top().is_constant(0)])));
    assert_eq!(VariableZ::initial_constraints().0.len(), 0);
    let zero = ElementBox::new();
    assert_eq!(VariableX::Left(Some(e)).place(zero, 5).x, 5);
    assert_eq!(VariableX::Width(Some(e)).place(zero, 5).width, 5);
    assert_eq!(VariableY::Top(Some(e)).place(zero, -5).y, -5);
    assert_eq!(VariableY::Height(Some(e)).place(zero, -5).height, 0);
    assert_eq!(VariableZ(e).place(zero, 3), ElementBox { z: 3, ..zero });
    assert_eq!(coordinate(i64::MAX), i32::MAX);
    assert_eq!(coordinate(i64::MIN), i32::MIN);
    assert_eq!(coordinate(-12), -12);
    assert_eq!(extent(-1), 0);
    assert_eq!(extent(i64::MAX), u32::MAX);
    assert_eq!(extent(4_000_000_000), 4_000_000_000);
}

#[test]
fn the_builder_attaches_what_was_asked() {
    let mut world = World::new();
    let other = world.entities.create().unwrap();
    let e = ElementBuilder::new()
        .name("box")
        .left(Expression::from_constant(3))
        .right(other.left())
        .x_constraints(vec![other.width().is_constant(9)])
        .z_constraints(vec![other.z_index().is_constant(1)])
        .z_index(Expression::from_constant(2))
        .text(&Text::new("hello"))
        .picture(&Picture::new().fill_rect(1, 2, 3, 4))
        .shrink_to_contents()
        .build_with(&mut world, None);
    let xs = world.constraints_x.get(e.id()).unwrap();
    assert!(xs.equals(&Constraints(vec![
        e.left().is(Expression::from_constant(3)),
        e.right().is(other.left()),
        e.right().is(e.right()),
        other.width().is_constant(9),
    ])));
    assert!(!world.constraints_y.contains(e.id()));
    let zs = world.constraints_z.get(e.id()).unwrap();
    assert!(zs.equals(&Constraints(vec![
        other.z_index().is_constant(1),
        e.z_index().is(Expression::from_constant(2)),
    ])));
    assert_eq!(world.names.get(e.id()).unwrap().0, "box");
    assert_eq!(world.texts.get(e.id()).unwrap().text, "hello");
    assert_eq!(world.pictures.get(e.id()).unwrap().0, vec![PictureCmd::FillRect(1, 2, 3, 4)]);
    assert!(world.shrinkwraps.contains(e.id()));
    assert_eq!(world.element_boxes.get(e.id()), Some(&ElementBox::new()));

    // an update replaces the sets it asks for and keeps the rectangle
    world.element_boxes.insert(e.id(), ElementBox { x: 1, y: 2, z: 3, width: 4, height: 5 });
    let same = ElementBuilder::new()
        .top(Expression::from_constant(8))
        .height(Expression::from_constant(6))
        .bottom(other.top())
        .y_constraints(vec![])
        .build_with(&mut world, Some(e));
    assert_eq!(same, e);
    let ys = world.constraints_y.get(e.id()).unwrap();
    assert!(ys.equals(&Constraints(vec![
        e.top().is(Expression::from_constant(8)),
        e.height().is(Expression::from_constant(6)),
        e.bottom().is(other.top()),
        e.bottom().is(e.bottom()),
    ])));
    assert_eq!(world.constraints_x.get(e.id()).unwrap().0.len(), 4);
    assert_eq!(world.element_boxes.get(e.id()).unwrap().x, 1);

    // nothing asked, nothing attached but the rectangle
    let bare = ElementBuilder::new().build_with(&mut world, None);
    assert!(!world.constraints_x.contains(bare.id()));
    assert!(!world.constraints_z.contains(bare.id()));
    assert!(!world.shrinkwraps.contains(bare.id()));
    assert!(world.element_boxes.contains(bare.id()));
    let wide = ElementBuilder::new().width(Expression::from_constant(1)).build_with(&mut world, None);
    assert_eq!(world.constraints_x.get(wide.id()).unwrap().0.len(), 2);
}

#[test]
fn texts_and_pictures_are_copied() {
    let t = Text::new("abc");
    assert_eq!(t.font_path, "komika.ttf");
    assert_eq!(t.font_size, 16);
    assert_eq!(t.text_color, Color { r: 255, g: 255, b: 255, a: 255 });
    assert_eq!(t.text, "abc");
    let red = t.duplicate().color(255, 0, 0, 128);
    assert_eq!(red.text_color, Color { r: 255, g: 0, b: 0, a: 128 });
    assert_eq!(red.text, "abc");
    assert_eq!(t.duplicate(), t);
    let pic = Picture::new().fill_rect(1, 1, 1, 1).set_color(1, 2, 3, 4);
    assert_eq!(copy_picture(&pic), pic);
    assert_eq!(pic.checked_size(), Some((2, 2)));
    assert!(pic.is_bounded());
    let huge = Picture::new().fill_rect(u32::MAX, 0, 1, 1);
    assert!(!huge.is_bounded());
    assert_eq!(huge.checked_size(), None);
    let edge = Picture::new().fill_rect(u32::MAX - 1, 0, 1, 0);
    assert_eq!(edge.checked_size(), Some((u32::MAX, 0)));
    let label = Label::new();
    assert_eq!(label.text, "Label");
    assert_eq!(label.font, ("komika.ttf".to_string(), 16));
    assert_eq!(label.color, Color { r: 0x33, g: 0x33, b: 0x33, a: 255 });
    assert_eq!(label.position, (0, 0));
}

#[test]
fn raw_events_become_updates() {
    let sample = |x, y, left, middle, right| {
        Some(Update::Mouse(Mouse {
            x,
            y,
            left_btn_down: left,
            middle_btn_down: middle,
            right_btn_down: right,
        }))
    };
    assert_eq!(
        mk_update(&InputEvent::MouseMotion { x: 1, y: 2, left: true, middle: false, right: true }),
        sample(1, 2, true, false, true)
    );
    assert_eq!(
        mk_update(&InputEvent::MouseButtonDown { x: 3, y: 4, button: MouseButton::Left }),
        sample(3, 4, true, false, false)
    );
    assert_eq!(
        mk_update(&InputEvent::MouseButtonUp { x: 3, y: 4, button: MouseButton::Left }),
        sample(3, 4, false, false, false)
    );
    assert_eq!(
        mk_update(&InputEvent::MouseButtonDown { x: 3, y: 4, button: MouseButton::Right }),
        None
    );
    assert_eq!(
        mk_update(&InputEvent::MouseButtonUp { x: 3, y: 4, button: MouseButton::Middle }),
        None
    );
    assert_eq!(mk_update(&InputEvent::Quit), Some(Update::Quit));
    assert_eq!(
        mk_update(&InputEvent::KeyDown { key: Key::Q, left_ctrl: true, right_ctrl: false }),
        Some(Update::Quit)
    );
    assert_eq!(
        mk_update(&InputEvent::KeyDown { key: Key::Q, left_ctrl: false, right_ctrl: true }),
        Some(Update::Quit)
    );
    assert_eq!(
        mk_update(&InputEvent::KeyDown { key: Key::Q, left_ctrl: false, right_ctrl: false }),
        None
    );
    assert_eq!(
        mk_update(&InputEvent::KeyDown { key: Key::Other, left_ctrl: true, right_ctrl: true }),
        None
    );
    assert_eq!(mk_update(&InputEvent::Other), None);
}

#[test]
fn variables_are_called_by_their_owner() {
    let mut world = World::new();
    for _ in 0..12 {
        world.entities.create().unwrap();
    }
    let named = world.entities.create().unwrap();
    let unnamed = world.entities.create().unwrap();
    world.names.insert(named.id(), Name("pic".to_string()));
    assert_eq!(VariableX::Left(Some(named)).to_pathy_string(&world.names), "pic.left");
    assert_eq!(VariableX::Width(Some(unnamed)).to_pathy_string(&world.names), "entity(13).width");
    assert_eq!(VariableX::Width(None).to_pathy_string(&world.names), "stage.width");
    assert_eq!(VariableY::Top(Some(named)).to_pathy_string(&world.names), "pic.top");
    assert_eq!(VariableY::Height(None).to_pathy_string(&world.names), "stage.height");
    assert_eq!(call(&Some(world.entities.entity(0).unwrap()), &world.names), "entity(0)");
    assert_eq!(call(&Some(world.entities.entity(9).unwrap()), &world.names), "entity(9)");
    assert_eq!(call(&Some(world.entities.entity(10).unwrap()), &world.names), "entity(10)");
}

#[test]
fn textures_are_placed_on_the_solved_box() {
    let solved = ElementBox { x: 5, y: -6, z: 0, width: 70, height: 0 };
    assert!(is_visible(Some(&solved), (30, 40)));
    assert_eq!(
        placement(Some(&solved), (30, 40)),
        Placement { x: 5, y: -6, width: 70, height: 40 }
    );
    assert!(is_visible(None, (30, 40)));
    assert_eq!(placement(None, (30, 40)), Placement { x: 0, y: 0, width: 30, height: 40 });
    assert!(!is_visible(Some(&solved), (30, 0)));
    assert!(!is_visible(None, (0, 40)));
}

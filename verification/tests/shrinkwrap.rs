use berry::components::HasXConstraints;
use berry::components::HasYConstraints;
use berry::constraint::{Constraints, Strength};
use berry::entity::Entity;
use berry::geometry::{ContentSize, WindowSize};
use berry::layout::LayoutSystem;
use berry::shrinkwrap::{Shrinkwrap, ShrinkwrapSystem};
use berry::variable::VariableX;
use berry::world::World;

fn marked(world: &mut World, width: u32, height: u32) -> Entity {
    let e = world.entities.create().unwrap();
    world.shrinkwraps.insert(e.id(), Shrinkwrap);
    world.content_sizes.insert(e.id(), ContentSize { width, height });
    e
}

fn wrap(world: &mut World) -> Vec<Entity> {
    ShrinkwrapSystem::new().run(
        &world.entities,
        &world.shrinkwraps,
        &world.content_sizes,
        &mut world.constraints_x,
        &mut world.constraints_y,
    )
}

#[test]
fn wrapping_adds_one_weak_pin_per_axis() {
    let mut world = World::new();
    let e = marked(&mut world, 150, 90);
    assert_eq!(wrap(&mut world), vec![]);
    let xs = world.constraints_x.get(e.id()).unwrap();
    assert_eq!(xs.0.len(), 1);
    assert!(xs.contains(&e.width().is_constant(150).with_strength(Strength::Weak)));
    let ys = world.constraints_y.get(e.id()).unwrap();
    assert_eq!(ys.0.len(), 1);
    assert!(ys.contains(&e.height().is_constant(90).with_strength(Strength::Weak)));
}

#[test]
fn wrapping_twice_changes_nothing() {
    let mut world = World::new();
    let e = marked(&mut world, 150, 90);
    world.constraints_x.insert(e.id(), Constraints(vec![e.left().is_constant(5)]));
    wrap(&mut world);
    let logged_x = world.constraints_x.event_count();
    let logged_y = world.constraints_y.event_count();
    let once = world.constraints_x.get(e.id()).unwrap().duplicate();
    assert_eq!(once.0.len(), 2);
    wrap(&mut world);
    assert_eq!(world.constraints_x.event_count(), logged_x);
    assert_eq!(world.constraints_y.event_count(), logged_y);
    assert!(world.constraints_x.get(e.id()).unwrap().equals(&once));
}

#[test]
fn wrapping_twice_leaves_the_solved_box_alone() {
    let mut world = World::new();
    let mut system = LayoutSystem::<VariableX>::new();
    let window = WindowSize { width: 800, height: 600 };
    let e = marked(&mut world, 150, 90);
    wrap(&mut world);
    system.run(&world.entities, &window, &world.constraints_x, &mut world.element_boxes).unwrap();
    let solved = *world.element_boxes.get(e.id()).unwrap();
    assert_eq!(solved.width, 150);
    wrap(&mut world);
    system.run(&world.entities, &window, &world.constraints_x, &mut world.element_boxes).unwrap();
    assert_eq!(*world.element_boxes.get(e.id()).unwrap(), solved);
}

#[test]
fn a_stale_pin_is_replaced() {
    let mut world = World::new();
    let e = marked(&mut world, 150, 90);
    world.constraints_x.insert(e.id(), Constraints(vec![e.left().is_constant(5)]));
    wrap(&mut world);
    world.content_sizes.insert(e.id(), ContentSize { width: 200, height: 90 });
    let logged_y = world.constraints_y.event_count();
    wrap(&mut world);
    let xs = world.constraints_x.get(e.id()).unwrap();
    assert_eq!(xs.0.len(), 2);
    assert!(xs.contains(&e.left().is_constant(5)));
    assert!(xs.contains(&e.width().is_constant(200).with_strength(Strength::Weak)));
    assert!(!xs.contains(&e.width().is_constant(150).with_strength(Strength::Weak)));
    // the height did not change, so the vertical store logged nothing
    assert_eq!(world.constraints_y.event_count(), logged_y);
}

#[test]
fn a_required_width_is_no_pin() {
    let mut world = World::new();
    let e = marked(&mut world, 150, 90);
    world.constraints_x.insert(e.id(), Constraints(vec![e.width().is_constant(300)]));
    wrap(&mut world);
    let xs = world.constraints_x.get(e.id()).unwrap();
    assert_eq!(xs.0.len(), 2);
    assert!(xs.contains(&e.width().is_constant(300)));
}

#[test]
fn unmarked_and_unmeasured_entities_are_left_alone() {
    let mut world = World::new();
    let unmarked = world.entities.create().unwrap();
    world.content_sizes.insert(unmarked.id(), ContentSize { width: 10, height: 10 });
    let unmeasured = world.entities.create().unwrap();
    world.shrinkwraps.insert(unmeasured.id(), Shrinkwrap);
    assert_eq!(wrap(&mut world), vec![unmeasured]);
    assert!(!world.constraints_x.contains(unmarked.id()));
    assert!(!world.constraints_x.contains(unmeasured.id()));
    assert_eq!(world.constraints_x.event_count(), 0);
    // measured in a later frame, it is wrapped then
    world.content_sizes.insert(unmeasured.id(), ContentSize { width: 7, height: 9 });
    assert_eq!(wrap(&mut world), vec![]);
    assert!(world.constraints_x.contains(unmeasured.id()));
}

#[test]
fn shrinkwrapped_size_is_solved() {
    let mut world = World::new();
    let mut system = LayoutSystem::<VariableX>::new();
    let e = marked(&mut world, 150, 90);
    wrap(&mut world);
    let window = WindowSize { width: 800, height: 600 };
    assert_eq!(
        system.run(&world.entities, &window, &world.constraints_x, &mut world.element_boxes),
        Ok(vec![])
    );
    assert_eq!(world.element_boxes.get(e.id()).unwrap().width, 150);
    assert_eq!(ContentSize::new(), ContentSize { width: 0, height: 0 });
    assert_eq!(
        ContentSize { width: 3, height: 9 }.absorb(5, 4),
        ContentSize { width: 5, height: 9 }
    );
}

#[test]
fn a_pin_that_is_right_is_left_where_it_stands() {
    let mut world = World::new();
    let e = marked(&mut world, 150, 90);
    // the pin first, then other constraints
    world.constraints_x.insert(
        e.id(),
        Constraints(vec![
            e.width().is_constant(150).with_strength(Strength::Weak),
            e.right().is(e.right()),
            e.left().is_constant(5),
        ]),
    );
    world.constraints_y.insert(
        e.id(),
        Constraints(vec![
            e.top().is_constant(1),
            e.height().is_constant(90).with_strength(Strength::Weak),
            e.bottom().is(e.bottom()),
        ]),
    );
    let before_x = world.constraints_x.get(e.id()).unwrap().duplicate();
    let before_y = world.constraints_y.get(e.id()).unwrap().duplicate();
    let logged_x = world.constraints_x.event_count();
    let logged_y = world.constraints_y.event_count();
    assert_eq!(wrap(&mut world), vec![]);
    assert_eq!(world.constraints_x.event_count(), logged_x);
    assert_eq!(world.constraints_y.event_count(), logged_y);
    assert!(world.constraints_x.get(e.id()).unwrap().equals(&before_x));
    assert!(world.constraints_y.get(e.id()).unwrap().equals(&before_y));
}

#[test]
fn a_second_pin_beside_the_right_one_is_taken_out() {
    let mut world = World::new();
    let e = marked(&mut world, 150, 90);
    world.constraints_x.insert(
        e.id(),
        Constraints(vec![
            e.width().is_constant(150).with_strength(Strength::Weak),
            e.left().is_constant(5),
            e.width().is_constant(40).with_strength(Strength::Weak),
        ]),
    );
    let logged_x = world.constraints_x.event_count();
    wrap(&mut world);
    assert_eq!(world.constraints_x.event_count(), logged_x + 1);
    assert!(world.constraints_x.get(e.id()).unwrap().equals(&Constraints(vec![
        e.left().is_constant(5),
        e.width().is_constant(150).with_strength(Strength::Weak),
    ])));
    // twice the right pin is one too many as well
    world.constraints_x.insert(
        e.id(),
        Constraints(vec![
            e.width().is_constant(150).with_strength(Strength::Weak),
            e.width().is_constant(150).with_strength(Strength::Weak),
        ]),
    );
    wrap(&mut world);
    assert!(world.constraints_x.get(e.id()).unwrap().equals(&Constraints(vec![
        e.width().is_constant(150).with_strength(Strength::Weak),
    ])));
}

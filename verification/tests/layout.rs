use berry::components::{ElementBuilder, HasXConstraints, HasYConstraints, Stage};
use berry::constraint::{Constraints, Expression, Strength};
use berry::entity::Entity;
use berry::geometry::{ElementBox, WindowSize};
use berry::layout::{
    after_add, after_remove, after_suggest, publish, update_variable_value, LayoutError,
    LayoutSystem, Verdict,
};
use berry::solver::{AddFailure, RemoveFailure, SuggestFailure};
use berry::components::HasZConstraints;
use berry::variable::{Axis, VariableX, VariableY, VariableZ};
use berry::world::World;

fn window() -> WindowSize {
    WindowSize { width: 800, height: 600 }
}

fn layout_x(world: &mut World, system: &mut LayoutSystem<VariableX>) -> Result<Vec<Entity>, LayoutError> {
    system.run(&world.entities, &window(), &world.constraints_x, &mut world.element_boxes)
}

fn layout_y(world: &mut World, system: &mut LayoutSystem<VariableY>) -> Result<Vec<Entity>, LayoutError> {
    system.run(&world.entities, &window(), &world.constraints_y, &mut world.element_boxes)
}

fn the_box(world: &World, e: Entity) -> ElementBox {
    *world.element_boxes.get(e.id()).expect("the entity has a rectangle")
}

#[test]
fn left_and_width_pin_the_box() {
    let mut world = World::new();
    let mut system = LayoutSystem::<VariableX>::new();
    let e = ElementBuilder::new()
        .left(Expression::from_constant(30))
        .width(Expression::from_constant(120))
        .build_with(&mut world, None);
    assert_eq!(layout_x(&mut world, &mut system), Ok(vec![]));
    let b = the_box(&world, e);
    assert_eq!(b.x, 30);
    assert_eq!(b.width, 120);
    assert_eq!(b.right(), 150);
}

#[test]
fn chained_left_follows_the_right_edge() {
    let mut world = World::new();
    let mut system = LayoutSystem::<VariableX>::new();
    let a = ElementBuilder::new()
        .left(Expression::from_constant(0))
        .width(Expression::from_constant(50))
        .build_with(&mut world, None);
    let b = ElementBuilder::new()
        .left(a.right())
        .width(Expression::from_constant(10))
        .build_with(&mut world, None);
    assert_eq!(layout_x(&mut world, &mut system), Ok(vec![]));
    assert_eq!(the_box(&world, b).x, 50);
    assert_eq!(the_box(&world, a).right(), 50);
}

#[test]
fn stage_follows_the_window() {
    let mut world = World::new();
    let mut sx = LayoutSystem::<VariableX>::new();
    let mut sy = LayoutSystem::<VariableY>::new();
    let e = ElementBuilder::new()
        .width(Expression::from_constant(25))
        .height(Expression::from_constant(25))
        .right(Stage.right())
        .bottom(Stage.bottom())
        .build_with(&mut world, None);
    assert_eq!(layout_x(&mut world, &mut sx), Ok(vec![]));
    assert_eq!(layout_y(&mut world, &mut sy), Ok(vec![]));
    let b = the_box(&world, e);
    assert_eq!((b.x, b.y, b.width, b.height), (775, 575, 25, 25));
}

#[test]
fn conflicting_required_constraints_are_reported() {
    let mut world = World::new();
    let mut system = LayoutSystem::<VariableX>::new();
    let e = world.entities.create().unwrap();
    let set = Constraints(vec![
        e.left().is_constant(10),
        e.left().is_constant(20),
    ]);
    world.constraints_x.insert(e.id(), set);
    assert_eq!(
        layout_x(&mut world, &mut system),
        Err(LayoutError::UnsatisfiableConstraints { entity: e.id(), axis: Axis::X })
    );
    // nothing of the set is left in the solver: a new set is free to pin the variable
    world.constraints_x.insert(e.id(), Constraints(vec![e.left().is_constant(20)]));
    assert_eq!(layout_x(&mut world, &mut system), Ok(vec![]));
    assert_eq!(the_box(&world, e).x, 20);
}

#[test]
fn weak_constraint_yields_to_required() {
    let mut world = World::new();
    let mut system = LayoutSystem::<VariableX>::new();
    let e = world.entities.create().unwrap();
    let set = Constraints(vec![
        e.width().is_constant(50).with_strength(Strength::Weak),
        e.width().is_constant(70),
    ]);
    world.constraints_x.insert(e.id(), set);
    assert_eq!(layout_x(&mut world, &mut system), Ok(vec![]));
    assert_eq!(the_box(&world, e).width, 70);
}

#[test]
fn one_at_a_time_equals_all_at_once() {
    let build = |world: &mut World| -> Vec<Entity> {
        (0..5).map(|_| world.entities.create().unwrap()).collect()
    };
    let sets = |made: &Vec<Entity>, i: usize| -> Constraints<VariableX> {
        let left = if i == 0 {
            Expression::from_constant(0)
        } else {
            made[i - 1].right().plus_constant(10)
        };
        Constraints(vec![
            made[i].left().is(left),
            made[i].width().is_constant(20 + i as i64),
        ])
    };

    let mut stepwise = World::new();
    let mut stepwise_system = LayoutSystem::<VariableX>::new();
    let made = build(&mut stepwise);
    for i in 0..made.len() {
        stepwise.constraints_x.insert(made[i].id(), sets(&made, i));
        assert_eq!(layout_x(&mut stepwise, &mut stepwise_system), Ok(vec![]));
    }

    let mut batch = World::new();
    let mut batch_system = LayoutSystem::<VariableX>::new();
    let made_again = build(&mut batch);
    assert_eq!(made, made_again);
    for i in 0..made.len() {
        batch.constraints_x.insert(made[i].id(), sets(&made, i));
    }
    assert_eq!(layout_x(&mut batch, &mut batch_system), Ok(vec![]));

    let mut x = 0;
    for i in 0..made.len() {
        let a = the_box(&stepwise, made[i]);
        let b = the_box(&batch, made[i]);
        assert_eq!(a, b);
        assert_eq!(a.x, x);
        assert_eq!(a.width, 20 + i as u32);
        x += 20 + i as i32 + 10;
    }
}

#[test]
fn a_replaced_set_leaves_nothing_behind() {
    let mut world = World::new();
    let mut system = LayoutSystem::<VariableX>::new();
    let e = world.entities.create().unwrap();
    world.constraints_x.insert(e.id(), Constraints(vec![e.left().is_constant(10)]));
    assert_eq!(layout_x(&mut world, &mut system), Ok(vec![]));
    assert_eq!(the_box(&world, e).x, 10);
    world.constraints_x.remove(e.id());
    world.constraints_x.insert(e.id(), Constraints(vec![e.left().is_constant(20)]));
    assert_eq!(layout_x(&mut world, &mut system), Ok(vec![]));
    assert_eq!(the_box(&world, e).x, 20);
}

#[test]
fn a_modified_set_replaces_the_old_one() {
    let mut world = World::new();
    let mut system = LayoutSystem::<VariableX>::new();
    let e = world.entities.create().unwrap();
    world.constraints_x.insert(e.id(), Constraints(vec![e.left().is_constant(10)]));
    assert_eq!(layout_x(&mut world, &mut system), Ok(vec![]));
    world.constraints_x.insert(e.id(), Constraints(vec![e.left().is_constant(35)]));
    assert_eq!(layout_x(&mut world, &mut system), Ok(vec![]));
    assert_eq!(the_box(&world, e).x, 35);
}

#[test]
fn removing_a_set_that_never_went_in_is_harmless() {
    let mut world = World::new();
    let mut system = LayoutSystem::<VariableX>::new();
    let e = world.entities.create().unwrap();
    world.constraints_x.insert(
        e.id(),
        Constraints(vec![e.left().is_constant(10), e.left().is_constant(20)]),
    );
    assert!(layout_x(&mut world, &mut system).is_err());
    world.constraints_x.remove(e.id());
    assert_eq!(layout_x(&mut world, &mut system), Ok(vec![]));
    // inserted and removed before the engine ever saw it
    let f = world.entities.create().unwrap();
    world.constraints_x.insert(f.id(), Constraints(vec![f.left().is_constant(1)]));
    world.constraints_x.remove(f.id());
    assert_eq!(layout_x(&mut world, &mut system), Ok(vec![]));
}

#[test]
fn events_after_a_failed_set_wait_for_the_next_pass() {
    let mut world = World::new();
    let mut system = LayoutSystem::<VariableX>::new();
    let bad = world.entities.create().unwrap();
    let good = world.entities.create().unwrap();
    world.constraints_x.insert(
        bad.id(),
        Constraints(vec![bad.width().is_constant(1), bad.width().is_constant(2)]),
    );
    world.constraints_x.insert(good.id(), Constraints(vec![good.left().is_constant(42)]));
    assert_eq!(
        layout_x(&mut world, &mut system),
        Err(LayoutError::UnsatisfiableConstraints { entity: bad.id(), axis: Axis::X })
    );
    // the pass was cut short: no rectangle was written
    assert!(world.element_boxes.get(good.id()).is_none());
    assert_eq!(layout_x(&mut world, &mut system), Ok(vec![]));
    assert_eq!(the_box(&world, good).x, 42);
}

#[test]
fn a_write_for_a_dead_entity_is_skipped() {
    let mut world = World::new();
    let mut system = LayoutSystem::<VariableX>::new();
    let ghost = world.entities.create().unwrap();
    let holder = world.entities.create().unwrap();
    assert!(world.entities.delete(ghost));
    world.constraints_x.insert(holder.id(), Constraints(vec![ghost.left().is_constant(10)]));
    assert_eq!(layout_x(&mut world, &mut system), Ok(vec![ghost]));
    assert!(world.element_boxes.get(ghost.id()).is_none());
}

#[test]
fn a_constant_the_solver_cannot_hold_is_refused() {
    let mut world = World::new();
    let mut system = LayoutSystem::<VariableX>::new();
    let e = world.entities.create().unwrap();
    world.constraints_x.insert(e.id(), Constraints(vec![e.left().is_constant(i64::MAX)]));
    assert_eq!(
        layout_x(&mut world, &mut system),
        Err(LayoutError::UnrepresentableConstraint { entity: e.id(), axis: Axis::X })
    );
    world.constraints_x.insert(e.id(), Constraints(vec![e.left().is_constant(1 << 53)]));
    assert_eq!(layout_x(&mut world, &mut system), Ok(vec![]));
    assert_eq!(the_box(&world, e).x, i32::MAX);
}

#[test]
fn solved_values_are_cut_to_the_field() {
    let mut world = World::new();
    let mut system = LayoutSystem::<VariableX>::new();
    let e = world.entities.create().unwrap();
    world.constraints_x.insert(
        e.id(),
        Constraints(vec![e.left().is_constant(-5_000_000_000), e.width().is_constant(-7)]),
    );
    assert_eq!(layout_x(&mut world, &mut system), Ok(vec![]));
    let b = the_box(&world, e);
    assert_eq!(b.x, i32::MIN);
    assert_eq!(b.width, 0);
}

#[test]
fn the_stage_width_is_suggested_every_frame() {
    let mut world = World::new();
    let mut system = LayoutSystem::<VariableX>::new();
    let e = ElementBuilder::new()
        .left(Expression::from_constant(0))
        .right(Stage.right().minus_constant(10))
        .build_with(&mut world, None);
    assert_eq!(layout_x(&mut world, &mut system), Ok(vec![]));
    assert_eq!(the_box(&world, e).width, 790);
    let narrow = WindowSize { width: 300, height: 600 };
    assert_eq!(
        system.run(&world.entities, &narrow, &world.constraints_x, &mut world.element_boxes),
        Ok(vec![])
    );
    assert_eq!(the_box(&world, e).width, 290);
}

#[test]
fn inequalities_and_weak_preferences() {
    let mut world = World::new();
    let mut system = LayoutSystem::<VariableX>::new();
    let box1 = world.entities.create().unwrap();
    let box2 = world.entities.create().unwrap();
    let relation = world.entities.create().unwrap();
    world.constraints_x.insert(
        relation.id(),
        Constraints(vec![
            box1.left().is_constant(0),
            box2.right().is(Stage.right().minus_constant(10)),
            box2.left().is_ge(box1.right().plus_constant(10)),
            box1.width().is_le(Expression::from_constant(50)),
            box1.width().is_constant(50).with_strength(Strength::Weak),
            box2.width().is_constant(100).with_strength(Strength::Weak),
        ]),
    );
    assert_eq!(layout_x(&mut world, &mut system), Ok(vec![]));
    assert_eq!(the_box(&world, box1).width, 50);
    assert_eq!(the_box(&world, box2).width, 100);
    assert_eq!(the_box(&world, box2).x, 690);
}

#[test]
fn setup_skips_what_was_logged_before() {
    let mut world = World::new();
    let mut system = LayoutSystem::<VariableX>::new();
    let early = world.entities.create().unwrap();
    world.constraints_x.insert(early.id(), Constraints(vec![early.left().is_constant(10)]));
    system.setup(&world.constraints_x);
    let late = world.entities.create().unwrap();
    world.constraints_x.insert(late.id(), Constraints(vec![late.left().is_constant(20)]));
    assert_eq!(layout_x(&mut world, &mut system), Ok(vec![]));
    assert!(world.element_boxes.get(early.id()).is_none());
    assert_eq!(the_box(&world, late).x, 20);
}

#[test]
fn solver_answers_are_read_the_same_way_every_time() {
    assert_eq!(after_add(&Ok(())), Verdict::Held);
    assert_eq!(after_add(&Err(AddFailure::Unsatisfiable)), Verdict::Refused);
    assert_eq!(after_add(&Err(AddFailure::Duplicate)), Verdict::Broken);
    assert_eq!(after_add(&Err(AddFailure::Internal)), Verdict::Broken);
    assert!(after_remove(&Ok(())));
    assert!(!after_remove(&Err(RemoveFailure::Unknown)));
    assert!(!after_remove(&Err(RemoveFailure::Internal)));
    assert!(after_suggest(&Ok(())));
    assert!(!after_suggest(&Err(SuggestFailure::Unknown)));
    assert!(!after_suggest(&Err(SuggestFailure::Internal)));
}

#[test]
fn changes_are_written_one_after_the_other() {
    let mut world = World::new();
    let live = world.entities.create().unwrap();
    let dead = world.entities.create().unwrap();
    assert!(world.entities.delete(dead));
    let changes = vec![
        (VariableX::Left(Some(live)), 12),
        (VariableX::Width(Some(dead)), 5),
        (VariableX::Width(None), 800),
        (VariableX::Width(Some(live)), -4),
        (VariableX::Left(Some(live)), 13),
    ];
    let stale = publish(&changes, &world.entities, &mut world.element_boxes);
    assert_eq!(stale, vec![dead]);
    assert_eq!(
        world.element_boxes.get(live.id()),
        Some(&ElementBox { x: 13, y: 0, z: 0, width: 0, height: 0 })
    );
    assert!(!world.element_boxes.contains(dead.id()));
    assert_eq!(
        update_variable_value(&world.entities, &mut world.element_boxes, VariableX::Width(Some(live)), 9),
        None
    );
    assert_eq!(world.element_boxes.get(live.id()).unwrap().width, 9);
    assert_eq!(
        update_variable_value(&world.entities, &mut world.element_boxes, VariableX::Left(Some(dead)), 9),
        Some(dead)
    );
}

fn layout_z(world: &mut World, system: &mut LayoutSystem<VariableZ>) -> Result<Vec<Entity>, LayoutError> {
    system.run(&world.entities, &window(), &world.constraints_z, &mut world.element_boxes)
}

#[test]
fn a_pass_that_asks_nothing_of_the_solver_goes_through() {
    let mut world = World::new();
    let mut system = LayoutSystem::<VariableZ>::new();
    assert_eq!(layout_z(&mut world, &mut system), Ok(vec![]));
    let e = world.entities.create().unwrap();
    world.constraints_z.insert(e.id(), Constraints(vec![]));
    world.constraints_z.remove(e.id());
    world.constraints_z.remove(e.id());
    world.constraints_z.insert(e.id(), Constraints(vec![]));
    assert_eq!(layout_z(&mut world, &mut system), Ok(vec![]));
    assert!(world.element_boxes.get(e.id()).is_none());
}

#[test]
fn a_constant_out_of_range_is_found_before_the_solver_is_asked() {
    let mut world = World::new();
    let mut system = LayoutSystem::<VariableZ>::new();
    let quiet = world.entities.create().unwrap();
    let e = world.entities.create().unwrap();
    let later = world.entities.create().unwrap();
    world.constraints_z.insert(quiet.id(), Constraints(vec![]));
    world.constraints_z.insert(
        e.id(),
        Constraints(vec![e.z_index().is_constant(i64::MIN), e.z_index().is_constant(3)]),
    );
    world.constraints_z.insert(later.id(), Constraints(vec![later.z_index().is_constant(4)]));
    assert_eq!(
        layout_z(&mut world, &mut system),
        Err(LayoutError::UnrepresentableConstraint { entity: e.id(), axis: Axis::Z })
    );
    assert_eq!(layout_z(&mut world, &mut system), Ok(vec![]));
    assert_eq!(the_box(&world, later).z, 4);
}

#[test]
fn a_pass_with_nothing_new_changes_no_rectangle() {
    let mut world = World::new();
    let mut system = LayoutSystem::<VariableX>::new();
    let e = ElementBuilder::new()
        .left(Expression::from_constant(30))
        .right(Stage.right().minus_constant(20))
        .build_with(&mut world, None);
    assert_eq!(layout_x(&mut world, &mut system), Ok(vec![]));
    let solved = the_box(&world, e);
    assert_eq!((solved.x, solved.width), (30, 750));
    // someone else moves the rectangle: a pass that finds nothing to do leaves it alone
    world.element_boxes.insert(e.id(), ElementBox { x: 1, ..solved });
    assert_eq!(layout_x(&mut world, &mut system), Ok(vec![]));
    assert_eq!(the_box(&world, e).x, 1);
    // another viewport is suggested again
    let narrow = WindowSize { width: 400, height: 600 };
    assert_eq!(
        system.run(&world.entities, &narrow, &world.constraints_x, &mut world.element_boxes),
        Ok(vec![])
    );
    assert_eq!(the_box(&world, e).width, 350);
    // and back
    assert_eq!(layout_x(&mut world, &mut system), Ok(vec![]));
    assert_eq!(the_box(&world, e).width, 750);
}

#[test]
fn quiet_events_on_a_built_engine_go_through() {
    let mut world = World::new();
    let mut system = LayoutSystem::<VariableX>::new();
    let e = ElementBuilder::new()
        .left(Expression::from_constant(30))
        .width(Expression::from_constant(120))
        .build_with(&mut world, None);
    assert_eq!(layout_x(&mut world, &mut system), Ok(vec![]));
    let solved = the_box(&world, e);
    // events for an entity of which the solver holds nothing, none of them with a set to hand over
    let f = world.entities.create().unwrap();
    world.constraints_x.remove(f.id());
    world.constraints_x.insert(f.id(), Constraints(vec![]));
    world.constraints_x.remove(f.id());
    assert_eq!(layout_x(&mut world, &mut system), Ok(vec![]));
    assert_eq!(the_box(&world, e), solved);
    assert!(world.element_boxes.get(f.id()).is_none());
}

#[test]
fn a_constant_out_of_range_is_refused_by_a_built_engine() {
    let mut world = World::new();
    let mut system = LayoutSystem::<VariableX>::new();
    assert_eq!(layout_x(&mut world, &mut system), Ok(vec![]));
    let e = world.entities.create().unwrap();
    let later = world.entities.create().unwrap();
    world.constraints_x.insert(
        e.id(),
        Constraints(vec![e.left().is_constant(i64::MAX), e.left().is_constant(3)]),
    );
    world.constraints_x.insert(later.id(), Constraints(vec![later.left().is_constant(4)]));
    assert_eq!(
        layout_x(&mut world, &mut system),
        Err(LayoutError::UnrepresentableConstraint { entity: e.id(), axis: Axis::X })
    );
    assert!(world.element_boxes.get(later.id()).is_none());
    assert_eq!(layout_x(&mut world, &mut system), Ok(vec![]));
    assert_eq!(the_box(&world, later).x, 4);
}

#[test]
fn weak_constraints_at_odds_are_not_unsatisfiable() {
    let mut world = World::new();
    let mut system = LayoutSystem::<VariableX>::new();
    let e = world.entities.create().unwrap();
    let set = Constraints(vec![
        e.left().is_constant(10).with_strength(Strength::Weak),
        e.left().is_constant(20).with_strength(Strength::Weak),
        e.width().is_constant(5).with_strength(Strength::Strong),
        e.width().is_constant(9).with_strength(Strength::Medium),
    ]);
    world.constraints_x.insert(e.id(), set);
    assert_eq!(layout_x(&mut world, &mut system), Ok(vec![]));
    let b = the_box(&world, e);
    assert!(b.x == 10 || b.x == 20);
    assert_eq!(b.width, 5);
}

#[test]
fn flushing_an_engine_without_a_solver_does_nothing() {
    let mut world = World::new();
    let mut system = LayoutSystem::<VariableX>::new();
    let e = world.entities.create().unwrap();
    let placed = ElementBox { x: 7, y: 8, z: 9, width: 10, height: 11 };
    world.element_boxes.insert(e.id(), placed);
    assert_eq!(system.flush(&world.entities, &mut world.element_boxes), vec![]);
    assert_eq!(the_box(&world, e), placed);
}

#[test]
fn flushing_after_a_pass_finds_nothing_in_store() {
    let mut world = World::new();
    let mut system = LayoutSystem::<VariableX>::new();
    let e = ElementBuilder::new()
        .left(Expression::from_constant(30))
        .width(Expression::from_constant(120))
        .build_with(&mut world, None);
    assert_eq!(layout_x(&mut world, &mut system), Ok(vec![]));
    let moved = ElementBox { x: 1, ..the_box(&world, e) };
    world.element_boxes.insert(e.id(), moved);
    assert_eq!(system.flush(&world.entities, &mut world.element_boxes), vec![]);
    assert_eq!(the_box(&world, e), moved);
    // the engine goes on as before
    world.constraints_x.insert(e.id(), Constraints(vec![e.left().is_constant(40)]));
    assert_eq!(layout_x(&mut world, &mut system), Ok(vec![]));
    assert_eq!(the_box(&world, e).x, 40);
}

#[test]
fn written_values_stay_where_they_were_written() {
    let mut world = World::new();
    let e = world.entities.create().unwrap();
    let other = world.entities.create().unwrap();
    let changes = vec![
        (VariableX::Left(Some(e)), 30),
        (VariableX::Left(Some(other)), 7),
        (VariableX::Width(Some(e)), 120),
        (VariableX::Width(Some(other)), i64::MAX),
        (VariableX::Left(None), 0),
    ];
    let stale = publish(&changes, &world.entities, &mut world.element_boxes);
    assert_eq!(stale, vec![]);
    let b = the_box(&world, e);
    assert_eq!((b.x, b.width, b.right()), (30, 120, 150));
    let o = the_box(&world, other);
    assert_eq!((o.x, o.width), (7, u32::MAX));
    assert_eq!(o.right(), 7 + i64::from(u32::MAX));
}

#[test]
fn what_a_cut_pass_left_in_store_is_written_by_the_next() {
    let mut world = World::new();
    let mut system = LayoutSystem::<VariableX>::new();
    let good = world.entities.create().unwrap();
    let bad = world.entities.create().unwrap();
    world.constraints_x.insert(
        good.id(),
        Constraints(vec![good.left().is_constant(42), good.width().is_constant(8)]),
    );
    world.constraints_x.insert(
        bad.id(),
        Constraints(vec![bad.width().is_constant(1), bad.width().is_constant(2)]),
    );
    assert_eq!(
        layout_x(&mut world, &mut system),
        Err(LayoutError::UnsatisfiableConstraints { entity: bad.id(), axis: Axis::X })
    );
    assert!(world.element_boxes.get(good.id()).is_none());
    // nothing new is asked of the solver: the pass writes what it had in store
    world.constraints_x.remove(bad.id());
    assert_eq!(layout_x(&mut world, &mut system), Ok(vec![]));
    let b = the_box(&world, good);
    assert_eq!((b.x, b.width), (42, 8));
}

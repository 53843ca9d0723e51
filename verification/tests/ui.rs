use berry::button::{Button, ButtonBuilder, ButtonState, ButtonSystem};
use berry::components::{
    Color, ElementBuilder, HasXConstraints, HasYConstraints, HasZConstraints, Name, Stage, Text,
};
use berry::constraint::{Constraints, Expression, Strength};
use berry::entity::Entity;
use berry::event::{Event, Events, Mouse};
use berry::geometry::{ContentSize, ElementBox, WindowSize};
use berry::layout::LayoutError;
use berry::measure::Measurement;
use berry::picture::Picture;
use berry::ui::{FrameReport, UiError, UI};
use berry::variable::Axis;

fn window() -> WindowSize {
    WindowSize { width: 800, height: 600 }
}

fn pointer(x: i32, y: i32, left: bool) -> Mouse {
    Mouse { x, y, left_btn_down: left, middle_btn_down: false, right_btn_down: false }
}

fn frame(ui: &mut UI, measurements: &Vec<Measurement>) -> FrameReport {
    ui.maintain(window(), measurements)
}

#[test]
fn banner_and_pics() {
    let mut ui = UI::new();
    let pic = ElementBuilder::new()
        .name("pic")
        .picture(
            &Picture::new()
                .set_color(255, 255, 0, 255)
                .fill_rect(0, 0, 100, 100)
                .set_color(255, 0, 255, 255)
                .fill_rect(50, 50, 100, 100),
        )
        .left(Expression::from_constant(100))
        .top(Expression::from_constant(100))
        .shrink_to_contents()
        .build(&mut ui);
    assert!(ui.world.names.get(pic.id()).is_some());

    let (lw, lh) = (240u32, 22u32);
    let text_def = Text::new("<- Look at this thing to the left!").color(0, 0, 0, 255);
    let label = ElementBuilder::new()
        .name("label")
        .text(&text_def)
        .left(pic.right())
        .top(pic.bottom().minus_constant(10))
        .width(Expression::from_constant(lw as i64))
        .height(Expression::from_constant(lh as i64))
        .build(&mut ui);

    let measurements = vec![Measurement { entity: label, width: lw, height: lh }];
    let report = frame(&mut ui, &measurements);
    assert!(report.is_clean());
    assert_eq!(report.errors(), vec![]);

    assert_eq!(ui.get_position(pic), Some((100, 100)));
    assert_eq!(ui.get_size(pic), Some((150, 150)));
    assert_eq!(ui.get_position(label), Some((250, 240)));
    assert_eq!(ui.get_size(label), Some((lw, lh)));

    let corner_square_pic = Picture::new().set_color(0, 0, 0, 255).fill_rect(0, 0, 25, 25);
    let corner_square = ElementBuilder::new()
        .name("corner_square")
        .picture(&corner_square_pic)
        .width(Expression::from_constant(25))
        .height(Expression::from_constant(25))
        .right(ui.stage().right())
        .bottom(ui.stage().bottom())
        .build(&mut ui);
    assert!(frame(&mut ui, &measurements).is_clean());
    assert_eq!(ui.get_position(corner_square), Some((775, 575)));
    assert_eq!(ui.get_size(corner_square), Some((25, 25)));
    // what was solved before stays
    assert_eq!(ui.get_position(pic), Some((100, 100)));
    assert_eq!(ui.get_size(pic), Some((150, 150)));
}

#[test]
fn content_sizes_are_replaced_every_frame() {
    let mut ui = UI::new();
    let e = ElementBuilder::new().text(&Text::new("hi")).shrink_to_contents().build(&mut ui);
    let wide = vec![
        Measurement { entity: e, width: 40, height: 10 },
        Measurement { entity: e, width: 30, height: 12 },
    ];
    assert!(frame(&mut ui, &wide).is_clean());
    assert_eq!(
        ui.world.content_sizes.get(e.id()),
        Some(&ContentSize { width: 40, height: 12 })
    );
    assert_eq!(ui.get_size(e), Some((40, 12)));
    let narrow = vec![Measurement { entity: e, width: 20, height: 8 }];
    assert!(frame(&mut ui, &narrow).is_clean());
    assert_eq!(ui.world.content_sizes.get(e.id()), Some(&ContentSize { width: 20, height: 8 }));
    assert_eq!(ui.get_size(e), Some((20, 8)));
}

#[test]
fn picture_and_text_sizes_accumulate() {
    let mut ui = UI::new();
    let e = ElementBuilder::new()
        .picture(&Picture::new().fill_rect(0, 0, 30, 5))
        .text(&Text::new("hi"))
        .build(&mut ui);
    let measurements = vec![Measurement { entity: e, width: 10, height: 12 }];
    frame(&mut ui, &measurements);
    assert_eq!(
        ui.world.content_sizes.get(e.id()),
        Some(&ContentSize { width: 30, height: 12 })
    );
}

#[test]
fn a_missing_measurement_is_kept_apart_and_heals() {
    let mut ui = UI::new();
    let e = ElementBuilder::new().text(&Text::new("hi")).shrink_to_contents().build(&mut ui);
    let report = frame(&mut ui, &vec![]);
    assert_eq!(report.missing, vec![e]);
    assert_eq!(report.deferred(), vec![UiError::MissingMeasurement { entity: e }]);
    // nothing to report
    assert!(report.is_clean());
    assert_eq!(report.errors(), vec![]);
    let report = frame(&mut ui, &vec![Measurement { entity: e, width: 9, height: 9 }]);
    assert_eq!(report.missing, vec![]);
    assert_eq!(report.deferred(), vec![]);
    assert_eq!(report.errors(), vec![]);
    assert_eq!(ui.get_size(e), Some((9, 9)));
}

#[test]
fn an_unsatisfiable_axis_does_not_stop_the_frame() {
    let mut ui = UI::new();
    let e = ElementBuilder::new()
        .x_constraints(vec![])
        .top(Expression::from_constant(7))
        .height(Expression::from_constant(100))
        .width(Expression::from_constant(100))
        .build(&mut ui);
    let clash = ElementBuilder::new()
        .x_constraints(vec![e.left().is_constant(1), e.left().is_constant(2)])
        .build(&mut ui);
    ui.update_mouse(pointer(50, 50, false));
    let report = frame(&mut ui, &vec![]);
    assert_eq!(
        report.layout_x,
        Err(LayoutError::UnsatisfiableConstraints { entity: clash.id(), axis: Axis::X })
    );
    assert_eq!(
        report.errors(),
        vec![UiError::UnsatisfiableConstraints { entity: clash.id(), axis: Axis::X }]
    );
    // the vertical axis was still laid out
    assert_eq!(ui.get_position(e), Some((0, 7)));
    assert_eq!(ui.get_size(e), Some((0, 100)));
}

#[test]
fn dangling_references_are_reported() {
    let mut ui = UI::new();
    let gone = ElementBuilder::new().build(&mut ui);
    assert!(ui.world.delete_entity(gone));
    assert!(!ui.world.delete_entity(gone));
    let _holder = ElementBuilder::new()
        .x_constraints(vec![gone.left().is_constant(10)])
        .z_constraints(vec![gone.z_index().is(Expression::from_constant(3))])
        .build(&mut ui);
    let report = frame(&mut ui, &vec![]);
    assert_eq!(
        report.errors(),
        vec![
            UiError::DanglingConstraintReference { entity: gone, axis: Axis::X },
            UiError::DanglingConstraintReference { entity: gone, axis: Axis::Z },
        ]
    );
    assert_eq!(ui.get_position(gone), None);
    assert_eq!(ui.get_size(gone), None);
}

#[test]
fn paint_order_is_laid_out() {
    let mut ui = UI::new();
    let below = ElementBuilder::new().z_index(Expression::from_constant(4)).build(&mut ui);
    let above = ElementBuilder::new().z_index(below.z_index().plus_constant(2)).build(&mut ui);
    assert!(frame(&mut ui, &vec![]).is_clean());
    assert_eq!(ui.world.element_boxes.get(below.id()).unwrap().z, 4);
    assert_eq!(ui.world.element_boxes.get(above.id()).unwrap().z_index(), 6);
}

#[test]
fn interaction_follows_the_solved_boxes() {
    let mut ui = UI::new();
    let e = ElementBuilder::new()
        .left(Expression::from_constant(0))
        .top(Expression::from_constant(0))
        .width(Expression::from_constant(100))
        .height(Expression::from_constant(100))
        .build(&mut ui);
    ui.update_mouse(pointer(200, 200, false));
    frame(&mut ui, &vec![]);
    assert!(!ui.has_event(e, Event::MouseOver));
    ui.update_mouse(pointer(50, 50, false));
    frame(&mut ui, &vec![]);
    assert!(ui.has_event(e, Event::MouseOver));
    assert!(!ui.has_event(e, Event::MouseMove));
    frame(&mut ui, &vec![]);
    assert!(!ui.has_event(e, Event::MouseOver));
    assert!(!ui.has_event(e, Event::MouseMove));
    ui.update_mouse(pointer(60, 60, false));
    frame(&mut ui, &vec![]);
    assert!(ui.has_event(e, Event::MouseMove));
    ui.update_mouse(pointer(60, 60, true));
    frame(&mut ui, &vec![]);
    assert!(ui.has_event(e, Event::MouseDown));
    ui.update_mouse(pointer(60, 60, false));
    frame(&mut ui, &vec![]);
    assert!(ui.has_event(e, Event::MouseUp));
    ui.update_mouse(pointer(200, 200, false));
    frame(&mut ui, &vec![]);
    assert!(ui.has_event(e, Event::MouseOut));
    assert_eq!(ui.world.window_size, window());
}

fn press_me(ui: &mut UI) -> (Entity, Button) {
    let builder = ButtonBuilder::new("Press me!");
    assert_eq!(builder.text().text, "Press me!");
    assert_eq!(builder.text().text_color, Color { r: 0x33, g: 0x33, b: 0x33, a: 255 });
    let button = builder.build(ui, (60, 20));
    ElementBuilder::new()
        .left(Expression::from_constant(10))
        .top(Expression::from_constant(30))
        .z_index(Expression::from_constant(0))
        .update(ui, button);
    let record = ui.world.buttons.get(button.id()).unwrap().clone();
    (button, record)
}

fn the_box(ui: &UI, e: Entity) -> ElementBox {
    *ui.world.element_boxes.get(e.id()).unwrap()
}

#[test]
fn a_button_is_laid_out_around_its_label() {
    let mut ui = UI::new();
    let (button, record) = press_me(&mut ui);
    assert_eq!(record.text_string, "Press me!");
    let measurements = vec![Measurement { entity: record.label, width: 60, height: 20 }];
    assert!(frame(&mut ui, &measurements).is_clean());
    assert_eq!(the_box(&ui, button), ElementBox { x: 10, y: 30, z: 0, width: 72, height: 32 });
    assert_eq!(
        the_box(&ui, record.label),
        ElementBox { x: 14, y: 34, z: 2, width: 60, height: 20 }
    );
    assert_eq!(
        the_box(&ui, record.foreground),
        ElementBox { x: 10, y: 30, z: 1, width: 68, height: 28 }
    );
    assert_eq!(
        the_box(&ui, record.background),
        ElementBox { x: 14, y: 34, z: 0, width: 68, height: 28 }
    );
    assert_eq!(ui.world.names.get(record.label.id()).unwrap().0, "Button label");
    assert_eq!(ui.world.names.get(record.foreground.id()).unwrap().0, "Button foreground");
    assert_eq!(ui.world.names.get(record.background.id()).unwrap().0, "Button background");
    assert_eq!(
        ui.world.names.get(record.static_constraints.id()).unwrap().0,
        "Button static constraints"
    );
    assert_eq!(
        ui.world.names.get(record.dynamic_constraints.id()).unwrap().0,
        "Button dynamic constraints"
    );
    assert_eq!(*ui.world.pictures.get(record.foreground.id()).unwrap(), Button::foreground());
    assert_eq!(*ui.world.pictures.get(record.background.id()).unwrap(), Button::background());
}

#[test]
fn a_button_reacts_to_the_pointer() {
    let mut ui = UI::new();
    let (button, record) = press_me(&mut ui);
    let measurements = vec![Measurement { entity: record.label, width: 60, height: 20 }];
    ui.update_mouse(pointer(500, 500, false));
    frame(&mut ui, &measurements);
    let color = |ui: &UI| ui.world.texts.get(record.label.id()).unwrap().text_color;
    assert_eq!(color(&ui), Color { r: 0x33, g: 0x33, b: 0x33, a: 255 });

    ui.update_mouse(pointer(20, 40, false));
    frame(&mut ui, &measurements);
    assert!(ui.has_event(button, Event::MouseOver));
    assert_eq!(color(&ui), Color { r: 255, g: 0x33, b: 0x33, a: 255 });

    ui.update_mouse(pointer(20, 40, true));
    frame(&mut ui, &measurements);
    assert!(ui.has_event(button, Event::MouseDown));
    assert_eq!(color(&ui), Color { r: 255, g: 200, b: 0x33, a: 255 });
    // the inset is solved in the frame after the press
    frame(&mut ui, &measurements);
    assert_eq!(the_box(&ui, record.label).x, 16);
    assert_eq!(the_box(&ui, record.label).y, 36);
    assert_eq!(the_box(&ui, record.foreground).x, 12);

    ui.update_mouse(pointer(20, 40, false));
    frame(&mut ui, &measurements);
    assert!(ui.has_event(button, Event::MouseUp));
    assert_eq!(color(&ui), Color { r: 255, g: 0x33, b: 0x33, a: 255 });
    frame(&mut ui, &measurements);
    assert_eq!(the_box(&ui, record.label).x, 14);
    assert_eq!(the_box(&ui, record.foreground).x, 10);

    ui.update_mouse(pointer(500, 500, false));
    frame(&mut ui, &measurements);
    assert!(ui.has_event(button, Event::MouseOut));
    assert_eq!(color(&ui), Color { r: 0x33, g: 0x33, b: 0x33, a: 255 });
    assert_eq!(ui.world.texts.get(record.label.id()).unwrap().text, "Press me!");
}

#[test]
fn button_states_follow_the_events() {
    assert_eq!(ButtonState::after(&Events(vec![])), None);
    assert_eq!(ButtonState::after(&Events(vec![Event::MouseMove])), None);
    assert_eq!(ButtonState::after(&Events(vec![Event::MouseOver])), Some(ButtonState::Over));
    assert_eq!(ButtonState::after(&Events(vec![Event::MouseUp])), Some(ButtonState::Over));
    assert_eq!(ButtonState::after(&Events(vec![Event::MouseOut])), Some(ButtonState::Off));
    assert_eq!(ButtonState::after(&Events(vec![Event::MouseDown])), Some(ButtonState::Down));
    assert_eq!(
        ButtonState::after(&Events(vec![Event::MouseDown, Event::MouseOver])),
        Some(ButtonState::Over)
    );
    assert!(ButtonState::Down.is_down());
    assert!(!ButtonState::Over.is_down());
    assert_eq!(Button::text_in("a", ButtonState::Down), Button::down_text("a"));
    assert_eq!(Button::text_in("a", ButtonState::Over), Button::over_text("a"));
    assert_eq!(Button::text_in("a", ButtonState::Off), Button::up_text("a"));
    assert_eq!(Button::up_text("a").text_color, Color { r: 0x33, g: 0x33, b: 0x33, a: 255 });
    let _ = ButtonSystem::new();
}

#[test]
fn dynamic_constraints_shift_by_the_inset() {
    let mut ui = UI::new();
    let button = ElementBuilder::new().build(&mut ui);
    let foreground = ElementBuilder::new().build(&mut ui);
    let label = ElementBuilder::new().build(&mut ui);
    let (xs, ys) = Button::new_dynamic_constraints(button, foreground, label, true);
    assert!(xs.equals(&Constraints(vec![
        foreground.left().is(button.left().plus_constant(2)),
        label.left().is(button.left().plus_constant(6)),
    ])));
    assert!(ys.equals(&Constraints(vec![
        foreground.top().is(button.top().plus_constant(2)),
        label.top().is(button.top().plus_constant(6)),
    ])));
    let (xs, _) = Button::new_dynamic_constraints(button, foreground, label, false);
    assert!(xs.contains(&label.left().is(button.left().plus_constant(4))));
    assert!(!xs.contains(&label.left().is(button.left().plus_constant(4)).with_strength(Strength::Weak)));
    let _ = Stage.left();
    let _ = Stage.width();
    let _ = Stage.top();
    let _ = Stage.height();
}

#[test]
fn a_report_lists_its_errors_in_the_order_of_the_stages() {
    let mut ui = UI::new();
    let a = ElementBuilder::new().build(&mut ui);
    let b = ElementBuilder::new().build(&mut ui);
    let report = FrameReport {
        missing: vec![a, b],
        layout_x: Ok(vec![b]),
        layout_y: Err(LayoutError::UnrepresentableConstraint { entity: 7, axis: Axis::Y }),
        layout_z: Err(LayoutError::SolverFailure { axis: Axis::Z }),
    };
    assert!(!report.is_clean());
    assert_eq!(
        report.deferred(),
        vec![
            UiError::MissingMeasurement { entity: a },
            UiError::MissingMeasurement { entity: b },
        ]
    );
    assert_eq!(
        report.errors(),
        vec![
            UiError::DanglingConstraintReference { entity: b, axis: Axis::X },
            UiError::UnrepresentableConstraint { entity: 7, axis: Axis::Y },
            UiError::SolverFailure { axis: Axis::Z },
        ]
    );
    let clean = FrameReport {
        missing: vec![],
        layout_x: Ok(vec![]),
        layout_y: Ok(vec![]),
        layout_z: Ok(vec![]),
    };
    assert!(clean.is_clean());
    assert_eq!(clean.errors(), vec![]);
    let unsat = FrameReport {
        missing: vec![],
        layout_x: Err(LayoutError::UnsatisfiableConstraints { entity: 1, axis: Axis::X }),
        layout_y: Ok(vec![]),
        layout_z: Ok(vec![]),
    };
    assert_eq!(
        unsat.errors(),
        vec![UiError::UnsatisfiableConstraints { entity: 1, axis: Axis::X }]
    );
}

#[test]
fn an_unrepresentable_constant_is_reported_by_the_frame() {
    let mut ui = UI::new();
    let e = ElementBuilder::new().top(Expression::from_constant(i64::MIN)).build(&mut ui);
    let report = frame(&mut ui, &vec![]);
    assert_eq!(
        report.errors(),
        vec![UiError::UnrepresentableConstraint { entity: e.id(), axis: Axis::Y }]
    );
}

#[test]
fn deleting_an_entity_takes_its_records_along() {
    let mut ui = UI::new();
    let e = ElementBuilder::new()
        .name("gone")
        .text(&Text::new("x"))
        .picture(&Picture::new().fill_rect(0, 0, 1, 1))
        .left(Expression::from_constant(5))
        .top(Expression::from_constant(5))
        .z_index(Expression::from_constant(5))
        .shrink_to_contents()
        .build(&mut ui);
    let keep = ElementBuilder::new().left(Expression::from_constant(9)).build(&mut ui);
    frame(&mut ui, &vec![Measurement { entity: e, width: 3, height: 3 }]);
    assert_eq!(ui.get_position(e), Some((5, 5)));
    let logged = ui.world.constraints_x.event_count();
    assert!(ui.world.delete_entity(e));
    assert_eq!(ui.world.constraints_x.event_count(), logged + 1);
    assert!(!ui.world.entities.is_alive(e));
    assert!(!ui.world.constraints_x.contains(e.id()));
    assert!(!ui.world.constraints_y.contains(e.id()));
    assert!(!ui.world.constraints_z.contains(e.id()));
    assert!(!ui.world.element_boxes.contains(e.id()));
    assert!(!ui.world.content_sizes.contains(e.id()));
    assert!(!ui.world.shrinkwraps.contains(e.id()));
    assert!(!ui.world.names.contains(e.id()));
    assert!(!ui.world.pictures.contains(e.id()));
    assert!(!ui.world.texts.contains(e.id()));
    assert!(ui.world.constraints_x.contains(keep.id()));
    assert!(frame(&mut ui, &vec![]).is_clean());
    assert_eq!(ui.get_position(keep), Some((9, 0)));
    // the slot is used again, under another generation, and starts clean
    let again = ElementBuilder::new().build(&mut ui);
    assert_eq!(again.id(), e.id());
    assert_ne!(again, e);
    assert_eq!(ui.get_position(again), Some((0, 0)));
    assert_eq!(ui.get_position(e), None);
    assert!(ui.world.entities.can_create());
    assert_eq!(ui.world.entities.slot_count(), 2);
}

#[test]
fn records_are_updated_and_read_by_kind() {
    let mut ui = UI::new();
    let e = ElementBuilder::new().build(&mut ui);
    let other = ElementBuilder::new().name("other").build(&mut ui);
    assert!(ui.get::<Name>(e).is_none());
    ui.update(e, Some(Name("first".to_string())));
    assert_eq!(ui.get::<Name>(e).unwrap().0, "first");
    ui.update(e, Some(Name("second".to_string())));
    assert_eq!(ui.get::<Name>(e).unwrap().0, "second");
    assert_eq!(ui.get::<Name>(other).unwrap().0, "other");
    ui.update::<Name>(e, None);
    assert!(ui.get::<Name>(e).is_none());
    assert_eq!(ui.get::<ElementBox>(e), Some(&ElementBox::new()));
    ui.update(e, Some(Text::new("t")));
    assert_eq!(ui.get::<Text>(e), Some(&Text::new("t")));
    assert!(ui.get::<Picture>(e).is_none());
    ui.update(e, Some(ContentSize { width: 1, height: 2 }));
    assert_eq!(ui.get::<ContentSize>(e), Some(&ContentSize { width: 1, height: 2 }));
    ui.update(e, Some(Events(vec![Event::MouseMove])));
    assert!(ui.has_event(e, Event::MouseMove));
    assert!(ui.world.entities.delete(e));
    assert!(ui.get::<Text>(e).is_none());
    assert!(!ui.has_event(e, Event::MouseMove));
    // taking a record away from a stale entity touches nothing
    assert!(ui.world.texts.contains(e.id()));
    ui.update::<Text>(e, None);
    assert!(ui.world.texts.contains(e.id()));
}

#[test]
fn only_missing_measurements_leave_the_frame_clean() {
    let mut ui = UI::new();
    let a = ElementBuilder::new().build(&mut ui);
    let waiting = FrameReport {
        missing: vec![a],
        layout_x: Ok(vec![]),
        layout_y: Ok(vec![]),
        layout_z: Ok(vec![]),
    };
    assert!(waiting.is_clean());
    assert_eq!(waiting.errors(), vec![]);
    assert_eq!(waiting.deferred(), vec![UiError::MissingMeasurement { entity: a }]);
}

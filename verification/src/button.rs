//! The button widget: a compound of five entities that reacts to the
//! interaction events of the frame.
//!
//! A button is a background, a foreground, a label and two entities that only
//! carry constraints: one set that never changes and one that is replaced
//! when the button goes down or comes up again, which shifts the foreground
//! and the label by a small inset.

use vstd::prelude::*;
use crate::components::{
    equality,
    far_edge,
    Color,
    ElementBuilder,
    HasXConstraints,
    HasYConstraints,
    HasZConstraints,
    Text,
    TextView,
};
use crate::constraint::{
    ConstraintView,
    Constraints,
    ExpressionView,
    LinearConstraint,
    Strength,
};
use crate::entity::{Entities, Entity};
use crate::geometry::ElementBox;
use crate::event::{Event, Events};
use crate::picture::{Picture, PictureCmd};
use crate::storage::{ascending, ComponentEvent, FlaggedStorage, Storage};
use crate::variable::{VariableX, VariableY, VariableZ};
use crate::ui::UI;
use crate::world::World;

verus! {

/// The horizontal padding of a button.
pub const PADDING_W: u32 = 4;

/// The vertical padding of a button.
pub const PADDING_H: u32 = 4;

/// The on/over/off state of a button.
#[derive(Clone, Copy, Debug, Hash, PartialEq, Eq, Structural)]
pub enum ButtonState {
    Off,
    Over,
    Down,
}

/// The record of a button: its label text and the entities it is made of.
#[derive(Clone, Debug, PartialEq)]
pub struct Button {
    pub text_string: String,
    pub background: Entity,
    pub foreground: Entity,
    pub label: Entity,
    pub static_constraints: Entity,
    pub dynamic_constraints: Entity,
}

/// The state the events of a frame put a button in, if they change it:
/// entering or releasing makes it hovered, leaving switches it off, pressing
/// puts it down, in this order of precedence.
pub open spec fn reaction(events: Seq<Event>) -> Option<ButtonState> {
    if events.contains(Event::MouseOver) || events.contains(Event::MouseUp) {
        Some(ButtonState::Over)
    } else if events.contains(Event::MouseOut) {
        Some(ButtonState::Off)
    } else if events.contains(Event::MouseDown) {
        Some(ButtonState::Down)
    } else {
        None
    }
}

/// The colour of the label in the given state.
pub open spec fn label_color(state: ButtonState) -> Color {
    match state {
        ButtonState::Off => Color { r: 0x33, g: 0x33, b: 0x33, a: 255 },
        ButtonState::Over => Color { r: 255, g: 0x33, b: 0x33, a: 255 },
        ButtonState::Down => Color { r: 255, g: 200, b: 0x33, a: 255 },
    }
}

/// The label of a button that reads `s`, in the given state.
pub open spec fn label_text(s: Seq<char>, state: ButtonState) -> TextView {
    TextView { text_color: label_color(state), ..Text::plain(s) }
}

/// By how much a button that is down shifts its foreground and label.
pub open spec fn inset(is_down: bool) -> int {
    if is_down {
        2
    } else {
        0
    }
}

/// The horizontal constraints that follow the state of a button: the
/// foreground and the label sit at the button's left edge plus the inset, the
/// label further in by the padding.
pub open spec fn dynamic_x(button: Entity, foreground: Entity, label: Entity, is_down: bool) -> Seq<
    ConstraintView<VariableX>,
> {
    seq![
        equality(
            ExpressionView::variable(VariableX::Left(Some(foreground))),
            ExpressionView::variable(VariableX::Left(Some(button))).shifted(inset(is_down)),
        ),
        equality(
            ExpressionView::variable(VariableX::Left(Some(label))),
            ExpressionView::variable(VariableX::Left(Some(button))).shifted(4 + inset(is_down)),
        ),
    ]
}

/// The vertical constraints that follow the state of a button.
pub open spec fn dynamic_y(button: Entity, foreground: Entity, label: Entity, is_down: bool) -> Seq<
    ConstraintView<VariableY>,
> {
    seq![
        equality(
            ExpressionView::variable(VariableY::Top(Some(foreground))),
            ExpressionView::variable(VariableY::Top(Some(button))).shifted(inset(is_down)),
        ),
        equality(
            ExpressionView::variable(VariableY::Top(Some(label))),
            ExpressionView::variable(VariableY::Top(Some(button))).shifted(4 + inset(is_down)),
        ),
    ]
}

impl ButtonState {
    /// The state the events of a frame put a button in, if they change it.
    pub fn after(events: &Events) -> (r: Option<ButtonState>)
        ensures
            r == reaction(events@),
    {
        if events.contains(Event::MouseOver) || events.contains(Event::MouseUp) {
            Some(ButtonState::Over)
        } else if events.contains(Event::MouseOut) {
            Some(ButtonState::Off)
        } else if events.contains(Event::MouseDown) {
            Some(ButtonState::Down)
        } else {
            None
        }
    }

    /// Whether the button is held down.
    pub fn is_down(&self) -> (b: bool)
        ensures
            b == (*self == ButtonState::Down),
    {
        match self {
            ButtonState::Down => true,
            _ => false,
        }
    }
}

impl Button {
    /// The picture behind a button: one translucent black pixel, stretched
    /// by the layout.
    pub fn background() -> (p: Picture)
        ensures
            p@ == seq![PictureCmd::SetColor(0, 0, 0, 128), PictureCmd::FillRect(0, 0, 1, 1)],
    {
        let p = Picture::new().set_color(0, 0, 0, 128).fill_rect(0, 0, 1, 1);
        assert(p@ =~= seq![PictureCmd::SetColor(0, 0, 0, 128), PictureCmd::FillRect(0, 0, 1, 1)]);
        p
    }

    /// The picture of the face of a button: one white pixel.
    pub fn foreground() -> (p: Picture)
        ensures
            p@ == seq![PictureCmd::SetColor(255, 255, 255, 255), PictureCmd::FillRect(0, 0, 1, 1)],
    {
        let p = Picture::new().set_color(255, 255, 255, 255).fill_rect(0, 0, 1, 1);
        assert(p@ =~= seq![
            PictureCmd::SetColor(255, 255, 255, 255),
            PictureCmd::FillRect(0, 0, 1, 1),
        ]);
        p
    }

    /// The label of a button at rest.
    pub fn up_text(s: &str) -> (t: Text)
        ensures
            t@ == label_text(s@, ButtonState::Off),
    {
        Text::new(s).color(0x33, 0x33, 0x33, 255)
    }

    /// The label of a button the pointer is over.
    pub fn over_text(s: &str) -> (t: Text)
        ensures
            t@ == label_text(s@, ButtonState::Over),
    {
        Text::new(s).color(255, 0x33, 0x33, 255)
    }

    /// The label of a button that is held down.
    pub fn down_text(s: &str) -> (t: Text)
        ensures
            t@ == label_text(s@, ButtonState::Down),
    {
        Text::new(s).color(255, 200, 0x33, 255)
    }

    /// The label of a button in the given state.
    pub fn text_in(s: &str, state: ButtonState) -> (t: Text)
        ensures
            t@ == label_text(s@, state),
    {
        match state {
            ButtonState::Off => Button::up_text(s),
            ButtonState::Over => Button::over_text(s),
            ButtonState::Down => Button::down_text(s),
        }
    }

    /// The constraints that follow the state of a button, horizontal and
    /// vertical.
    pub fn new_dynamic_constraints(
        button: Entity,
        foreground: Entity,
        label: Entity,
        is_down: bool,
    ) -> (r: (Constraints<VariableX>, Constraints<VariableY>))
        ensures
            r.0@ == dynamic_x(button, foreground, label, is_down),
            r.1@ == dynamic_y(button, foreground, label, is_down),
    {
        let (inset_w, inset_h): (i64, i64) = if is_down {
            ((PADDING_W / 2) as i64, (PADDING_H / 2) as i64)
        } else {
            (0, 0)
        };
        let mut xs: Vec<LinearConstraint<VariableX>> = Vec::new();
        xs.push(foreground.left().is(button.left().plus_constant(inset_w)));
        xs.push(label.left().is(button.left().plus_constant(PADDING_W as i64 + inset_w)));
        let mut ys: Vec<LinearConstraint<VariableY>> = Vec::new();
        ys.push(foreground.top().is(button.top().plus_constant(inset_h)));
        ys.push(label.top().is(button.top().plus_constant(PADDING_H as i64 + inset_h)));
        let r = (Constraints(xs), Constraints(ys));
        assert(r.0@ =~= dynamic_x(button, foreground, label, is_down));
        assert(r.1@ =~= dynamic_y(button, foreground, label, is_down));
        r
    }
}

/// What the stores say, record by record.
pub open spec fn said<V: View>(records: Map<u32, V>) -> Map<u32, V::V> {
    Map::new(|id: u32| records.contains_key(id), |id: u32| records[id]@)
}

/// The three stores a button reacts through, by what their records say,
/// with the logs of the two constraint stores.
pub ghost struct Faces {
    pub texts: Map<u32, TextView>,
    pub xs: Map<u32, Seq<ConstraintView<VariableX>>>,
    pub ys: Map<u32, Seq<ConstraintView<VariableY>>>,
    pub x_log: Seq<ComponentEvent>,
    pub y_log: Seq<ComponentEvent>,
}

/// The faces of three stores.
pub open spec fn faces_of(
    texts: &Storage<Text>,
    xs: &FlaggedStorage<Constraints<VariableX>>,
    ys: &FlaggedStorage<Constraints<VariableY>>,
) -> Faces {
    Faces {
        texts: said(texts@),
        xs: said(xs@),
        ys: said(ys@),
        x_log: xs.events(),
        y_log: ys.events(),
    }
}

/// The stores after the button of entity `ent` has taken on `state`: its
/// label reads the same in the colour of the state, and its dynamic
/// constraint sets are replaced by those of the state, which the two
/// constraint stores log.
pub open spec fn restyled(
    faces: Faces,
    ent: Entity,
    text: Seq<char>,
    foreground: Entity,
    label: Entity,
    dynamic: Entity,
    state: ButtonState,
) -> Faces {
    Faces {
        texts: faces.texts.insert(label.id(), label_text(text, state)),
        xs: faces.xs.insert(
            dynamic.id(),
            dynamic_x(ent, foreground, label, state == ButtonState::Down),
        ),
        ys: faces.ys.insert(
            dynamic.id(),
            dynamic_y(ent, foreground, label, state == ButtonState::Down),
        ),
        x_log: faces.x_log.push(
            FlaggedStorage::<Constraints<VariableX>>::insert_event(faces.xs.dom(), dynamic.id()),
        ),
        y_log: faces.y_log.push(
            FlaggedStorage::<Constraints<VariableY>>::insert_event(faces.ys.dom(), dynamic.id()),
        ),
    }
}

/// The stores after the button with index `id` has reacted to its events of
/// the frame. Nothing changes where no live entity has that index, where it
/// has no events, or where its events call for no reaction.
pub open spec fn reacted(
    faces: Faces,
    entities: &Entities,
    buttons: Map<u32, Button>,
    events: Map<u32, Events>,
    id: u32,
) -> Faces {
    if buttons.contains_key(id) && events.contains_key(id) && entities.occupant(id) is Some {
        match reaction(events[id]@) {
            Some(state) => restyled(
                faces,
                entities.occupant(id)->0,
                buttons[id].text_string@,
                buttons[id].foreground,
                buttons[id].label,
                buttons[id].dynamic_constraints,
                state,
            ),
            None => faces,
        }
    } else {
        faces
    }
}

/// The stores after the buttons with the given indices have reacted, one
/// after the other.
pub open spec fn all_reacted(
    faces: Faces,
    entities: &Entities,
    buttons: Map<u32, Button>,
    events: Map<u32, Events>,
    ids: Seq<u32>,
) -> Faces
    decreases ids.len(),
{
    if ids.len() == 0 {
        faces
    } else {
        reacted(
            all_reacted(faces, entities, buttons, events, ids.drop_last()),
            entities,
            buttons,
            events,
            ids.last(),
        )
    }
}

/// The stores `after` are the stores `before` once every button has
/// reacted to its events, in ascending order of the buttons' indices.
pub open spec fn buttons_reacted(
    entities: &Entities,
    buttons: Map<u32, Button>,
    events: Map<u32, Events>,
    before: Faces,
    after: Faces,
) -> bool {
    exists|ids: Seq<u32>|
        ascending(ids, buttons.dom()) && after == #[trigger] all_reacted(
            before,
            entities,
            buttons,
            events,
            ids,
        )
}

/// The system that lets buttons react to the interaction events of the
/// frame.
pub struct ButtonSystem;

impl ButtonSystem {
    pub fn new() -> ButtonSystem {
        ButtonSystem
    }

    /// Lets every button react to its events of the frame, in ascending order
    /// of their indices: the label changes colour and the dynamic constraint
    /// sets are replaced.
    pub fn run(
        &mut self,
        entities: &Entities,
        buttons: &Storage<Button>,
        x_constraints: &mut FlaggedStorage<Constraints<VariableX>>,
        y_constraints: &mut FlaggedStorage<Constraints<VariableY>>,
        events: &Storage<Events>,
        texts: &mut Storage<Text>,
    )
        ensures
            buttons_reacted(
                entities,
                buttons@,
                events@,
                faces_of(old(texts), old(x_constraints), old(y_constraints)),
                faces_of(final(texts), final(x_constraints), final(y_constraints)),
            ),
    {
        let ids = buttons.ids();
        let ghost start = faces_of(texts, x_constraints, y_constraints);
        let mut k: usize = 0;
        while k < ids.len()
            invariant
                0 <= k <= ids.len(),
                ascending(ids@, buttons@.dom()),
                faces_of(texts, x_constraints, y_constraints) == all_reacted(
                    start,
                    entities,
                    buttons@,
                    events@,
                    ids@.take(k as int),
                ),
            decreases ids.len() - k,
        {
            let id = ids[k];
            let ghost before = faces_of(texts, x_constraints, y_constraints);
            proof {
                assert(ids@.take(k + 1).drop_last() =~= ids@.take(k as int));
                assert(ids@.take(k + 1).last() == id);
                assert(ids@.contains(id));
            }
            match entities.entity(id) {
                Some(ent) => {
                    match buttons.get(id) {
                        Some(button) => {
                            match events.get(id) {
                                Some(button_events) => {
                                    match ButtonState::after(button_events) {
                                        Some(state) => {
                                            let ghost old_x = x_constraints@;
                                            let ghost old_y = y_constraints@;
                                            let text = Button::text_in(
                                                button.text_string.as_str(),
                                                state,
                                            );
                                            texts.insert(button.label.id(), text);
                                            let (xs, ys) = Button::new_dynamic_constraints(
                                                ent,
                                                button.foreground,
                                                button.label,
                                                state.is_down(),
                                            );
                                            x_constraints.insert(
                                                button.dynamic_constraints.id(),
                                                xs,
                                            );
                                            y_constraints.insert(
                                                button.dynamic_constraints.id(),
                                                ys,
                                            );
                                            proof {
                                                let want = restyled(
                                                    before,
                                                    ent,
                                                    button.text_string@,
                                                    button.foreground,
                                                    button.label,
                                                    button.dynamic_constraints,
                                                    state,
                                                );
                                                assert(said(texts@) =~= want.texts);
                                                assert(said(x_constraints@) =~= want.xs);
                                                assert(said(y_constraints@) =~= want.ys);
                                                assert(before.xs.dom() =~= old_x.dom());
                                                assert(before.ys.dom() =~= old_y.dom());
                                            }
                                        },
                                        None => {},
                                    }
                                },
                                None => {},
                            }
                        },
                        None => {},
                    }
                },
                None => {},
            }
            k += 1;
        }
        assert(ids@.take(k as int) =~= ids@);
    }
}

/// The required equality that ties the edges of `e` together horizontally,
/// which every set made by a builder starts with.
pub open spec fn tied_x(e: Entity) -> ConstraintView<VariableX> {
    equality(
        far_edge(VariableX::Left(Some(e)), VariableX::Width(Some(e))),
        far_edge(VariableX::Left(Some(e)), VariableX::Width(Some(e))),
    )
}

/// The required equality that ties the edges of `e` together vertically.
pub open spec fn tied_y(e: Entity) -> ConstraintView<VariableY> {
    equality(
        far_edge(VariableY::Top(Some(e)), VariableY::Height(Some(e))),
        far_edge(VariableY::Top(Some(e)), VariableY::Height(Some(e))),
    )
}

/// The horizontal constraints of a button that never change: the label is
/// three paddings narrower than the button, the foreground and the background
/// two paddings wider than the label, the background starts one padding in,
/// and the button weakly prefers the width of its text plus three paddings.
pub open spec fn static_x(
    button: Entity,
    foreground: Entity,
    background: Entity,
    label: Entity,
    text_width: u32,
) -> Seq<ConstraintView<VariableX>> {
    let width = |e: Entity| ExpressionView::variable(VariableX::Width(Some(e)));
    let left = |e: Entity| ExpressionView::variable(VariableX::Left(Some(e)));
    seq![
        equality(width(label), width(button).shifted(-12)),
        equality(width(foreground), width(label).shifted(8)),
        equality(width(background), width(label).shifted(8)),
        equality(left(background), left(button).shifted(4)),
        equality(width(button), ExpressionView::constant(text_width + 12)).weighted(Strength::Weak),
    ]
}

/// The vertical constraints of a button that never change.
pub open spec fn static_y(
    button: Entity,
    foreground: Entity,
    background: Entity,
    label: Entity,
    text_height: u32,
) -> Seq<ConstraintView<VariableY>> {
    let height = |e: Entity| ExpressionView::variable(VariableY::Height(Some(e)));
    let top = |e: Entity| ExpressionView::variable(VariableY::Top(Some(e)));
    seq![
        equality(height(label), height(button).shifted(-12)),
        equality(height(foreground), height(label).shifted(8)),
        equality(height(background), height(label).shifted(8)),
        equality(top(background), top(button).shifted(4)),
        equality(height(button), ExpressionView::constant(text_height + 12)).weighted(
            Strength::Weak,
        ),
    ]
}

/// The paint order of a button: the background at the button's place, the
/// foreground above it, the label on top.
pub open spec fn static_z(button: Entity, foreground: Entity, background: Entity, label: Entity) -> Seq<
    ConstraintView<VariableZ>,
> {
    let z = |e: Entity| ExpressionView::variable(VariableZ(e));
    seq![
        equality(z(background), z(button)),
        equality(z(foreground), z(button).shifted(1)),
        equality(z(label), z(button).shifted(2)),
    ]
}

/// The log of a store that held records for `held` after a set was attached
/// to `first` and then one to `second`.
pub open spec fn logged_twice(log: Seq<ComponentEvent>, held: Set<u32>, first: u32, second: u32) -> Seq<
    ComponentEvent,
> {
    log.push(FlaggedStorage::<Constraints<VariableX>>::insert_event(held, first)).push(
        FlaggedStorage::<Constraints<VariableX>>::insert_event(held.insert(first), second),
    )
}

/// The six entities a button is made of.
pub open spec fn parts(button: Entity, record: Button) -> Seq<Entity> {
    seq![
        button,
        record.foreground,
        record.background,
        record.label,
        record.static_constraints,
        record.dynamic_constraints,
    ]
}

/// The records of every index but those of `touched` are as they were.
pub open spec fn same_elsewhere<V>(before: Map<u32, V>, after: Map<u32, V>, touched: Set<u32>) -> bool {
    forall|id: u32|
        !touched.contains(id) ==> (#[trigger] after.contains_key(id) == before.contains_key(id))
            && (before.contains_key(id) ==> after[id] == before[id])
}

/// A builder for a button with a given label.
pub struct ButtonBuilder {
    text: Text,
}

impl ButtonBuilder {
    /// The label the button is built with.
    pub closed spec fn label(&self) -> TextView {
        self.text@
    }

    pub fn new(s: &str) -> (b: ButtonBuilder)
        ensures
            b.label() == label_text(s@, ButtonState::Off),
    {
        ButtonBuilder { text: Button::up_text(s) }
    }

    /// The label, for whoever measures it.
    pub fn text(&self) -> (t: &Text)
        ensures
            t@ == self.label(),
    {
        &self.text
    }

    /// The world `after` is the world `before` with a button assembled in it:
    /// six entities minted in turn, the button itself and its five parts, with
    /// their payloads, their rectangles and their constraint sets. A part
    /// whose index still had a rectangle keeps it; the others start zeroed.
    /// No other record changes.
    pub open spec fn assembled(
        &self,
        before: &World,
        after: &World,
        button: Entity,
        text_size: (u32, u32),
    ) -> bool {
        &&& after.buttons@.contains_key(button.id())
        &&& {
            let record = after.buttons@[button.id()];
            let made = parts(button, record);
            let foreground = record.foreground;
            let background = record.background;
            let label = record.label;
            let fixed = record.static_constraints;
            let moving = record.dynamic_constraints;
            &&& record.text_string@ == self.label().text
            &&& after.entities.minted_in_turn(&before.entities, made)
            &&& forall|i: int|
                0 <= i < made.len() ==> before.entities.occupant((#[trigger] made[i]).id()) is None
                    && after.entities.is_live(made[i])
            &&& forall|i: int, j: int| 0 <= i < j < made.len() ==> made[i].id() != made[j].id()
            &&& forall|id: u32|
                (forall|i: int| 0 <= i < made.len() ==> (#[trigger] made[i]).id() != id)
                    ==> after.entities.occupant(id) == before.entities.occupant(id)
            &&& forall|i: int|
                0 <= i < made.len() ==> after.element_boxes@.contains_key(
                    (#[trigger] made[i]).id(),
                ) && after.element_boxes@[made[i].id()] == (if before.element_boxes@.contains_key(
                    made[i].id(),
                ) {
                    before.element_boxes@[made[i].id()]
                } else {
                    ElementBox::zeroed()
                })
            &&& after.pictures@.contains_key(foreground.id())
            &&& after.pictures@[foreground.id()]@ == seq![
                PictureCmd::SetColor(255, 255, 255, 255),
                PictureCmd::FillRect(0, 0, 1, 1),
            ]
            &&& after.pictures@.contains_key(background.id())
            &&& after.pictures@[background.id()]@ == seq![
                PictureCmd::SetColor(0, 0, 0, 128),
                PictureCmd::FillRect(0, 0, 1, 1),
            ]
            &&& after.texts@.contains_key(label.id())
            &&& after.texts@[label.id()]@ == self.label()
            &&& after.names@.contains_key(foreground.id())
            &&& after.names@[foreground.id()]@ == "Button foreground"@
            &&& after.names@.contains_key(background.id())
            &&& after.names@[background.id()]@ == "Button background"@
            &&& after.names@.contains_key(label.id())
            &&& after.names@[label.id()]@ == "Button label"@
            &&& after.names@.contains_key(fixed.id())
            &&& after.names@[fixed.id()]@ == "Button static constraints"@
            &&& after.names@.contains_key(moving.id())
            &&& after.names@[moving.id()]@ == "Button dynamic constraints"@
            &&& after.constraints_x@.contains_key(fixed.id())
            &&& after.constraints_x@[fixed.id()]@ == seq![tied_x(fixed)] + static_x(
                button,
                foreground,
                background,
                label,
                text_size.0,
            )
            &&& after.constraints_y@.contains_key(fixed.id())
            &&& after.constraints_y@[fixed.id()]@ == seq![tied_y(fixed)] + static_y(
                button,
                foreground,
                background,
                label,
                text_size.1,
            )
            &&& after.constraints_z@.contains_key(fixed.id())
            &&& after.constraints_z@[fixed.id()]@ == static_z(button, foreground, background, label)
            &&& after.constraints_x@.contains_key(moving.id())
            &&& after.constraints_x@[moving.id()]@ == seq![tied_x(moving)] + dynamic_x(
                button,
                foreground,
                label,
                false,
            )
            &&& after.constraints_y@.contains_key(moving.id())
            &&& after.constraints_y@[moving.id()]@ == seq![tied_y(moving)] + dynamic_y(
                button,
                foreground,
                label,
                false,
            )
            &&& same_elsewhere(before.buttons@, after.buttons@, set![button.id()])
            &&& same_elsewhere(
                before.element_boxes@,
                after.element_boxes@,
                set![
                    button.id(),
                    foreground.id(),
                    background.id(),
                    label.id(),
                    fixed.id(),
                    moving.id(),
                ],
            )
            &&& same_elsewhere(
                before.pictures@,
                after.pictures@,
                set![foreground.id(), background.id()],
            )
            &&& same_elsewhere(before.texts@, after.texts@, set![label.id()])
            &&& same_elsewhere(
                before.names@,
                after.names@,
                set![foreground.id(), background.id(), label.id(), fixed.id(), moving.id()],
            )
            &&& same_elsewhere(
                before.constraints_x@,
                after.constraints_x@,
                set![fixed.id(), moving.id()],
            )
            &&& same_elsewhere(
                before.constraints_y@,
                after.constraints_y@,
                set![fixed.id(), moving.id()],
            )
            &&& same_elsewhere(before.constraints_z@, after.constraints_z@, set![fixed.id()])
        }
        &&& after.constraints_x.events() == logged_twice(
            before.constraints_x.events(),
            before.constraints_x@.dom(),
            after.buttons@[button.id()].static_constraints.id(),
            after.buttons@[button.id()].dynamic_constraints.id(),
        )
        &&& after.constraints_y.events() == logged_twice(
            before.constraints_y.events(),
            before.constraints_y@.dom(),
            after.buttons@[button.id()].static_constraints.id(),
            after.buttons@[button.id()].dynamic_constraints.id(),
        )
        &&& after.constraints_z.events() == before.constraints_z.events().push(
            FlaggedStorage::<Constraints<VariableZ>>::insert_event(
                before.constraints_z@.dom(),
                after.buttons@[button.id()].static_constraints.id(),
            ),
        )
        &&& after.content_sizes == before.content_sizes
        &&& after.shrinkwraps == before.shrinkwraps
        &&& after.events == before.events
        &&& after.invisibles == before.invisibles
        &&& after.mouse == before.mouse
        &&& after.window_size == before.window_size
    }

    /// Assembles the button and returns its entity. `text_size` is the
    /// measured size of the label.
    pub fn build(self, ui: &mut UI, text_size: (u32, u32)) -> (button: Entity)
        requires
            old(ui).world.entities.slots() + 6 <= u32::MAX,
        ensures
            self.assembled(&old(ui).world, &final(ui).world, button, text_size),
            *final(ui) == (UI { world: final(ui).world, ..*old(ui) }),
    {
        self.assemble(&mut ui.world, text_size)
    }

    /// Assembles the button in the world and returns its entity. `text_size`
    /// is the measured size of the label.
    pub fn assemble(self, world: &mut World, text_size: (u32, u32)) -> (button: Entity)
        requires
            old(world).entities.slots() + 6 <= u32::MAX,
        ensures
            self.assembled(old(world), final(world), button, text_size),
    {
        let text = self.text;
        let (tw, th) = text_size;
        proof {
            world.entities.lemma_room();
        }
        let button = ElementBuilder::new().build_with(world, None);
        let ghost e1 = world.entities;
        proof {
            world.entities.lemma_room();
        }
        let foreground = ElementBuilder::new().picture(&Button::foreground()).name(
            "Button foreground",
        ).build_with(world, None);
        let ghost e2 = world.entities;
        proof {
            world.entities.lemma_room();
        }
        let background = ElementBuilder::new().picture(&Button::background()).name(
            "Button background",
        ).build_with(world, None);
        let ghost e3 = world.entities;
        proof {
            world.entities.lemma_room();
        }
        let label = ElementBuilder::new().text(&text).name("Button label").build_with(world, None);
        let ghost e4 = world.entities;
        proof {
            world.entities.lemma_room();
        }
        let total_width: i64 = tw as i64 + (PADDING_W * 3) as i64;
        let total_height: i64 = th as i64 + (PADDING_H * 3) as i64;
        let mut xs: Vec<LinearConstraint<VariableX>> = Vec::new();
        xs.push(label.width().is(button.width().minus_constant((3 * PADDING_W) as i64)));
        xs.push(foreground.width().is(label.width().plus_constant((PADDING_W * 2) as i64)));
        xs.push(background.width().is(label.width().plus_constant((PADDING_W * 2) as i64)));
        xs.push(background.left().is(button.left().plus_constant(PADDING_W as i64)));
        xs.push(button.width().is_constant(total_width).with_strength(Strength::Weak));
        let mut ys: Vec<LinearConstraint<VariableY>> = Vec::new();
        ys.push(label.height().is(button.height().minus_constant((3 * PADDING_H) as i64)));
        ys.push(foreground.height().is(label.height().plus_constant((PADDING_H * 2) as i64)));
        ys.push(background.height().is(label.height().plus_constant((PADDING_H * 2) as i64)));
        ys.push(background.top().is(button.top().plus_constant(PADDING_H as i64)));
        ys.push(button.height().is_constant(total_height).with_strength(Strength::Weak));
        let mut zs: Vec<LinearConstraint<VariableZ>> = Vec::new();
        zs.push(background.z_index().is(button.z_index()));
        zs.push(foreground.z_index().is(button.z_index().plus_constant(1)));
        zs.push(label.z_index().is(button.z_index().plus_constant(2)));
        proof {
            assert(Seq::new(xs@.len(), |i: int| xs@[i]@) =~= static_x(
                button,
                foreground,
                background,
                label,
                tw,
            ));
            assert(Seq::new(ys@.len(), |i: int| ys@[i]@) =~= static_y(
                button,
                foreground,
                background,
                label,
                th,
            ));
            assert(Seq::new(zs@.len(), |i: int| zs@[i]@) =~= static_z(
                button,
                foreground,
                background,
                label,
            ));
        }
        let static_constraints = ElementBuilder::new().name(
            "Button static constraints",
        ).x_constraints(xs).y_constraints(ys).z_constraints(zs).build_with(world, None);
        let ghost e5 = world.entities;
        proof {
            world.entities.lemma_room();
        }
        let (dxs, dys) = Button::new_dynamic_constraints(button, foreground, label, false);
        let dynamic_constraints = ElementBuilder::new().name(
            "Button dynamic constraints",
        ).x_constraints(dxs.0).y_constraints(dys.0).build_with(world, None);
        let ghost e6 = world.entities;
        let record = Button {
            text_string: text.text.clone(),
            background,
            foreground,
            label,
            static_constraints,
            dynamic_constraints,
        };
        world.buttons.insert(button.id(), record);
        proof {
            let made = parts(button, record);
            assert(made[0] == button && made[1] == foreground && made[2] == background && made[3]
                == label && made[4] == static_constraints && made[5] == dynamic_constraints);
            let steps = seq![old(world).entities, e1, e2, e3, e4, e5, e6];
            assert(Entities::in_turn(steps, made)) by {
                assert forall|i: int| 0 <= i < made.len() implies (#[trigger] steps[i + 1]).minted(
                    &steps[i],
                    made[i],
                ) by {
                    if i == 0 {
                    } else if i == 1 {
                    } else if i == 2 {
                    } else if i == 3 {
                    } else if i == 4 {
                    } else {
                    }
                }
            }
            assert(steps.first() == old(world).entities && steps.last() == world.entities);
        }
        button
    }
}

} // verus!

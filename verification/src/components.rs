//! The records that make up a widget, and the builder that attaches them.

use vstd::prelude::*;
use crate::constraint::{
    ConstraintView,
    Constraints,
    Expression,
    ExpressionView,
    LinearConstraint,
    Relation,
    Strength,
};
use crate::entity::Entity;
use crate::geometry::ElementBox;
use crate::picture::{Picture, PictureCmd};
use crate::shrinkwrap::Shrinkwrap;
use crate::variable::{VariableX, VariableY, VariableZ};
use crate::ui::UI;
use crate::world::World;

verus! {

/// Marks an entity that is laid out but not drawn.
#[derive(Clone, Copy, Debug, PartialEq, Eq, Structural)]
pub struct Invisible;

/// A colour: red, green, blue, alpha.
#[derive(Clone, Copy, Debug, PartialEq, Eq, Hash, Structural)]
pub struct Color {
    pub r: u8,
    pub g: u8,
    pub b: u8,
    pub a: u8,
}

/// A piece of text with the font and colour to render it in.
#[derive(Clone, Debug, PartialEq, Eq, Hash)]
pub struct Text {
    pub font_path: String,
    pub font_size: u16,
    pub text_color: Color,
    pub text: String,
}

/// What a text record says.
pub ghost struct TextView {
    pub font_path: Seq<char>,
    pub font_size: u16,
    pub text_color: Color,
    pub text: Seq<char>,
}

impl View for Text {
    type V = TextView;

    open spec fn view(&self) -> TextView {
        TextView {
            font_path: self.font_path@,
            font_size: self.font_size,
            text_color: self.text_color,
            text: self.text@,
        }
    }
}

impl Text {
    /// The text `s` in the default font, size 16, opaque white.
    pub open spec fn plain(s: Seq<char>) -> TextView {
        TextView {
            font_path: "komika.ttf"@,
            font_size: 16,
            text_color: Color { r: 255, g: 255, b: 255, a: 255 },
            text: s,
        }
    }

    pub fn new(s: &str) -> (t: Text)
        ensures
            t@ == Text::plain(s@),
    {
        Text {
            font_path: "komika.ttf".to_owned(),
            font_size: 16,
            text_color: Color { r: 255, g: 255, b: 255, a: 255 },
            text: s.to_owned(),
        }
    }

    /// The same text in another colour.
    pub fn color(self, r: u8, g: u8, b: u8, a: u8) -> (t: Text)
        ensures
            t@ == (TextView { text_color: Color { r, g, b, a }, ..self@ }),
    {
        let mut t = self;
        t.text_color = Color { r, g, b, a };
        t
    }

    /// A copy of the text.
    pub fn duplicate(&self) -> (t: Text)
        ensures
            t@ == self@,
    {
        Text {
            font_path: self.font_path.clone(),
            font_size: self.font_size,
            text_color: self.text_color,
            text: self.text.clone(),
        }
    }
}

/// The name of an entity, for diagnostics.
#[derive(Clone, Debug)]
pub struct Name(pub String);

impl View for Name {
    type V = Seq<char>;

    open spec fn view(&self) -> Seq<char> {
        self.0@
    }
}

/// What can be constrained horizontally: it has a left edge and a width, and
/// its right edge is their sum.
pub trait HasXConstraints {
    /// The entity whose variables these are; `None` for the stage.
    spec fn anchor_x(&self) -> Option<Entity>;

    fn left(&self) -> (e: Expression<VariableX>)
        ensures
            e@ == ExpressionView::variable(VariableX::Left(self.anchor_x())),
    ;

    fn width(&self) -> (e: Expression<VariableX>)
        ensures
            e@ == ExpressionView::variable(VariableX::Width(self.anchor_x())),
    ;

    fn right(&self) -> (e: Expression<VariableX>)
        ensures
            e@ == far_edge(VariableX::Left(self.anchor_x()), VariableX::Width(self.anchor_x())),
    ;
}

/// What can be constrained vertically: it has a top edge and a height, and
/// its bottom edge is their sum.
pub trait HasYConstraints {
    /// The entity whose variables these are; `None` for the stage.
    spec fn anchor_y(&self) -> Option<Entity>;

    fn top(&self) -> (e: Expression<VariableY>)
        ensures
            e@ == ExpressionView::variable(VariableY::Top(self.anchor_y())),
    ;

    fn height(&self) -> (e: Expression<VariableY>)
        ensures
            e@ == ExpressionView::variable(VariableY::Height(self.anchor_y())),
    ;

    fn bottom(&self) -> (e: Expression<VariableY>)
        ensures
            e@ == far_edge(VariableY::Top(self.anchor_y()), VariableY::Height(self.anchor_y())),
    ;
}

/// What has a place in the paint order.
pub trait HasZConstraints {
    fn z_index(&self) -> (e: Expression<VariableZ>)
        ensures
            e@ == ExpressionView::variable(self.paint_variable()),
    ;

    /// The variable that holds the place in the paint order.
    spec fn paint_variable(&self) -> VariableZ;
}

/// The far edge of a span: its start plus its extent.
pub open spec fn far_edge<T>(start: T, extent: T) -> ExpressionView<T> {
    ExpressionView::variable(start).plus(ExpressionView::variable(extent))
}

/// Builds the expression `start + extent`.
fn sum_of<T: Copy>(start: T, extent: T) -> (e: Expression<T>)
    ensures
        e@ == far_edge(start, extent),
{
    Expression::from_variable(start).plus(Expression::from_variable(extent))
}

impl HasXConstraints for Entity {
    open spec fn anchor_x(&self) -> Option<Entity> {
        Some(*self)
    }

    fn left(&self) -> (e: Expression<VariableX>) {
        Expression::from_variable(VariableX::Left(Some(*self)))
    }

    fn width(&self) -> (e: Expression<VariableX>) {
        Expression::from_variable(VariableX::Width(Some(*self)))
    }

    fn right(&self) -> (e: Expression<VariableX>) {
        sum_of(VariableX::Left(Some(*self)), VariableX::Width(Some(*self)))
    }
}

impl HasYConstraints for Entity {
    open spec fn anchor_y(&self) -> Option<Entity> {
        Some(*self)
    }

    fn top(&self) -> (e: Expression<VariableY>) {
        Expression::from_variable(VariableY::Top(Some(*self)))
    }

    fn height(&self) -> (e: Expression<VariableY>) {
        Expression::from_variable(VariableY::Height(Some(*self)))
    }

    fn bottom(&self) -> (e: Expression<VariableY>) {
        sum_of(VariableY::Top(Some(*self)), VariableY::Height(Some(*self)))
    }
}

impl HasZConstraints for Entity {
    fn z_index(&self) -> (e: Expression<VariableZ>) {
        Expression::from_variable(VariableZ(*self))
    }

    open spec fn paint_variable(&self) -> VariableZ {
        VariableZ(*self)
    }
}

/// The root of every layout: the viewport. Its left and top edges are pinned
/// to zero and its width and height follow the window.
#[derive(Clone, Copy, Debug, PartialEq, Eq, Structural)]
pub struct Stage;

impl HasXConstraints for Stage {
    open spec fn anchor_x(&self) -> Option<Entity> {
        None
    }

    fn left(&self) -> (e: Expression<VariableX>) {
        Expression::from_variable(VariableX::Left(None))
    }

    fn width(&self) -> (e: Expression<VariableX>) {
        Expression::from_variable(VariableX::Width(None))
    }

    fn right(&self) -> (e: Expression<VariableX>) {
        sum_of(VariableX::Left(None), VariableX::Width(None))
    }
}

impl HasYConstraints for Stage {
    open spec fn anchor_y(&self) -> Option<Entity> {
        None
    }

    fn top(&self) -> (e: Expression<VariableY>) {
        Expression::from_variable(VariableY::Top(None))
    }

    fn height(&self) -> (e: Expression<VariableY>) {
        Expression::from_variable(VariableY::Height(None))
    }

    fn bottom(&self) -> (e: Expression<VariableY>) {
        sum_of(VariableY::Top(None), VariableY::Height(None))
    }
}

/// The required equality of two expressions.
pub open spec fn equality<T>(lhs: ExpressionView<T>, rhs: ExpressionView<T>) -> ConstraintView<T> {
    ConstraintView { lhs, relation: Relation::Equal, rhs, strength: Strength::Required }
}

/// The equality of `lhs` and the expression, if there is one.
pub open spec fn wish<T>(lhs: ExpressionView<T>, wanted: Option<Expression<T>>) -> Seq<
    ConstraintView<T>,
> {
    match wanted {
        Some(e) => seq![equality(lhs, e@)],
        None => Seq::empty(),
    }
}

/// The views of the constraints, or nothing.
pub open spec fn extras<T>(extra: Option<Vec<LinearConstraint<T>>>) -> Seq<ConstraintView<T>> {
    match extra {
        Some(v) => Seq::new(v@.len(), |i: int| v@[i]@),
        None => Seq::empty(),
    }
}

/// Whether anything is asked on an axis with edges.
pub open spec fn asked<T>(
    first: Option<Expression<T>>,
    size: Option<Expression<T>>,
    far: Option<Expression<T>>,
    extra: Option<Vec<LinearConstraint<T>>>,
) -> bool {
    first is Some || size is Some || far is Some || extra is Some
}

/// The constraint set of an entity on an axis with edges: what is asked of
/// its near edge, its extent and its far edge, then the relation that ties
/// the three together, then the constraints given as they are.
pub open spec fn span_set<T>(
    start: T,
    extent: T,
    first: Option<Expression<T>>,
    size: Option<Expression<T>>,
    far: Option<Expression<T>>,
    extra: Option<Vec<LinearConstraint<T>>>,
) -> Seq<ConstraintView<T>> {
    wish(ExpressionView::variable(start), first) + wish(ExpressionView::variable(extent), size)
        + wish(far_edge(start, extent), far) + seq![
        equality(far_edge(start, extent), far_edge(start, extent)),
    ] + extras(extra)
}

/// Builds the set `span_set` describes.
fn span<T: Copy>(
    start: T,
    extent: T,
    first: Option<Expression<T>>,
    size: Option<Expression<T>>,
    far: Option<Expression<T>>,
    extra: Option<Vec<LinearConstraint<T>>>,
) -> (r: Constraints<T>)
    ensures
        r@ == span_set(start, extent, first, size, far, extra),
{
    let mut out: Vec<LinearConstraint<T>> = Vec::new();
    let ghost mut built: Seq<ConstraintView<T>> = Seq::empty();
    match first {
        Some(e) => {
            proof {
                built = built.push(equality(ExpressionView::variable(start), e@));
            }
            out.push(Expression::from_variable(start).is(e));
        },
        None => {},
    }
    match size {
        Some(e) => {
            proof {
                built = built.push(equality(ExpressionView::variable(extent), e@));
            }
            out.push(Expression::from_variable(extent).is(e));
        },
        None => {},
    }
    match far {
        Some(e) => {
            proof {
                built = built.push(equality(far_edge(start, extent), e@));
            }
            out.push(sum_of(start, extent).is(e));
        },
        None => {},
    }
    // A concrete relationship between the near edge, the extent and the far edge.
    out.push(sum_of(start, extent).is(sum_of(start, extent)));
    proof {
        built = built.push(equality(far_edge(start, extent), far_edge(start, extent)));
        assert(built =~= wish(ExpressionView::variable(start), first) + wish(
            ExpressionView::variable(extent),
            size,
        ) + wish(far_edge(start, extent), far) + seq![
            equality(far_edge(start, extent), far_edge(start, extent)),
        ]);
        assert(out.len() == built.len());
        assert forall|j: int| 0 <= j < out.len() implies out@[j]@ == built[j] by {}
    }
    match extra {
        Some(more) => {
            let mut i: usize = 0;
            while i < more.len()
                invariant
                    0 <= i <= more.len(),
                    out.len() == built.len() + i,
                    forall|j: int| 0 <= j < built.len() ==> out@[j]@ == built[j],
                    forall|j: int| 0 <= j < i ==> out@[built.len() + j]@ == more@[j]@,
                decreases more.len() - i,
            {
                out.push(more[i].duplicate());
                i += 1;
            }
        },
        None => {},
    }
    let r = Constraints(out);
    assert(r@ =~= span_set(start, extent, first, size, far, extra));
    r
}

/// A builder for a UI entity: what is asked of its edges and extents, the
/// constraints given as they are, and its payload.
pub struct ElementBuilder {
    pub left: Option<Expression<VariableX>>,
    pub width: Option<Expression<VariableX>>,
    pub right: Option<Expression<VariableX>>,
    pub top: Option<Expression<VariableY>>,
    pub z: Option<Expression<VariableZ>>,
    pub height: Option<Expression<VariableY>>,
    pub bottom: Option<Expression<VariableY>>,
    pub text: Option<Text>,
    pub picture: Option<Picture>,
    pub name: Option<Name>,
    pub x_constraints: Option<Vec<LinearConstraint<VariableX>>>,
    pub y_constraints: Option<Vec<LinearConstraint<VariableY>>>,
    pub z_constraints: Option<Vec<LinearConstraint<VariableZ>>>,
    pub shrinkwrap: bool,
}

impl ElementBuilder {
    /// Whether nothing has been asked of the builder yet.
    pub open spec fn blank(&self) -> bool {
        &&& self.left is None
        &&& self.width is None
        &&& self.right is None
        &&& self.top is None
        &&& self.z is None
        &&& self.height is None
        &&& self.bottom is None
        &&& self.text is None
        &&& self.picture is None
        &&& self.name is None
        &&& self.x_constraints is None
        &&& self.y_constraints is None
        &&& self.z_constraints is None
        &&& !self.shrinkwrap
    }

    pub fn new() -> (eb: ElementBuilder)
        ensures
            eb.blank(),
    {
        ElementBuilder {
            left: None,
            width: None,
            right: None,
            top: None,
            z: None,
            height: None,
            bottom: None,
            picture: None,
            text: None,
            name: None,
            x_constraints: None,
            y_constraints: None,
            z_constraints: None,
            shrinkwrap: false,
        }
    }

    /// Lets the rectangle follow the size of the content.
    pub fn shrink_to_contents(self) -> (eb: ElementBuilder)
        ensures
            eb == (ElementBuilder { shrinkwrap: true, ..self }),
    {
        let mut eb = self;
        eb.shrinkwrap = true;
        eb
    }

    pub fn name(self, n: &str) -> (eb: ElementBuilder)
        ensures
            eb.name is Some,
            eb.name->0@ == n@,
            eb == (ElementBuilder { name: eb.name, ..self }),
    {
        let mut eb = self;
        eb.name = Some(Name(n.to_owned()));
        eb
    }

    pub fn text(self, t: &Text) -> (eb: ElementBuilder)
        ensures
            eb.text is Some,
            eb.text->0@ == t@,
            eb == (ElementBuilder { text: eb.text, ..self }),
    {
        let mut eb = self;
        eb.text = Some(t.duplicate());
        eb
    }

    pub fn left(self, t: Expression<VariableX>) -> (eb: ElementBuilder)
        ensures
            eb == (ElementBuilder { left: Some(t), ..self }),
    {
        let mut eb = self;
        eb.left = Some(t);
        eb
    }

    pub fn width(self, t: Expression<VariableX>) -> (eb: ElementBuilder)
        ensures
            eb == (ElementBuilder { width: Some(t), ..self }),
    {
        let mut eb = self;
        eb.width = Some(t);
        eb
    }

    pub fn right(self, t: Expression<VariableX>) -> (eb: ElementBuilder)
        ensures
            eb == (ElementBuilder { right: Some(t), ..self }),
    {
        let mut eb = self;
        eb.right = Some(t);
        eb
    }

    pub fn top(self, t: Expression<VariableY>) -> (eb: ElementBuilder)
        ensures
            eb == (ElementBuilder { top: Some(t), ..self }),
    {
        let mut eb = self;
        eb.top = Some(t);
        eb
    }

    pub fn height(self, t: Expression<VariableY>) -> (eb: ElementBuilder)
        ensures
            eb == (ElementBuilder { height: Some(t), ..self }),
    {
        let mut eb = self;
        eb.height = Some(t);
        eb
    }

    pub fn bottom(self, t: Expression<VariableY>) -> (eb: ElementBuilder)
        ensures
            eb == (ElementBuilder { bottom: Some(t), ..self }),
    {
        let mut eb = self;
        eb.bottom = Some(t);
        eb
    }

    pub fn z_index(self, t: Expression<VariableZ>) -> (eb: ElementBuilder)
        ensures
            eb == (ElementBuilder { z: Some(t), ..self }),
    {
        let mut eb = self;
        eb.z = Some(t);
        eb
    }

    pub fn picture(self, pic: &Picture) -> (eb: ElementBuilder)
        ensures
            eb.picture is Some,
            eb.picture->0@ == pic@,
            eb == (ElementBuilder { picture: eb.picture, ..self }),
    {
        let mut eb = self;
        eb.picture = Some(copy_picture(pic));
        eb
    }

    pub fn x_constraints(self, xs: Vec<LinearConstraint<VariableX>>) -> (eb: ElementBuilder)
        ensures
            eb == (ElementBuilder { x_constraints: Some(xs), ..self }),
    {
        let mut eb = self;
        eb.x_constraints = Some(xs);
        eb
    }

    pub fn y_constraints(self, ys: Vec<LinearConstraint<VariableY>>) -> (eb: ElementBuilder)
        ensures
            eb == (ElementBuilder { y_constraints: Some(ys), ..self }),
    {
        let mut eb = self;
        eb.y_constraints = Some(ys);
        eb
    }

    pub fn z_constraints(self, zs: Vec<LinearConstraint<VariableZ>>) -> (eb: ElementBuilder)
        ensures
            eb == (ElementBuilder { z_constraints: Some(zs), ..self }),
    {
        let mut eb = self;
        eb.z_constraints = Some(zs);
        eb
    }
}

impl ElementBuilder {
    /// Whether anything is asked horizontally.
    pub open spec fn asks_x(&self) -> bool {
        asked(self.left, self.width, self.right, self.x_constraints)
    }

    /// Whether anything is asked vertically.
    pub open spec fn asks_y(&self) -> bool {
        asked(self.top, self.height, self.bottom, self.y_constraints)
    }

    /// The horizontal constraint set the builder attaches to `ent`.
    pub open spec fn x_set(&self, ent: Entity) -> Seq<ConstraintView<VariableX>> {
        span_set(
            VariableX::Left(Some(ent)),
            VariableX::Width(Some(ent)),
            self.left,
            self.width,
            self.right,
            self.x_constraints,
        )
    }

    /// The vertical constraint set the builder attaches to `ent`.
    pub open spec fn y_set(&self, ent: Entity) -> Seq<ConstraintView<VariableY>> {
        span_set(
            VariableY::Top(Some(ent)),
            VariableY::Height(Some(ent)),
            self.top,
            self.height,
            self.bottom,
            self.y_constraints,
        )
    }

    /// The paint-order constraint set the builder attaches to `ent`: the
    /// constraints given as they are, then what is asked of the entity's own
    /// place.
    pub open spec fn z_set(&self, ent: Entity) -> Seq<ConstraintView<VariableZ>> {
        extras(self.z_constraints) + wish(ExpressionView::variable(VariableZ(ent)), self.z)
    }

    /// The world `after` is the world `before` with the builder's records
    /// attached to `ent`. A constraint set is attached on an axis where
    /// something is asked, replacing the set that was there; the payload
    /// records are attached where the builder has them; a zeroed rectangle is
    /// attached unless the entity has one. Nothing else changes.
    pub open spec fn placed_on(&self, before: &World, after: &World, ent: Entity) -> bool {
        let id = ent.id();
        &&& if self.asks_x() {
            after.constraints_x.attached_to(&before.constraints_x, id)
                && after.constraints_x@[id]@ == self.x_set(ent)
        } else {
            after.constraints_x == before.constraints_x
        }
        &&& if self.asks_y() {
            after.constraints_y.attached_to(&before.constraints_y, id)
                && after.constraints_y@[id]@ == self.y_set(ent)
        } else {
            after.constraints_y == before.constraints_y
        }
        &&& if self.z_set(ent).len() > 0 {
            after.constraints_z.attached_to(&before.constraints_z, id)
                && after.constraints_z@[id]@ == self.z_set(ent)
        } else {
            after.constraints_z == before.constraints_z
        }
        &&& if self.text is Some {
            after.texts.attached_to(&before.texts, id) && after.texts@[id]@ == self.text->0@
        } else {
            after.texts == before.texts
        }
        &&& if self.picture is Some {
            after.pictures.attached_to(&before.pictures, id) && after.pictures@[id]@
                == self.picture->0@
        } else {
            after.pictures == before.pictures
        }
        &&& if self.name is Some {
            after.names.attached_to(&before.names, id) && after.names@[id]@ == self.name->0@
        } else {
            after.names == before.names
        }
        &&& if self.shrinkwrap {
            after.shrinkwraps.attached_to(&before.shrinkwraps, id)
        } else {
            after.shrinkwraps == before.shrinkwraps
        }
        &&& if before.element_boxes@.contains_key(id) {
            after.element_boxes == before.element_boxes
        } else {
            after.element_boxes.attached_to(&before.element_boxes, id)
                && after.element_boxes@[id] == ElementBox::zeroed()
        }
        &&& after.content_sizes == before.content_sizes
        &&& after.events == before.events
        &&& after.invisibles == before.invisibles
        &&& after.buttons == before.buttons
        &&& after.mouse == before.mouse
        &&& after.window_size == before.window_size
    }

    /// Attaches the builder's records to the live entity `may_ent`, or to a
    /// newly minted entity where none is given, and returns the entity.
    pub fn build_with(self, world: &mut World, may_ent: Option<Entity>) -> (ent: Entity)
        requires
            may_ent is None ==> old(world).entities.has_room(),
            may_ent matches Some(e) ==> old(world).entities.is_live(e),
        ensures
            self.placed_on(old(world), final(world), ent),
            may_ent matches Some(e) ==> ent == e && final(world).entities == old(world).entities,
            may_ent is None ==> final(world).entities.minted(&old(world).entities, ent),
    {
        let ent = match may_ent {
            Some(e) => e,
            None => {
                match world.entities.create() {
                    Some(e) => e,
                    None => vstd::pervasive::unreached(),
                }
            },
        };
        let id = ent.id();

        let has_x_constraints = self.left.is_some() || self.width.is_some() || self.right.is_some()
            || self.x_constraints.is_some();
        if has_x_constraints {
            let xs = span(
                VariableX::Left(Some(ent)),
                VariableX::Width(Some(ent)),
                self.left,
                self.width,
                self.right,
                self.x_constraints,
            );
            world.constraints_x.insert(id, xs);
        }

        let has_y_constraints = self.top.is_some() || self.height.is_some()
            || self.bottom.is_some() || self.y_constraints.is_some();
        if has_y_constraints {
            let ys = span(
                VariableY::Top(Some(ent)),
                VariableY::Height(Some(ent)),
                self.top,
                self.height,
                self.bottom,
                self.y_constraints,
            );
            world.constraints_y.insert(id, ys);
        }

        let mut zs: Vec<LinearConstraint<VariableZ>> = match self.z_constraints {
            Some(zs) => zs,
            None => Vec::new(),
        };
        match self.z {
            Some(z) => {
                zs.push(Expression::from_variable(VariableZ(ent)).is(z));
            },
            None => {},
        }
        if zs.len() > 0 {
            let set = Constraints(zs);
            assert(set@ =~= self.z_set(ent));
            world.constraints_z.insert(id, set);
        } else {
            assert(self.z_set(ent) =~= Seq::empty());
        }

        match self.text {
            Some(t) => {
                world.texts.insert(id, t);
            },
            None => {},
        }
        match self.picture {
            Some(pic) => {
                world.pictures.insert(id, pic);
            },
            None => {},
        }
        match self.name {
            Some(name) => {
                world.names.insert(id, name);
            },
            None => {},
        }
        if self.shrinkwrap {
            world.shrinkwraps.insert(id, Shrinkwrap);
        }
        if !world.element_boxes.contains(id) {
            world.element_boxes.insert(id, ElementBox::new());
        }
        ent
    }

    /// Attaches the builder's records to a newly minted entity.
    pub fn build(self, ui: &mut UI) -> (ent: Entity)
        requires
            old(ui).world.entities.has_room(),
        ensures
            self.placed_on(&old(ui).world, &final(ui).world, ent),
            final(ui).world.entities.minted(&old(ui).world.entities, ent),
            *final(ui) == (UI { world: final(ui).world, ..*old(ui) }),
    {
        self.build_with(&mut ui.world, None)
    }

    /// Attaches the builder's records to the live entity `ent`, replacing
    /// records of the same kind.
    pub fn update(self, ui: &mut UI, ent: Entity)
        requires
            old(ui).world.entities.is_live(ent),
        ensures
            self.placed_on(&old(ui).world, &final(ui).world, ent),
            final(ui).world.entities == old(ui).world.entities,
            *final(ui) == (UI { world: final(ui).world, ..*old(ui) }),
    {
        self.build_with(&mut ui.world, Some(ent));
    }
}

/// A copy of the picture.
pub fn copy_picture(pic: &Picture) -> (r: Picture)
    ensures
        r@ == pic@,
{
    let mut out: Vec<PictureCmd> = Vec::new();
    let mut i: usize = 0;
    while i < pic.0.len()
        invariant
            0 <= i <= pic.0.len(),
            out@ == pic.0@.take(i as int),
        decreases pic.0.len() - i,
    {
        out.push(pic.0[i]);
        assert(pic.0@.take(i + 1) == pic.0@.take(i as int).push(pic.0@[i as int]));
        i += 1;
    }
    assert(pic.0@.take(i as int) == pic.0@);
    Picture(out)
}

} // verus!

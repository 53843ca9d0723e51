//! The variables of the three layout axes, and what sets the axes apart.

use vstd::prelude::*;
use crate::constraint::{LinearConstraint, ConstraintView, Constraints, Expression};
use crate::entity::Entity;
use crate::geometry::{ContentSize, ElementBox, WindowSize};

verus! {

/// A solver value cut to the range of a signed coordinate.
pub open spec fn to_coordinate(value: int) -> i32 {
    if value < i32::MIN {
        i32::MIN
    } else if value > i32::MAX {
        i32::MAX
    } else {
        value as i32
    }
}

/// A solver value cut to the range of an extent: nothing below zero.
pub open spec fn to_extent(value: int) -> u32 {
    if value < 0 {
        0
    } else if value > u32::MAX {
        u32::MAX
    } else {
        value as u32
    }
}

/// Cuts a solver value to the range of a signed coordinate.
pub fn coordinate(value: i64) -> (r: i32)
    ensures
        r == to_coordinate(value as int),
{
    if value < i32::MIN as i64 {
        i32::MIN
    } else if value > i32::MAX as i64 {
        i32::MAX
    } else {
        value as i32
    }
}

/// Cuts a solver value to the range of an extent.
pub fn extent(value: i64) -> (r: u32)
    ensures
        r == to_extent(value as int),
{
    if value < 0 {
        0
    } else if value > u32::MAX as i64 {
        u32::MAX
    } else {
        value as u32
    }
}

/// Whether two optional entities are the same.
pub fn same_anchor(a: &Option<Entity>, b: &Option<Entity>) -> (r: bool)
    ensures
        r == (*a == *b),
{
    match (a, b) {
        (Some(x), Some(y)) => x == y,
        (None, None) => true,
        _ => false,
    }
}

/// One of the three axes, each laid out by a solver of its own.
#[derive(Clone, Copy, Debug, PartialEq, Eq, Hash, Structural)]
pub enum Axis {
    /// Horizontal.
    X,
    /// Vertical.
    Y,
    /// Paint order.
    Z,
}

/// A variable of one layout axis, with the policy of that axis: the
/// constraints its solver starts with, the variables that follow the viewport, and
/// the field of the rectangle a solved value is written to.
pub trait AxisVariable: Copy + Sized {
    /// Whether the two variables are the same.
    fn same(&self, other: &Self) -> (b: bool)
        ensures
            b == (*self == *other),
    ;

    /// The axis the variables of this type lie on.
    spec fn on_axis() -> Axis;

    fn axis() -> (a: Axis)
        ensures
            a == Self::on_axis(),
    ;

    /// The entity the variable belongs to; `None` for the stage.
    spec fn owner(&self) -> Option<Entity>;

    fn entity(&self) -> (r: Option<Entity>)
        ensures
            r == self.owner(),
    ;

    /// The constraints that pin the stage on this axis.
    spec fn root() -> Seq<ConstraintView<Self>>;

    fn initial_constraints() -> (c: Constraints<Self>)
        ensures
            c@ == Self::root(),
    ;

    /// The variables whose value follows the viewport: it is suggested to the
    /// solver whenever the viewport is another than the one the solver has.
    spec fn edits() -> Seq<Self>;

    fn edit_variables() -> (v: Vec<Self>)
        ensures
            v@ == Self::edits(),
    ;

    /// The value to suggest for the variable, given the viewport.
    spec fn edit_target(&self, window: WindowSize) -> u32;

    fn get_edit_variable_value(&self, window: &WindowSize) -> (v: u32)
        ensures
            v == self.edit_target(*window),
    ;

    /// The variable that holds the extent of `e` on this axis together with
    /// the extent of a payload of size `size`; `None` on an axis without
    /// extents.
    spec fn fitted(e: Entity, size: ContentSize) -> Option<(Self, u32)>;

    fn fit(e: Entity, size: &ContentSize) -> (r: Option<(Self, u32)>)
        ensures
            r == Self::fitted(e, *size),
    ;

    /// The rectangle after the solved `value` of the variable is written
    /// into it.
    spec fn placed(&self, b: ElementBox, value: int) -> ElementBox;

    fn place(&self, b: ElementBox, value: i64) -> (r: ElementBox)
        ensures
            r == self.placed(b, value as int),
    ;

    /// A rectangle a value was written into holds it: writing it once more
    /// changes nothing. And it goes on holding it while the value of another
    /// variable of the same owner is written.
    proof fn lemma_placed(&self, other: &Self, b: ElementBox, value: int, later: int)
        ensures
            self.placed(self.placed(b, value), value) == self.placed(b, value),
            *self != *other && self.owner() == other.owner() && self.placed(b, value) == b
                ==> self.placed(other.placed(b, later), value) == other.placed(b, later),
    ;
}

/// The variables of the horizontal axis. The right edge is no variable of its
/// own: it is `left + width`.
#[derive(Clone, Copy, Debug, PartialEq, Eq, Hash)]
pub enum VariableX {
    Left(Option<Entity>),
    Width(Option<Entity>),
}

/// The variables of the vertical axis.
#[derive(Clone, Copy, Debug, PartialEq, Eq, Hash)]
pub enum VariableY {
    Top(Option<Entity>),
    Height(Option<Entity>),
}

/// The one variable of the paint-order axis.
#[derive(Clone, Copy, Debug, PartialEq, Eq, Hash)]
pub struct VariableZ(pub Entity);

impl AxisVariable for VariableX {
    open spec fn on_axis() -> Axis {
        Axis::X
    }

    fn axis() -> (a: Axis) {
        Axis::X
    }

    fn same(&self, other: &Self) -> (b: bool) {
        match (self, other) {
            (VariableX::Left(a), VariableX::Left(b)) => same_anchor(a, b),
            (VariableX::Width(a), VariableX::Width(b)) => same_anchor(a, b),
            _ => false,
        }
    }

    open spec fn owner(&self) -> Option<Entity> {
        match self {
            VariableX::Left(e) => *e,
            VariableX::Width(e) => *e,
        }
    }

    fn entity(&self) -> (r: Option<Entity>) {
        match self {
            VariableX::Left(e) => *e,
            VariableX::Width(e) => *e,
        }
    }

    /// The stage starts at the left edge of the viewport.
    open spec fn root() -> Seq<ConstraintView<Self>> {
        seq![ConstraintView::pin(VariableX::Left(None), 0)]
    }

    fn initial_constraints() -> (c: Constraints<Self>) {
        let mut out: Vec<LinearConstraint<VariableX>> = Vec::new();
        out.push(Expression::from_variable(VariableX::Left(None)).is_constant(0));
        let c = Constraints(out);
        assert(c@ =~= Self::root());
        c
    }

    /// The width of the stage follows the viewport.
    open spec fn edits() -> Seq<Self> {
        seq![VariableX::Width(None)]
    }

    fn edit_variables() -> (v: Vec<Self>) {
        let mut v: Vec<VariableX> = Vec::new();
        v.push(VariableX::Width(None));
        assert(v@ =~= Self::edits());
        v
    }

    open spec fn edit_target(&self, window: WindowSize) -> u32 {
        match self {
            VariableX::Width(None) => window.width,
            _ => 0,
        }
    }

    fn get_edit_variable_value(&self, window: &WindowSize) -> (v: u32) {
        match self {
            VariableX::Width(None) => window.width,
            _ => 0,
        }
    }

    open spec fn fitted(e: Entity, size: ContentSize) -> Option<(Self, u32)> {
        Some((VariableX::Width(Some(e)), size.width))
    }

    fn fit(e: Entity, size: &ContentSize) -> (r: Option<(Self, u32)>) {
        Some((VariableX::Width(Some(e)), size.width))
    }

    open spec fn placed(&self, b: ElementBox, value: int) -> ElementBox {
        match self {
            VariableX::Left(_) => ElementBox { x: to_coordinate(value), ..b },
            VariableX::Width(_) => ElementBox { width: to_extent(value), ..b },
        }
    }

    fn place(&self, b: ElementBox, value: i64) -> (r: ElementBox) {
        match self {
            VariableX::Left(_) => ElementBox { x: coordinate(value), ..b },
            VariableX::Width(_) => ElementBox { width: extent(value), ..b },
        }
    }

    proof fn lemma_placed(&self, other: &Self, b: ElementBox, value: int, later: int) {
    }
}

impl AxisVariable for VariableY {
    open spec fn on_axis() -> Axis {
        Axis::Y
    }

    fn axis() -> (a: Axis) {
        Axis::Y
    }

    fn same(&self, other: &Self) -> (b: bool) {
        match (self, other) {
            (VariableY::Top(a), VariableY::Top(b)) => same_anchor(a, b),
            (VariableY::Height(a), VariableY::Height(b)) => same_anchor(a, b),
            _ => false,
        }
    }

    open spec fn owner(&self) -> Option<Entity> {
        match self {
            VariableY::Top(e) => *e,
            VariableY::Height(e) => *e,
        }
    }

    fn entity(&self) -> (r: Option<Entity>) {
        match self {
            VariableY::Top(e) => *e,
            VariableY::Height(e) => *e,
        }
    }

    /// The stage starts at the top edge of the viewport.
    open spec fn root() -> Seq<ConstraintView<Self>> {
        seq![ConstraintView::pin(VariableY::Top(None), 0)]
    }

    fn initial_constraints() -> (c: Constraints<Self>) {
        let mut out: Vec<LinearConstraint<VariableY>> = Vec::new();
        out.push(Expression::from_variable(VariableY::Top(None)).is_constant(0));
        let c = Constraints(out);
        assert(c@ =~= Self::root());
        c
    }

    /// The height of the stage follows the viewport.
    open spec fn edits() -> Seq<Self> {
        seq![VariableY::Height(None)]
    }

    fn edit_variables() -> (v: Vec<Self>) {
        let mut v: Vec<VariableY> = Vec::new();
        v.push(VariableY::Height(None));
        assert(v@ =~= Self::edits());
        v
    }

    open spec fn edit_target(&self, window: WindowSize) -> u32 {
        match self {
            VariableY::Height(None) => window.height,
            _ => 0,
        }
    }

    fn get_edit_variable_value(&self, window: &WindowSize) -> (v: u32) {
        match self {
            VariableY::Height(None) => window.height,
            _ => 0,
        }
    }

    open spec fn fitted(e: Entity, size: ContentSize) -> Option<(Self, u32)> {
        Some((VariableY::Height(Some(e)), size.height))
    }

    fn fit(e: Entity, size: &ContentSize) -> (r: Option<(Self, u32)>) {
        Some((VariableY::Height(Some(e)), size.height))
    }

    open spec fn placed(&self, b: ElementBox, value: int) -> ElementBox {
        match self {
            VariableY::Top(_) => ElementBox { y: to_coordinate(value), ..b },
            VariableY::Height(_) => ElementBox { height: to_extent(value), ..b },
        }
    }

    fn place(&self, b: ElementBox, value: i64) -> (r: ElementBox) {
        match self {
            VariableY::Top(_) => ElementBox { y: coordinate(value), ..b },
            VariableY::Height(_) => ElementBox { height: extent(value), ..b },
        }
    }

    proof fn lemma_placed(&self, other: &Self, b: ElementBox, value: int, later: int) {
    }
}

impl AxisVariable for VariableZ {
    open spec fn on_axis() -> Axis {
        Axis::Z
    }

    fn axis() -> (a: Axis) {
        Axis::Z
    }

    fn same(&self, other: &Self) -> (b: bool) {
        self.0 == other.0
    }

    open spec fn owner(&self) -> Option<Entity> {
        Some(self.0)
    }

    fn entity(&self) -> (r: Option<Entity>) {
        Some(self.0)
    }

    /// The paint order has no stage to pin.
    open spec fn root() -> Seq<ConstraintView<Self>> {
        Seq::empty()
    }

    fn initial_constraints() -> (c: Constraints<Self>) {
        Constraints::new()
    }

    /// Nothing on this axis follows the viewport.
    open spec fn edits() -> Seq<Self> {
        Seq::empty()
    }

    fn edit_variables() -> (v: Vec<Self>) {
        Vec::new()
    }

    open spec fn edit_target(&self, window: WindowSize) -> u32 {
        0
    }

    fn get_edit_variable_value(&self, window: &WindowSize) -> (v: u32) {
        0
    }

    open spec fn fitted(e: Entity, size: ContentSize) -> Option<(Self, u32)> {
        None
    }

    fn fit(e: Entity, size: &ContentSize) -> (r: Option<(Self, u32)>) {
        None
    }

    open spec fn placed(&self, b: ElementBox, value: int) -> ElementBox {
        ElementBox { z: to_coordinate(value), ..b }
    }

    fn place(&self, b: ElementBox, value: i64) -> (r: ElementBox) {
        ElementBox { z: coordinate(value), ..b }
    }

    proof fn lemma_placed(&self, other: &Self, b: ElementBox, value: int, later: int) {
    }
}

} // verus!

//! Linear constraints over the variables of one axis.
//!
//! A constraint relates two linear expressions with `<=`, `==` or `>=` and
//! carries a strength that says how readily the solver may violate it.
//! Constraints are plain values: two of them are equal when they are written
//! the same way.

use vstd::prelude::*;
use crate::variable::AxisVariable;

verus! {

/// How the two sides of a constraint relate.
#[derive(Clone, Copy, Debug, PartialEq, Eq, Hash, Structural)]
pub enum Relation {
    LessOrEqual,
    Equal,
    GreaterOrEqual,
}

/// The priority of a constraint when constraints conflict:
/// `Weak < Medium < Strong < Required`. A required constraint is never
/// violated.
#[derive(Clone, Copy, Debug, PartialEq, Eq, Hash, Structural)]
pub enum Strength {
    Weak,
    Medium,
    Strong,
    Required,
}

impl Strength {
    /// The place of the strength in the order, weakest first.
    pub open spec fn spec_rank(&self) -> u8 {
        match self {
            Strength::Weak => 0,
            Strength::Medium => 1,
            Strength::Strong => 2,
            Strength::Required => 3,
        }
    }

    #[verifier::when_used_as_spec(spec_rank)]
    pub fn rank(&self) -> (r: u8)
        ensures
            r == self.rank(),
    {
        match self {
            Strength::Weak => 0,
            Strength::Medium => 1,
            Strength::Strong => 2,
            Strength::Required => 3,
        }
    }
}

/// A variable multiplied by a coefficient.
#[derive(Clone, Copy, Debug)]
pub struct LinearTerm<T> {
    pub variable: T,
    pub coefficient: i32,
}

/// A sum of terms plus a constant.
#[derive(Debug)]
pub struct Expression<T> {
    pub terms: Vec<LinearTerm<T>>,
    pub constant: i64,
}

/// What an expression says: its terms in order, and its constant.
pub ghost struct ExpressionView<T> {
    pub terms: Seq<LinearTerm<T>>,
    pub constant: int,
}

impl<T> ExpressionView<T> {
    /// The expression `1 * v`.
    pub open spec fn variable(v: T) -> ExpressionView<T> {
        ExpressionView { terms: seq![LinearTerm { variable: v, coefficient: 1 }], constant: 0 }
    }

    /// The expression `k`.
    pub open spec fn constant(k: int) -> ExpressionView<T> {
        ExpressionView { terms: Seq::empty(), constant: k }
    }

    /// The sum of two expressions: the terms of the first, then those of the
    /// second.
    pub open spec fn plus(self, other: ExpressionView<T>) -> ExpressionView<T> {
        ExpressionView {
            terms: self.terms + other.terms,
            constant: self.constant + other.constant,
        }
    }

    /// The expression moved by `k`.
    pub open spec fn shifted(self, k: int) -> ExpressionView<T> {
        ExpressionView { terms: self.terms, constant: self.constant + k }
    }
}

impl<T> View for Expression<T> {
    type V = ExpressionView<T>;

    open spec fn view(&self) -> ExpressionView<T> {
        ExpressionView { terms: self.terms@, constant: self.constant as int }
    }
}

/// A linear relation between two expressions, with its strength.
#[derive(Debug)]
pub struct LinearConstraint<T> {
    pub lhs: Expression<T>,
    pub relation: Relation,
    pub rhs: Expression<T>,
    pub strength: Strength,
}

/// What a constraint says.
pub ghost struct ConstraintView<T> {
    pub lhs: ExpressionView<T>,
    pub relation: Relation,
    pub rhs: ExpressionView<T>,
    pub strength: Strength,
}

impl<T> ConstraintView<T> {
    /// The required equality `v == k`.
    pub open spec fn pin(v: T, k: int) -> ConstraintView<T> {
        ConstraintView {
            lhs: ExpressionView::variable(v),
            relation: Relation::Equal,
            rhs: ExpressionView::constant(k),
            strength: Strength::Required,
        }
    }

    /// The same relation at another strength.
    pub open spec fn weighted(self, strength: Strength) -> ConstraintView<T> {
        ConstraintView { strength, ..self }
    }
}

impl<T> View for LinearConstraint<T> {
    type V = ConstraintView<T>;

    open spec fn view(&self) -> ConstraintView<T> {
        ConstraintView {
            lhs: self.lhs@,
            relation: self.relation,
            rhs: self.rhs@,
            strength: self.strength,
        }
    }
}

/// The constraint set of one entity on one axis. It is attached and replaced
/// as a whole.
#[derive(Debug)]
pub struct Constraints<T>(pub Vec<LinearConstraint<T>>);

impl<T> View for Constraints<T> {
    type V = Seq<ConstraintView<T>>;

    open spec fn view(&self) -> Seq<ConstraintView<T>> {
        Seq::new(self.0@.len(), |i: int| self.0@[i]@)
    }
}

impl<T: AxisVariable> LinearTerm<T> {
    pub fn equals(&self, other: &LinearTerm<T>) -> (b: bool)
        ensures
            b == (*self == *other),
    {
        self.coefficient == other.coefficient && self.variable.same(&other.variable)
    }
}

impl<T: Copy> Expression<T> {
    /// The expression `1 * v`.
    pub fn from_variable(v: T) -> (e: Expression<T>)
        ensures
            e@ == ExpressionView::variable(v),
    {
        let mut terms: Vec<LinearTerm<T>> = Vec::new();
        terms.push(LinearTerm { variable: v, coefficient: 1 });
        let e = Expression { terms, constant: 0 };
        assert(e@.terms =~= seq![LinearTerm { variable: v, coefficient: 1 }]);
        e
    }

    /// The expression `k`.
    pub fn from_constant(k: i64) -> (e: Expression<T>)
        ensures
            e@ == ExpressionView::<T>::constant(k as int),
    {
        Expression { terms: Vec::new(), constant: k }
    }

    /// The sum of the two expressions.
    pub fn plus(self, other: Expression<T>) -> (e: Expression<T>)
        requires
            i64::MIN <= self@.constant + other@.constant <= i64::MAX,
        ensures
            e@ == self@.plus(other@),
    {
        let mut terms = self.terms;
        let mut i: usize = 0;
        while i < other.terms.len()
            invariant
                0 <= i <= other.terms.len(),
                terms@ == self.terms@ + other.terms@.take(i as int),
            decreases other.terms.len() - i,
        {
            terms.push(other.terms[i]);
            assert(other.terms@.take(i + 1) == other.terms@.take(i as int).push(other.terms@[i as int]));
            i += 1;
        }
        assert(other.terms@.take(i as int) == other.terms@);
        Expression { terms, constant: self.constant + other.constant }
    }

    /// The expression plus the constant `k`.
    pub fn plus_constant(self, k: i64) -> (e: Expression<T>)
        requires
            i64::MIN <= self@.constant + k <= i64::MAX,
        ensures
            e@ == self@.shifted(k as int),
    {
        Expression { terms: self.terms, constant: self.constant + k }
    }

    /// The expression minus the constant `k`.
    pub fn minus_constant(self, k: i64) -> (e: Expression<T>)
        requires
            i64::MIN <= self@.constant - k <= i64::MAX,
        ensures
            e@ == self@.shifted(-(k as int)),
    {
        Expression { terms: self.terms, constant: self.constant - k }
    }

    /// The required constraint `self == rhs`.
    pub fn is(self, rhs: Expression<T>) -> (c: LinearConstraint<T>)
        ensures
            c@ == (ConstraintView {
                lhs: self@,
                relation: Relation::Equal,
                rhs: rhs@,
                strength: Strength::Required,
            }),
    {
        LinearConstraint { lhs: self, relation: Relation::Equal, rhs, strength: Strength::Required }
    }

    /// The required constraint `self == k`.
    pub fn is_constant(self, k: i64) -> (c: LinearConstraint<T>)
        ensures
            c@ == (ConstraintView {
                lhs: self@,
                relation: Relation::Equal,
                rhs: ExpressionView::<T>::constant(k as int),
                strength: Strength::Required,
            }),
    {
        let rhs = Expression::from_constant(k);
        LinearConstraint { lhs: self, relation: Relation::Equal, rhs, strength: Strength::Required }
    }

    /// The required constraint `self >= rhs`.
    pub fn is_ge(self, rhs: Expression<T>) -> (c: LinearConstraint<T>)
        ensures
            c@ == (ConstraintView {
                lhs: self@,
                relation: Relation::GreaterOrEqual,
                rhs: rhs@,
                strength: Strength::Required,
            }),
    {
        LinearConstraint {
            lhs: self,
            relation: Relation::GreaterOrEqual,
            rhs,
            strength: Strength::Required,
        }
    }

    /// The required constraint `self <= rhs`.
    pub fn is_le(self, rhs: Expression<T>) -> (c: LinearConstraint<T>)
        ensures
            c@ == (ConstraintView {
                lhs: self@,
                relation: Relation::LessOrEqual,
                rhs: rhs@,
                strength: Strength::Required,
            }),
    {
        LinearConstraint { lhs: self, relation: Relation::LessOrEqual, rhs, strength: Strength::Required }
    }

    /// A copy of the expression.
    pub fn duplicate(&self) -> (e: Expression<T>)
        ensures
            e@ == self@,
    {
        let mut terms: Vec<LinearTerm<T>> = Vec::new();
        let mut i: usize = 0;
        while i < self.terms.len()
            invariant
                0 <= i <= self.terms.len(),
                terms@ == self.terms@.take(i as int),
            decreases self.terms.len() - i,
        {
            terms.push(self.terms[i]);
            assert(self.terms@.take(i + 1) == self.terms@.take(i as int).push(self.terms@[i as int]));
            i += 1;
        }
        assert(self.terms@.take(i as int) == self.terms@);
        Expression { terms, constant: self.constant }
    }

}

impl<T: AxisVariable> Expression<T> {
    /// Whether the two expressions are written the same way: the same terms
    /// in the same order, and the same constant.
    pub fn equals(&self, other: &Expression<T>) -> (b: bool)
        ensures
            b == (self@ == other@),
    {
        if self.constant != other.constant || self.terms.len() != other.terms.len() {
            return false;
        }
        let mut i: usize = 0;
        while i < self.terms.len()
            invariant
                0 <= i <= self.terms.len(),
                self.terms.len() == other.terms.len(),
                self.constant == other.constant,
                forall|j: int| 0 <= j < i ==> self.terms@[j] == other.terms@[j],
            decreases self.terms.len() - i,
        {
            if !self.terms[i].equals(&other.terms[i]) {
                assert(self@.terms[i as int] != other@.terms[i as int]);
                return false;
            }
            i += 1;
        }
        assert(self@.terms =~= other@.terms);
        true
    }
}

impl<T: Copy> LinearConstraint<T> {
    /// The same relation at another strength.
    pub fn with_strength(self, strength: Strength) -> (c: LinearConstraint<T>)
        ensures
            c@ == self@.weighted(strength),
    {
        LinearConstraint { lhs: self.lhs, relation: self.relation, rhs: self.rhs, strength }
    }

    /// A copy of the constraint.
    pub fn duplicate(&self) -> (c: LinearConstraint<T>)
        ensures
            c@ == self@,
    {
        LinearConstraint {
            lhs: self.lhs.duplicate(),
            relation: self.relation,
            rhs: self.rhs.duplicate(),
            strength: self.strength,
        }
    }

}

impl<T: AxisVariable> LinearConstraint<T> {
    /// Whether the two constraints are written the same way.
    pub fn equals(&self, other: &LinearConstraint<T>) -> (b: bool)
        ensures
            b == (self@ == other@),
    {
        self.relation == other.relation && self.strength == other.strength && self.lhs.equals(
            &other.lhs,
        ) && self.rhs.equals(&other.rhs)
    }
}

impl<T: Copy> Constraints<T> {
    /// The empty set.
    pub fn new() -> (c: Constraints<T>)
        ensures
            c@ == Seq::<ConstraintView<T>>::empty(),
    {
        let c = Constraints(Vec::new());
        assert(c@ =~= Seq::<ConstraintView<T>>::empty());
        c
    }

    /// A copy of the set.
    pub fn duplicate(&self) -> (c: Constraints<T>)
        ensures
            c@ == self@,
    {
        let mut out: Vec<LinearConstraint<T>> = Vec::new();
        let mut i: usize = 0;
        while i < self.0.len()
            invariant
                0 <= i <= self.0.len(),
                out.len() == i,
                forall|j: int| 0 <= j < i ==> out@[j]@ == self.0@[j]@,
            decreases self.0.len() - i,
        {
            out.push(self.0[i].duplicate());
            i += 1;
        }
        let c = Constraints(out);
        assert(c@ =~= self@);
        c
    }

}

impl<T: AxisVariable> Constraints<T> {
    /// Whether the two sets hold the same constraints in the same order.
    pub fn equals(&self, other: &Constraints<T>) -> (b: bool)
        ensures
            b == (self@ == other@),
    {
        if self.0.len() != other.0.len() {
            assert(self@.len() != other@.len());
            return false;
        }
        let mut i: usize = 0;
        while i < self.0.len()
            invariant
                0 <= i <= self.0.len(),
                self.0.len() == other.0.len(),
                forall|j: int| 0 <= j < i ==> self@[j] == other@[j],
            decreases self.0.len() - i,
        {
            if !self.0[i].equals(&other.0[i]) {
                assert(self@[i as int] != other@[i as int]);
                return false;
            }
            i += 1;
        }
        assert(self@ =~= other@);
        true
    }

    /// Whether the set holds a constraint written the same way as `wanted`.
    pub fn contains(&self, wanted: &LinearConstraint<T>) -> (b: bool)
        ensures
            b == self@.contains(wanted@),
    {
        let mut i: usize = 0;
        while i < self.0.len()
            invariant
                0 <= i <= self.0.len(),
                forall|j: int| 0 <= j < i ==> self@[j] != wanted@,
            decreases self.0.len() - i,
        {
            if self.0[i].equals(wanted) {
                assert(self@[i as int] == wanted@);
                return true;
            }
            i += 1;
        }
        false
    }
}

} // verus!

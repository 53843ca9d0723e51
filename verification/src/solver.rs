//! The boundary to the `cassowary` constraint solver.
//!
//! Nothing in this file is proved. Each item states what the solver's source
//! shows of one of its functions, over names for what a solver-side value
//! holds. Which values the solver assigns to variables is stated nowhere:
//! where several assignments meet the constraints equally well, the one it
//! picks depends on the order in which its hash maps are walked. The one name
//! that touches on values, `solver_pending`, speaks of a solver as it stands:
//! of what it will hand out at the next fetch, in whatever order.
//!
//! That a call returns rests on the solver keeping its tableau consistent,
//! which its source asserts by indexing and unwrapping; nothing here can
//! vouch for that.

use vstd::multiset::Multiset;
use vstd::prelude::*;
use crate::constraint::{Relation, Strength};

verus! {

/// `cassowary::Solver`, the incremental solver. Nothing inside it is seen
/// here; what it holds goes by the name `solver_rows`.
#[verifier::external_type_specification]
#[verifier::external_body]
pub struct ExSolver(cassowary::Solver);

/// `cassowary::Variable`, the solver's handle for a variable.
#[verifier::external_type_specification]
#[verifier::external_body]
pub struct ExVariable(cassowary::Variable);

/// `cassowary::Term`, a solver variable with a coefficient.
#[verifier::external_type_specification]
#[verifier::external_body]
pub struct ExTerm(cassowary::Term);

/// `cassowary::Constraint`, the solver's handle for a constraint. The solver
/// tells constraints apart by the handle, not by what they say.
#[verifier::external_type_specification]
#[verifier::external_body]
pub struct ExConstraint(cassowary::Constraint);

/// The largest magnitude the solver's number format holds exactly: 2^53.
pub const EXACT_LIMIT: i64 = 9007199254740992;

/// What a solver-side constraint says:
/// `sum(coefficient * variable) + constant  relation  0`.
/// A term is the number of a solver variable and its coefficient.
pub ghost struct Row {
    pub terms: Seq<(int, int)>,
    pub constant: int,
    pub relation: Relation,
    pub strength: Strength,
}

impl Row {
    /// The row by which the solver holds an edit variable at its suggested
    /// value: `variable == 0` at the given strength.
    pub open spec fn edit(variable: int, strength: Strength) -> Row {
        Row { terms: seq![(variable, 1int)], constant: 0, relation: Relation::Equal, strength }
    }
}

/// The number inside a `cassowary::Variable`, by which the solver tells the
/// variable from all others.
pub uninterp spec fn variable_number(v: cassowary::Variable) -> int;

/// The variable number and the coefficient a `cassowary::Term` holds.
pub uninterp spec fn term_parts(t: cassowary::Term) -> (int, int);

/// What a `cassowary::Constraint` says: its expression, relation and
/// strength.
pub uninterp spec fn constraint_row(c: cassowary::Constraint) -> Row;

/// The constraints a `cassowary::Solver` holds, each by what it says. The
/// rows of its edit variables are among them.
pub uninterp spec fn solver_rows(s: cassowary::Solver) -> Multiset<Row>;

/// Every row is one that registering an edit variable leaves behind:
/// `variable == 0` at a strength below the required one.
pub open spec fn only_edit_rows(rows: Multiset<Row>) -> bool {
    forall|row: Row|
        rows.count(row) > 0 ==> exists|variable: int, strength: Strength|
            strength != Strength::Required && row == #[trigger] Row::edit(variable, strength)
}

/// The edit variables registered with a `cassowary::Solver`, by their
/// numbers, each with the value last suggested for it; zero until one is.
pub uninterp spec fn solver_suggested(s: cassowary::Solver) -> Map<int, int>;

/// What a `cassowary::Solver` has in store for the next fetch: the numbers of
/// the variables whose value changed since the last one, each with its new
/// value, its fraction cut off toward zero and cut to the 64-bit range.
pub uninterp spec fn solver_pending(s: cassowary::Solver) -> Map<int, i64>;

/// The report lists what is pending: an entry for each pending variable, none
/// for another, none twice, each with the pending value.
pub open spec fn lists(report: Seq<(int, i64)>, pending: Map<int, i64>) -> bool {
    &&& forall|i: int, j: int| 0 <= i < j < report.len() ==> report[i].0 != report[j].0
    &&& forall|i: int|
        0 <= i < report.len() ==> pending.contains_key((#[trigger] report[i]).0) && pending[
            report[i].0
        ] == report[i].1
    &&& forall|n: int|
        pending.contains_key(n) ==> exists|i: int|
            0 <= i < report.len() && (#[trigger] report[i]).0 == n
}

/// A fetched report, each of its variables by its number.
pub open spec fn numbered(raw: Seq<(cassowary::Variable, i64)>) -> Seq<(int, i64)> {
    raw.map_values(|p: (cassowary::Variable, i64)| (variable_number(p.0), p.1))
}

/// Why the solver did not take a constraint.
#[derive(Clone, Copy, Debug, PartialEq, Eq, Structural)]
pub enum AddFailure {
    /// The very same solver-side constraint is already held.
    Duplicate,
    /// The constraint is required and contradicts the required constraints
    /// already held.
    Unsatisfiable,
    /// The solver reported an invalid state of its own.
    Internal,
}

/// Why the solver did not give a constraint up cleanly.
#[derive(Clone, Copy, Debug, PartialEq, Eq, Structural)]
pub enum RemoveFailure {
    /// The solver does not hold this solver-side constraint.
    Unknown,
    /// The solver reported an invalid state of its own.
    Internal,
}

/// Why the solver did not register an edit variable.
#[derive(Clone, Copy, Debug, PartialEq, Eq, Structural)]
pub enum EditFailure {
    /// The variable is registered already.
    Duplicate,
    /// An edit variable cannot be required.
    BadRequiredStrength,
}

/// Why the solver did not take a suggested value.
#[derive(Clone, Copy, Debug, PartialEq, Eq, Structural)]
pub enum SuggestFailure {
    /// The variable is not registered as an edit variable.
    Unknown,
    /// The solver reported an invalid state of its own.
    Internal,
}

/// `cassowary::Solver::new`: a solver that holds no constraint and has no
/// edit variable registered.
#[verifier::external_body]
pub(crate) fn solver_new() -> (s: cassowary::Solver)
    ensures
        solver_rows(s) == Multiset::<Row>::empty(),
        solver_suggested(s).dom() == Set::<int>::empty(),
{
    cassowary::Solver::new()
}

/// `cassowary::Variable::new`: a variable for the solver. Nothing is claimed
/// of its number.
#[verifier::external_body]
pub(crate) fn variable_new() -> (v: cassowary::Variable) {
    cassowary::Variable::new()
}

/// `==` on `cassowary::Variable`, which compares the numbers.
#[verifier::external_body]
pub(crate) fn variable_same(a: &cassowary::Variable, b: &cassowary::Variable) -> (r: bool)
    ensures
        r == (variable_number(*a) == variable_number(*b)),
{
    a == b
}

/// A `cassowary::Term` of the variable and the coefficient, which is within
/// the range the solver's number format holds exactly.
#[verifier::external_body]
pub(crate) fn term_new(v: &cassowary::Variable, coefficient: i64) -> (t: cassowary::Term)
    requires
        -EXACT_LIMIT <= coefficient <= EXACT_LIMIT,
    ensures
        term_parts(t) == (variable_number(*v), coefficient as int),
{
    cassowary::Term { variable: *v, coefficient: coefficient as _ }
}

/// `cassowary::Constraint::new` on `cassowary::Expression::new`: the
/// constraint `terms + constant  relation  0` at the given strength, where the
/// four strengths stand for the solver's constants of the same names.
#[verifier::external_body]
pub(crate) fn constraint_new(
    terms: Vec<cassowary::Term>,
    constant: i64,
    relation: Relation,
    strength: Strength,
) -> (c: cassowary::Constraint)
    requires
        -EXACT_LIMIT <= constant <= EXACT_LIMIT,
    ensures
        constraint_row(c) == (Row {
            terms: terms@.map_values(|t: cassowary::Term| term_parts(t)),
            constant: constant as int,
            relation,
            strength,
        }),
{
    let op = match relation {
        Relation::LessOrEqual => cassowary::RelationalOperator::LessOrEqual,
        Relation::Equal => cassowary::RelationalOperator::Equal,
        Relation::GreaterOrEqual => cassowary::RelationalOperator::GreaterOrEqual,
    };
    let weight = match strength {
        Strength::Weak => cassowary::strength::WEAK,
        Strength::Medium => cassowary::strength::MEDIUM,
        Strength::Strong => cassowary::strength::STRONG,
        Strength::Required => cassowary::strength::REQUIRED,
    };
    cassowary::Constraint::new(cassowary::Expression::new(terms, constant as _), op, weight)
}

/// `cassowary::Solver::add_constraint`. On success the solver holds the
/// constraint as well. It refuses a duplicate and an unsatisfiable constraint
/// before it takes them in. Only a required constraint is found
/// unsatisfiable: a weaker one comes with an error symbol of negative
/// coefficient to solve its row for, so the two places that refuse are not
/// reached. After an internal error the constraint may or may not be held.
/// The edit variables and what was suggested for them stay as they were.
#[verifier::external_body]
pub(crate) fn solver_add(s: &mut cassowary::Solver, c: &cassowary::Constraint) -> (r: Result<
    (),
    AddFailure,
>)
    ensures
        solver_suggested(*final(s)) == solver_suggested(*old(s)),
        r is Ok ==> solver_rows(*final(s)) == solver_rows(*old(s)).insert(constraint_row(*c)),
        (r matches Err(AddFailure::Duplicate)) || (r matches Err(AddFailure::Unsatisfiable))
            ==> solver_rows(*final(s)) == solver_rows(*old(s)),
        (r matches Err(AddFailure::Unsatisfiable)) ==> constraint_row(*c).strength
            == Strength::Required,
{
    match s.add_constraint(c.clone()) {
        Ok(()) => Ok(()),
        Err(cassowary::AddConstraintError::DuplicateConstraint) => Err(AddFailure::Duplicate),
        Err(cassowary::AddConstraintError::UnsatisfiableConstraint) => Err(
            AddFailure::Unsatisfiable,
        ),
        Err(cassowary::AddConstraintError::InternalSolverError(_)) => Err(AddFailure::Internal),
    }
}

/// `cassowary::Solver::remove_constraint`. A constraint the solver does not
/// hold leaves it unchanged. Otherwise the constraint is given up first, so it
/// is gone even where an internal error is reported afterwards. The edit
/// variables and what was suggested for them stay as they were.
#[verifier::external_body]
pub(crate) fn solver_remove(s: &mut cassowary::Solver, c: &cassowary::Constraint) -> (r: Result<
    (),
    RemoveFailure,
>)
    ensures
        solver_suggested(*final(s)) == solver_suggested(*old(s)),
        (r matches Err(RemoveFailure::Unknown)) ==> solver_rows(*final(s)) == solver_rows(
            *old(s),
        ),
        !(r matches Err(RemoveFailure::Unknown)) ==> solver_rows(*old(s)).contains(
            constraint_row(*c),
        ) && solver_rows(*final(s)) == solver_rows(*old(s)).remove(constraint_row(*c)),
{
    match s.remove_constraint(c) {
        Ok(()) => Ok(()),
        Err(cassowary::RemoveConstraintError::UnknownConstraint) => Err(RemoveFailure::Unknown),
        Err(cassowary::RemoveConstraintError::InternalSolverError(_)) => Err(
            RemoveFailure::Internal,
        ),
    }
}

/// `cassowary::Solver::add_edit_variable`. It refuses a variable that is
/// registered already, and then the required strength; otherwise it registers
/// the variable with zero as its suggested value and with it takes in the row
/// `variable == 0` at that strength. The function unwraps the solver's answer
/// to that row, so it is only to be called on a solver that cannot refuse it:
/// one that holds nothing but rows of this kind, whose numbers are all zero
/// or one.
#[verifier::external_body]
pub(crate) fn solver_add_edit(
    s: &mut cassowary::Solver,
    v: &cassowary::Variable,
    strength: Strength,
) -> (r: Result<(), EditFailure>)
    requires
        only_edit_rows(solver_rows(*old(s))),
    ensures
        (r matches Err(EditFailure::Duplicate)) <==> solver_suggested(*old(s)).contains_key(
            variable_number(*v),
        ),
        r is Ok <==> (!solver_suggested(*old(s)).contains_key(variable_number(*v)) && strength
            != Strength::Required),
        r is Ok ==> solver_rows(*final(s)) == solver_rows(*old(s)).insert(
            Row::edit(variable_number(*v), strength),
        ),
        r is Ok ==> solver_suggested(*final(s)) == solver_suggested(*old(s)).insert(
            variable_number(*v),
            0,
        ),
        r is Err ==> solver_rows(*final(s)) == solver_rows(*old(s)),
        r is Err ==> solver_suggested(*final(s)) == solver_suggested(*old(s)),
{
    let weight = match strength {
        Strength::Weak => cassowary::strength::WEAK,
        Strength::Medium => cassowary::strength::MEDIUM,
        Strength::Strong => cassowary::strength::STRONG,
        Strength::Required => cassowary::strength::REQUIRED,
    };
    match s.add_edit_variable(*v, weight) {
        Ok(()) => Ok(()),
        Err(cassowary::AddEditVariableError::DuplicateEditVariable) => Err(EditFailure::Duplicate),
        Err(cassowary::AddEditVariableError::BadRequiredStrength) => Err(
            EditFailure::BadRequiredStrength,
        ),
    }
}

/// `cassowary::Solver::suggest_value`: suggests the value for an edit
/// variable. It fails as unknown exactly for a variable that is not
/// registered, and changes nothing then. For a registered one the value is
/// taken down as the suggested one before anything else, so it is the
/// suggested value even where an internal error is reported afterwards. The
/// constraints held stay as they were either way.
#[verifier::external_body]
pub(crate) fn solver_suggest(s: &mut cassowary::Solver, v: &cassowary::Variable, value: u32) -> (r:
    Result<(), SuggestFailure>)
    ensures
        solver_rows(*final(s)) == solver_rows(*old(s)),
        (r matches Err(SuggestFailure::Unknown)) <==> !solver_suggested(*old(s)).contains_key(
            variable_number(*v),
        ),
        (r matches Err(SuggestFailure::Unknown)) ==> solver_suggested(*final(s))
            == solver_suggested(*old(s)),
        !(r matches Err(SuggestFailure::Unknown)) ==> solver_suggested(*final(s))
            == solver_suggested(*old(s)).insert(variable_number(*v), value as int),
{
    match s.suggest_value(*v, value.into()) {
        Ok(()) => Ok(()),
        Err(cassowary::SuggestValueError::UnknownEditVariable) => Err(SuggestFailure::Unknown),
        Err(cassowary::SuggestValueError::InternalSolverError(_)) => Err(SuggestFailure::Internal),
    }
}

/// `cassowary::Solver::fetch_changes`: what the solver had in store, the
/// variables whose value changed since the last fetch, each once and in no
/// particular order. The new value comes with its fraction cut off toward
/// zero and cut to the 64-bit range. Nothing is in store afterwards: a fetch
/// that follows at once finds the set of changed variables empty, or empties
/// it first. The constraints held, the edit variables and what was suggested
/// for them stay as they were.
#[verifier::external_body]
pub(crate) fn solver_fetch(s: &mut cassowary::Solver) -> (r: Vec<(cassowary::Variable, i64)>)
    ensures
        solver_rows(*final(s)) == solver_rows(*old(s)),
        solver_suggested(*final(s)) == solver_suggested(*old(s)),
        lists(numbered(r@), solver_pending(*old(s))),
        solver_pending(*final(s)).dom() == Set::<int>::empty(),
{
    s.fetch_changes().iter().map(|p| (p.0, p.1 as i64)).collect()
}

} // verus!

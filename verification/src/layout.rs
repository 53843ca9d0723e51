//! The incremental layout engine: one persistent solver per axis.
//!
//! The engine follows the change log of a constraint store. For every change
//! it gives up the constraints it had handed to the solver for that entity and
//! hands over the entity's current set, so that a frame costs solver work for
//! the entities that changed, not for the whole scene. It then writes the
//! values the solver changed into the rectangles.

use vstd::multiset::Multiset;
use vstd::prelude::*;
use vstd::seq_lib::*;
use crate::constraint::{ConstraintView, Constraints, LinearConstraint, LinearTerm, Strength};
use crate::entity::{Entities, Entity};
use crate::geometry::{ElementBox, WindowSize};
use crate::solver::{
    constraint_new,
    constraint_row,
    lists,
    numbered,
    solver_add,
    solver_add_edit,
    solver_fetch,
    solver_new,
    solver_remove,
    solver_pending,
    solver_rows,
    solver_suggest,
    solver_suggested,
    term_new,
    term_parts,
    variable_new,
    variable_number,
    variable_same,
    AddFailure,
    RemoveFailure,
    Row,
    SuggestFailure,
    EXACT_LIMIT,
};
use crate::storage::{ComponentEvent, FlaggedStorage, Storage};
use crate::variable::{to_coordinate, to_extent, Axis, AxisVariable, VariableX};

verus! {

broadcast use vstd::multiset::group_multiset_axioms;

/// No key occurs twice.
pub open spec fn distinct<T>(keys: Seq<T>) -> bool {
    forall|i: int, j: int| 0 <= i < j < keys.len() ==> keys[i] != keys[j]
}

/// The place of `v` among the keys.
pub open spec fn slot_of<T>(keys: Seq<T>, v: T) -> int {
    choose|i: int| 0 <= i < keys.len() && keys[i] == v
}

/// The terms of one side of a constraint as the solver holds them: each
/// variable by the number of its solver variable, each coefficient with its
/// sign turned where `negate` is set.
pub open spec fn lowered_terms<T>(
    terms: Seq<LinearTerm<T>>,
    negate: bool,
    keys: Seq<T>,
    numbers: Seq<int>,
) -> Seq<(int, int)> {
    Seq::new(
        terms.len(),
        |j: int|
            (
                numbers[slot_of(keys, terms[j].variable)],
                if negate {
                    -(terms[j].coefficient as int)
                } else {
                    terms[j].coefficient as int
                },
            ),
    )
}

/// The row that stands for `lhs relation rhs` in the solver:
/// `lhs - rhs  relation  0`.
pub open spec fn lowered<T>(c: ConstraintView<T>, keys: Seq<T>, numbers: Seq<int>) -> Row {
    Row {
        terms: lowered_terms(c.lhs.terms, false, keys, numbers) + lowered_terms(
            c.rhs.terms,
            true,
            keys,
            numbers,
        ),
        constant: c.lhs.constant - c.rhs.constant,
        relation: c.relation,
        strength: c.strength,
    }
}

/// Every variable of the terms has a key.
pub open spec fn terms_covered<T>(terms: Seq<LinearTerm<T>>, keys: Seq<T>) -> bool {
    forall|j: int| 0 <= j < terms.len() ==> keys.contains(#[trigger] terms[j].variable)
}

/// Every variable of the constraint has a key.
pub open spec fn covered<T>(c: ConstraintView<T>, keys: Seq<T>) -> bool {
    terms_covered(c.lhs.terms, keys) && terms_covered(c.rhs.terms, keys)
}

/// Whether the solver's number format holds the constant of the lowered
/// constraint exactly.
pub open spec fn representable<T>(c: ConstraintView<T>) -> bool {
    -EXACT_LIMIT <= c.lhs.constant - c.rhs.constant <= EXACT_LIMIT
}

/// Whether the set holds a required constraint.
pub open spec fn has_required<T>(set: Seq<ConstraintView<T>>) -> bool {
    exists|k: int| 0 <= k < set.len() && (#[trigger] set[k]).strength == Strength::Required
}

/// Whether the solver's number format holds the constant of every constraint
/// of the set exactly.
pub open spec fn all_representable<T>(set: Seq<ConstraintView<T>>) -> bool {
    forall|k: int| 0 <= k < set.len() ==> representable(#[trigger] set[k])
}

/// The keys with `v` among them: put at the end unless it is there already.
pub open spec fn with_variable<T>(keys: Seq<T>, v: T) -> Seq<T> {
    if keys.contains(v) {
        keys
    } else {
        keys.push(v)
    }
}

/// The keys with the variables of the terms among them, each put at the end
/// where it first occurs unless it is there already.
pub open spec fn with_variables<T>(keys: Seq<T>, terms: Seq<LinearTerm<T>>) -> Seq<T>
    decreases terms.len(),
{
    if terms.len() == 0 {
        keys
    } else {
        with_variable(with_variables(keys, terms.drop_last()), terms.last().variable)
    }
}

/// What a solver has as suggested values once the edit variables have been
/// registered with it and nothing has been suggested yet: zero for each.
pub open spec fn registered<T>(edits: Seq<T>, keys: Seq<T>, numbers: Seq<int>) -> Map<int, int>
    decreases edits.len(),
{
    if edits.len() == 0 {
        Map::empty()
    } else {
        registered(edits.drop_last(), keys, numbers).insert(
            numbers[slot_of(keys, edits.last())],
            0,
        )
    }
}

/// What a solver has as suggested values once the value of the viewport has
/// been suggested for each of the edit variables, in order.
pub open spec fn with_targets<T: AxisVariable>(
    suggested: Map<int, int>,
    edits: Seq<T>,
    keys: Seq<T>,
    numbers: Seq<int>,
    window: WindowSize,
) -> Map<int, int>
    decreases edits.len(),
{
    if edits.len() == 0 {
        suggested
    } else {
        with_targets(suggested, edits.drop_last(), keys, numbers, window).insert(
            numbers[slot_of(keys, edits.last())],
            edits.last().edit_target(window) as int,
        )
    }
}

/// The rows by which the solver holds the edit variables.
pub open spec fn edit_rows<T>(edits: Seq<T>, keys: Seq<T>, numbers: Seq<int>) -> Seq<Row> {
    Seq::new(
        edits.len(),
        |j: int| Row::edit(numbers[slot_of(keys, edits[j])], Strength::Strong),
    )
}

proof fn lemma_slot<T>(keys: Seq<T>, v: T)
    requires
        keys.contains(v),
    ensures
        0 <= slot_of(keys, v) < keys.len(),
        keys[slot_of(keys, v)] == v,
{
    let i = choose|i: int| 0 <= i < keys.len() && keys[i] == v;
    assert(0 <= i < keys.len() && keys[i] == v);
}

proof fn lemma_slot_unique<T>(keys: Seq<T>, i: int)
    requires
        distinct(keys),
        0 <= i < keys.len(),
    ensures
        slot_of(keys, keys[i]) == i,
{
    assert(keys.contains(keys[i]));
    lemma_slot(keys, keys[i]);
}

proof fn lemma_slot_stable<T>(keys: Seq<T>, k: T, v: T)
    requires
        distinct(keys.push(k)),
        keys.contains(v),
    ensures
        slot_of(keys.push(k), v) == slot_of(keys, v),
        keys.push(k).contains(v),
{
    lemma_slot(keys, v);
    let i = slot_of(keys, v);
    assert(keys.push(k)[i] == v);
    lemma_slot_unique(keys.push(k), i);
}

proof fn lemma_terms_stable<T>(
    terms: Seq<LinearTerm<T>>,
    negate: bool,
    keys: Seq<T>,
    numbers: Seq<int>,
    k: T,
    n: int,
)
    requires
        distinct(keys.push(k)),
        keys.len() == numbers.len(),
        terms_covered(terms, keys),
    ensures
        lowered_terms(terms, negate, keys.push(k), numbers.push(n)) == lowered_terms(
            terms,
            negate,
            keys,
            numbers,
        ),
        terms_covered(terms, keys.push(k)),
{
    assert forall|j: int| 0 <= j < terms.len() implies lowered_terms(
        terms,
        negate,
        keys.push(k),
        numbers.push(n),
    )[j] == lowered_terms(terms, negate, keys, numbers)[j] && keys.push(k).contains(
        #[trigger] terms[j].variable,
    ) by {
        lemma_slot(keys, terms[j].variable);
        lemma_slot_stable(keys, k, terms[j].variable);
    }
    assert(lowered_terms(terms, negate, keys.push(k), numbers.push(n)) =~= lowered_terms(
        terms,
        negate,
        keys,
        numbers,
    ));
}

proof fn lemma_lowered_stable<T>(
    c: ConstraintView<T>,
    keys: Seq<T>,
    numbers: Seq<int>,
    k: T,
    n: int,
)
    requires
        distinct(keys.push(k)),
        keys.len() == numbers.len(),
        covered(c, keys),
    ensures
        lowered(c, keys.push(k), numbers.push(n)) == lowered(c, keys, numbers),
        covered(c, keys.push(k)),
{
    lemma_terms_stable(c.lhs.terms, false, keys, numbers, k, n);
    lemma_terms_stable(c.rhs.terms, true, keys, numbers, k, n);
}

proof fn lemma_edit_rows_stable<T>(edits: Seq<T>, keys: Seq<T>, numbers: Seq<int>, k: T, n: int)
    requires
        distinct(keys.push(k)),
        keys.len() == numbers.len(),
        forall|j: int| 0 <= j < edits.len() ==> keys.contains(#[trigger] edits[j]),
    ensures
        edit_rows(edits, keys.push(k), numbers.push(n)) == edit_rows(edits, keys, numbers),
        forall|j: int| 0 <= j < edits.len() ==> keys.push(k).contains(#[trigger] edits[j]),
{
    assert forall|j: int| 0 <= j < edits.len() implies edit_rows(
        edits,
        keys.push(k),
        numbers.push(n),
    )[j] == edit_rows(edits, keys, numbers)[j] && keys.push(k).contains(#[trigger] edits[j]) by {
        lemma_slot(keys, edits[j]);
        lemma_slot_stable(keys, k, edits[j]);
    }
    assert(edit_rows(edits, keys.push(k), numbers.push(n)) =~= edit_rows(edits, keys, numbers));
}

proof fn lemma_registered_stable<T>(edits: Seq<T>, keys: Seq<T>, numbers: Seq<int>, k: T, n: int)
    requires
        distinct(keys.push(k)),
        keys.len() == numbers.len(),
        forall|j: int| 0 <= j < edits.len() ==> keys.contains(#[trigger] edits[j]),
    ensures
        registered(edits, keys.push(k), numbers.push(n)) == registered(edits, keys, numbers),
    decreases edits.len(),
{
    if edits.len() > 0 {
        let shorter = edits.drop_last();
        assert forall|j: int| 0 <= j < shorter.len() implies keys.contains(
            #[trigger] shorter[j],
        ) by {
            assert(shorter[j] == edits[j]);
        }
        lemma_registered_stable(shorter, keys, numbers, k, n);
        assert(keys.contains(edits[edits.len() - 1]));
        lemma_slot(keys, edits.last());
        lemma_slot_stable(keys, k, edits.last());
    }
}

/// One constraint handed to the solver: whose it is, what it says, and the
/// solver-side constraint by which it is given up again.
struct Held<T> {
    owner: Option<u32>,
    constraint: LinearConstraint<T>,
    handle: cassowary::Constraint,
}

/// The constraints held for `owner`, in the order they were handed over.
/// `None` owns the constraints that pin the stage.
closed spec fn select<T>(held: Seq<Held<T>>, owner: Option<u32>) -> Seq<ConstraintView<T>>
    decreases held.len(),
{
    if held.len() == 0 {
        Seq::empty()
    } else {
        let rest = select(held.drop_last(), owner);
        if held.last().owner == owner {
            rest.push(held.last().constraint@)
        } else {
            rest
        }
    }
}

/// The records `after` are the records `before` followed by one record of
/// `owner` for each constraint of `set`, in order.
closed spec fn appended<T>(
    after: Seq<Held<T>>,
    before: Seq<Held<T>>,
    owner: Option<u32>,
    set: Seq<ConstraintView<T>>,
) -> bool {
    &&& after.len() == before.len() + set.len()
    &&& after.take(before.len() as int) == before
    &&& forall|i: int|
        0 <= i < set.len() ==> (#[trigger] after[before.len() + i]).owner == owner && after[
            before.len() + i
        ].constraint@ == set[i]
}

proof fn lemma_others_push<T>(held: Seq<Held<T>>, r: Held<T>, owner: Option<u32>)
    ensures
        others(held.push(r), owner) == (if r.owner == owner {
            others(held, owner)
        } else {
            others(held, owner).push(r)
        }),
{
    assert(held.push(r).drop_last() =~= held);
}

/// The records that do not belong to `owner`, in their order.
closed spec fn others<T>(held: Seq<Held<T>>, owner: Option<u32>) -> Seq<Held<T>>
    decreases held.len(),
{
    if held.len() == 0 {
        Seq::empty()
    } else {
        let rest = others(held.drop_last(), owner);
        if held.last().owner == owner {
            rest
        } else {
            rest.push(held.last())
        }
    }
}

proof fn lemma_others_all<T>(held: Seq<Held<T>>, owner: Option<u32>)
    requires
        forall|j: int| 0 <= j < held.len() ==> (#[trigger] held[j]).owner != owner,
    ensures
        others(held, owner) == held,
    decreases held.len(),
{
    if held.len() > 0 {
        lemma_others_all(held.drop_last(), owner);
        assert(held.drop_last().push(held.last()) =~= held);
    }
}

proof fn lemma_others_remove<T>(held: Seq<Held<T>>, i: int, owner: Option<u32>)
    requires
        0 <= i < held.len(),
        held[i].owner == owner,
    ensures
        others(held.remove(i), owner) == others(held, owner),
    decreases held.len(),
{
    if i == held.len() - 1 {
        assert(held.remove(i) =~= held.drop_last());
    } else {
        lemma_others_remove(held.drop_last(), i, owner);
        assert(held.remove(i).drop_last() =~= held.drop_last().remove(i));
        assert(held.remove(i).last() == held.last());
    }
}

proof fn lemma_select_empty<T>(held: Seq<Held<T>>, owner: Option<u32>)
    requires
        select(held, owner).len() == 0,
    ensures
        forall|j: int| 0 <= j < held.len() ==> (#[trigger] held[j]).owner != owner,
    decreases held.len(),
{
    if held.len() > 0 {
        lemma_select_empty(held.drop_last(), owner);
        assert forall|j: int| 0 <= j < held.len() implies (#[trigger] held[j]).owner != owner by {
            if j < held.len() - 1 {
                assert(held.drop_last()[j] == held[j]);
            }
        }
    }
}

proof fn lemma_select_push<T>(held: Seq<Held<T>>, r: Held<T>, owner: Option<u32>)
    ensures
        select(held.push(r), owner) == (if r.owner == owner {
            select(held, owner).push(r.constraint@)
        } else {
            select(held, owner)
        }),
{
    assert(held.push(r).drop_last() =~= held);
}

proof fn lemma_select_none<T>(held: Seq<Held<T>>, owner: Option<u32>)
    requires
        forall|j: int| 0 <= j < held.len() ==> (#[trigger] held[j]).owner != owner,
    ensures
        select(held, owner) == Seq::<ConstraintView<T>>::empty(),
    decreases held.len(),
{
    if held.len() > 0 {
        lemma_select_none(held.drop_last(), owner);
    }
}

proof fn lemma_select_remove<T>(held: Seq<Held<T>>, i: int, owner: Option<u32>)
    requires
        0 <= i < held.len(),
        held[i].owner != owner,
    ensures
        select(held.remove(i), owner) == select(held, owner),
    decreases held.len(),
{
    if i == held.len() - 1 {
        assert(held.remove(i) =~= held.drop_last());
    } else {
        let shorter = held.drop_last();
        lemma_select_remove(shorter, i, owner);
        assert(held.remove(i).drop_last() =~= shorter.remove(i));
        assert(held.remove(i).last() == held.last());
    }
}

/// The solver of one axis with everything the engine knows about what it
/// holds.
struct Core<T> {
    solver: cassowary::Solver,
    held: Vec<Held<T>>,
    keys: Vec<T>,
    vars: Vec<cassowary::Variable>,
    edits: Vec<T>,
}

impl<T: AxisVariable> Core<T> {
    /// The numbers of the solver variables, by slot.
    closed spec fn numbers(&self) -> Seq<int> {
        self.vars@.map_values(|v: cassowary::Variable| variable_number(v))
    }

    /// The numbers of the solver variables of the edit variables, in their
    /// order.
    closed spec fn edit_numbers(&self) -> Seq<int> {
        Seq::new(
            self.edits@.len(),
            |j: int| self.numbers()[slot_of(self.keys@, self.edits@[j])],
        )
    }

    /// Whether the solver has the value of the viewport `w` as the suggested
    /// value of every edit variable.
    closed spec fn aimed(&self, w: WindowSize) -> bool {
        forall|j: int|
            0 <= j < self.edits@.len() ==> solver_suggested(self.solver).contains_key(
                #[trigger] self.edit_numbers()[j],
            ) && solver_suggested(self.solver)[self.edit_numbers()[j]]
                == self.edits@[j].edit_target(w)
    }

    /// What the solver-side constraints held say, in order.
    closed spec fn held_rows(&self) -> Seq<Row> {
        self.held@.map_values(|h: Held<T>| constraint_row(h.handle))
    }

    /// The table gives every key a solver variable of its own, every
    /// constraint held is in the solver as its lowered row, and the solver
    /// holds nothing else but the rows of the edit variables.
    closed spec fn inv(&self) -> bool {
        &&& self.keys.len() == self.vars.len()
        &&& distinct(self.keys@)
        &&& distinct(self.numbers())
        &&& forall|j: int| 0 <= j < self.edits.len() ==> self.keys@.contains(#[trigger] self.edits@[j])
        &&& forall|i: int|
            0 <= i < self.held.len() ==> covered(
                (#[trigger] self.held@[i]).constraint@,
                self.keys@,
            ) && constraint_row(self.held@[i].handle) == lowered(
                self.held@[i].constraint@,
                self.keys@,
                self.numbers(),
            )
        &&& solver_rows(self.solver) == edit_rows(
            self.edits@,
            self.keys@,
            self.numbers(),
        ).to_multiset().add(self.held_rows().to_multiset())
    }

    /// The slot of `v`, if it has one.
    fn find(&self, v: &T) -> (r: Option<usize>)
        requires
            self.inv(),
        ensures
            r is Some <==> self.keys@.contains(*v),
            r matches Some(i) ==> i == slot_of(self.keys@, *v) && i < self.keys.len(),
    {
        let mut i: usize = 0;
        while i < self.keys.len()
            invariant
                0 <= i <= self.keys.len(),
                distinct(self.keys@),
                forall|j: int| 0 <= j < i ==> self.keys@[j] != *v,
            decreases self.keys.len() - i,
        {
            if self.keys[i].same(v) {
                proof {
                    lemma_slot_unique(self.keys@, i as int);
                }
                return Some(i);
            }
            i += 1;
        }
        None
    }

    /// Whether the table holds a solver variable with the number of `var`.
    fn taken(&self, var: &cassowary::Variable) -> (b: bool)
        ensures
            b == self.numbers().contains(variable_number(*var)),
    {
        let mut i: usize = 0;
        while i < self.vars.len()
            invariant
                0 <= i <= self.vars.len(),
                forall|j: int| 0 <= j < i ==> self.numbers()[j] != variable_number(*var),
            decreases self.vars.len() - i,
        {
            if variable_same(&self.vars[i], var) {
                assert(self.numbers()[i as int] == variable_number(*var));
                return true;
            }
            i += 1;
        }
        false
    }

    /// The slot of `v`. A variable that has a slot keeps it, and nothing
    /// changes. For one that has none a solver variable is made and the two
    /// are put at the end of the table; `None` where the solver hands out a
    /// variable it has handed out before, in which case the table stays as it
    /// is.
    fn slot(&mut self, v: &T) -> (r: Option<usize>)
        requires
            old(self).inv(),
        ensures
            final(self).inv(),
            final(self).solver == old(self).solver,
            final(self).held == old(self).held,
            final(self).edits == old(self).edits,
            old(self).keys@.is_prefix_of(final(self).keys@),
            old(self).numbers().is_prefix_of(final(self).numbers()),
            r matches Some(i) ==> i < final(self).keys.len() && i == slot_of(final(self).keys@, *v)
                && final(self).keys@.contains(*v),
            old(self).keys@.contains(*v) ==> r == Some(slot_of(old(self).keys@, *v) as usize),
            old(self).keys@.contains(*v) || r is None ==> final(self).keys == old(self).keys
                && final(self).vars == old(self).vars,
            r is Some ==> final(self).keys@ == with_variable(old(self).keys@, *v),
            registered(final(self).edits@, final(self).keys@, final(self).numbers())
                == registered(old(self).edits@, old(self).keys@, old(self).numbers()),
            final(self).edit_numbers() == old(self).edit_numbers(),
    {
        match self.find(v) {
            Some(i) => Some(i),
            None => {
                let var = variable_new();
                if self.taken(&var) {
                    return None;
                }
                let ghost keys = self.keys@;
                let ghost numbers = self.numbers();
                let ghost n = variable_number(var);
                self.keys.push(*v);
                self.vars.push(var);
                proof {
                    assert(self.numbers() =~= numbers.push(n));
                    assert(self.keys@ == keys.push(*v));
                    assert(distinct(keys.push(*v)));
                    assert(distinct(numbers.push(n))) by {
                        assert forall|a: int, b: int|
                            0 <= a < b < numbers.push(n).len() implies numbers.push(n)[a]
                            != numbers.push(n)[b] by {
                            if b == numbers.len() {
                                assert(numbers[a] == numbers.push(n)[a]);
                                assert(numbers.contains(numbers[a]));
                            }
                        }
                    }
                    lemma_slot_unique(self.keys@, keys.len() as int);
                    assert(self.keys@.contains(*v));
                    lemma_edit_rows_stable(self.edits@, keys, numbers, *v, n);
                    lemma_registered_stable(self.edits@, keys, numbers, *v, n);
                    assert(self.edit_numbers() =~= old(self).edit_numbers()) by {
                        assert forall|j: int| 0 <= j < self.edits@.len() implies self.numbers()[slot_of(
                            self.keys@,
                            self.edits@[j],
                        )] == numbers[slot_of(keys, self.edits@[j])] by {
                            lemma_slot(keys, self.edits@[j]);
                            lemma_slot_stable(keys, *v, self.edits@[j]);
                        }
                    }
                    assert forall|i: int| 0 <= i < self.held.len() implies covered(
                        (#[trigger] self.held@[i]).constraint@,
                        self.keys@,
                    ) && constraint_row(self.held@[i].handle) == lowered(
                        self.held@[i].constraint@,
                        self.keys@,
                        self.numbers(),
                    ) by {
                        lemma_lowered_stable(self.held@[i].constraint@, keys, numbers, *v, n);
                    }
                }
                Some(self.keys.len() - 1)
            },
        }
    }

    /// Makes sure every variable of the terms has a slot, taking the terms in
    /// order. Returns whether it got one for each: it does where each has one
    /// already, and then nothing changes; it does not where the solver hands
    /// out a variable it has handed out before. On success the table has
    /// grown by the variables that had no slot, in the order they first
    /// occur.
    fn reserve(&mut self, terms: &Vec<LinearTerm<T>>) -> (ok: bool)
        requires
            old(self).inv(),
        ensures
            final(self).inv(),
            final(self).solver == old(self).solver,
            final(self).held == old(self).held,
            final(self).edits == old(self).edits,
            old(self).keys@.is_prefix_of(final(self).keys@),
            ok ==> terms_covered(terms@, final(self).keys@),
            ok ==> final(self).keys@ == with_variables(old(self).keys@, terms@),
            terms_covered(terms@, old(self).keys@) ==> ok && final(self).keys == old(self).keys
                && final(self).vars == old(self).vars,
            registered(final(self).edits@, final(self).keys@, final(self).numbers())
                == registered(old(self).edits@, old(self).keys@, old(self).numbers()),
            final(self).edit_numbers() == old(self).edit_numbers(),
    {
        let mut i: usize = 0;
        while i < terms.len()
            invariant
                0 <= i <= terms.len(),
                self.inv(),
                self.solver == old(self).solver,
                self.held == old(self).held,
                self.edits == old(self).edits,
                old(self).keys@.is_prefix_of(self.keys@),
                forall|j: int| 0 <= j < i ==> self.keys@.contains(#[trigger] terms@[j].variable),
                self.keys@ == with_variables(old(self).keys@, terms@.take(i as int)),
                terms_covered(terms@, old(self).keys@) ==> self.keys == old(self).keys
                    && self.vars == old(self).vars,
                registered(self.edits@, self.keys@, self.numbers()) == registered(
                    old(self).edits@,
                    old(self).keys@,
                    old(self).numbers(),
                ),
                self.edit_numbers() == old(self).edit_numbers(),
            decreases terms.len() - i,
        {
            let ghost before = self.keys@;
            proof {
                assert(terms@.take(i + 1).drop_last() =~= terms@.take(i as int));
                assert(terms@.take(i + 1).last() == terms@[i as int]);
            }
            if self.slot(&terms[i].variable).is_none() {
                return false;
            }
            proof {
                assert forall|j: int| 0 <= j < i + 1 implies self.keys@.contains(
                    #[trigger] terms@[j].variable,
                ) by {
                    if j < i {
                        lemma_prefix_contains(before, self.keys@, terms@[j].variable);
                    }
                }
            }
            i += 1;
        }
        assert(terms@.take(i as int) =~= terms@);
        true
    }

    /// Appends to `out` the solver-side terms of one side of a constraint.
    fn side(&self, terms: &Vec<LinearTerm<T>>, negate: bool, out: &mut Vec<cassowary::Term>)
        requires
            self.inv(),
            terms_covered(terms@, self.keys@),
        ensures
            final(out)@.map_values(|t: cassowary::Term| term_parts(t)) == old(out)@.map_values(
                |t: cassowary::Term| term_parts(t),
            ) + lowered_terms(terms@, negate, self.keys@, self.numbers()),
    {
        let ghost parts = |t: cassowary::Term| term_parts(t);
        let ghost want = lowered_terms(terms@, negate, self.keys@, self.numbers());
        let mut i: usize = 0;
        while i < terms.len()
            invariant
                0 <= i <= terms.len(),
                self.inv(),
                terms_covered(terms@, self.keys@),
                parts == |t: cassowary::Term| term_parts(t),
                want == lowered_terms(terms@, negate, self.keys@, self.numbers()),
                out@.map_values(parts) == old(out)@.map_values(parts) + want.take(i as int),
            decreases terms.len() - i,
        {
            let term = terms[i];
            let ghost before = out@;
            match self.find(&term.variable) {
                Some(s) => {
                    let coefficient: i64 = if negate {
                        -(term.coefficient as i64)
                    } else {
                        term.coefficient as i64
                    };
                    let t = term_new(&self.vars[s], coefficient);
                    out.push(t);
                    proof {
                        assert(parts(t) == want[i as int]);
                        assert(out@.map_values(parts) =~= before.map_values(parts).push(parts(t)));
                        assert(want.take(i + 1) =~= want.take(i as int).push(want[i as int]));
                    }
                },
                None => {
                    assert(false);
                },
            }
            i += 1;
        }
        assert(want.take(i as int) =~= want);
    }

    /// Builds the solver-side constraint for `c`, making solver variables for
    /// the variables that have none, those of the left side first. A constant
    /// the solver cannot hold is found before anything is made.
    fn lower(&mut self, c: &LinearConstraint<T>) -> (r: Lowering)
        requires
            old(self).inv(),
        ensures
            final(self).inv(),
            final(self).solver == old(self).solver,
            final(self).held == old(self).held,
            final(self).edits == old(self).edits,
            r is Unrepresentable <==> !representable(c@),
            r matches Lowering::Lowered(h) ==> covered(c@, final(self).keys@) && constraint_row(h)
                == lowered(c@, final(self).keys@, final(self).numbers()),
            r is Lowered ==> final(self).keys@ == with_variables(
                with_variables(old(self).keys@, c.lhs.terms@),
                c.rhs.terms@,
            ),
            r is Unrepresentable ==> final(self).keys == old(self).keys && final(self).vars == old(self).vars,
            representable(c@) && covered(c@, old(self).keys@) ==> r is Lowered && final(self).keys
                == old(self).keys && final(self).vars == old(self).vars,
            registered(final(self).edits@, final(self).keys@, final(self).numbers())
                == registered(old(self).edits@, old(self).keys@, old(self).numbers()),
            final(self).edit_numbers() == old(self).edit_numbers(),
    {
        let constant: i128 = c.lhs.constant as i128 - c.rhs.constant as i128;
        if constant < -(EXACT_LIMIT as i128) || constant > EXACT_LIMIT as i128 {
            return Lowering::Unrepresentable;
        }
        if !self.reserve(&c.lhs.terms) {
            return Lowering::Clash;
        }
        let ghost middle = self.keys@;
        if !self.reserve(&c.rhs.terms) {
            return Lowering::Clash;
        }
        proof {
            assert forall|j: int| 0 <= j < c.lhs.terms@.len() implies self.keys@.contains(
                #[trigger] c.lhs.terms@[j].variable,
            ) by {
                lemma_prefix_contains(middle, self.keys@, c.lhs.terms@[j].variable);
            }
        }
        let mut terms: Vec<cassowary::Term> = Vec::new();
        self.side(&c.lhs.terms, false, &mut terms);
        self.side(&c.rhs.terms, true, &mut terms);
        let h = constraint_new(terms, constant as i64, c.relation, c.strength);
        proof {
            let parts = |t: cassowary::Term| term_parts(t);
            assert(Seq::<cassowary::Term>::empty().map_values(parts) =~= Seq::<(int, int)>::empty());
            assert(constraint_row(h).terms =~= lowered(c@, self.keys@, self.numbers()).terms);
        }
        Lowering::Lowered(h)
    }

    /// Gives up every constraint held for `owner`, in the order they are held,
    /// and keeps the others as they are held. Returns whether the solver went
    /// along, which it does where nothing is held for `owner`, as nothing is
    /// asked of it then; where it did not, nothing is promised of the solver.
    /// The table and the edit variables stay as they are either way.
    fn release(&mut self, owner: Option<u32>) -> (ok: bool)
        requires
            old(self).inv(),
        ensures
            final(self).keys == old(self).keys,
            final(self).vars == old(self).vars,
            final(self).edits == old(self).edits,
            solver_suggested(final(self).solver) == solver_suggested(old(self).solver),
            ok ==> final(self).inv(),
            ok ==> select(final(self).held@, owner) == Seq::<ConstraintView<T>>::empty(),
            ok ==> forall|other: Option<u32>|
                other != owner ==> select(final(self).held@, other) == select(
                    old(self).held@,
                    other,
                ),
            ok ==> final(self).held@ == others(old(self).held@, owner),
            select(old(self).held@, owner).len() == 0 ==> ok && final(self).held == old(self).held
                && final(self).solver == old(self).solver,
    {
        let ghost nothing = select(self.held@, owner).len() == 0;
        proof {
            if nothing {
                lemma_select_empty(self.held@, owner);
            }
        }
        let mut i: usize = 0;
        while i < self.held.len()
            invariant
                0 <= i <= self.held.len(),
                self.inv(),
                self.keys == old(self).keys,
                self.vars == old(self).vars,
                self.edits == old(self).edits,
                solver_suggested(self.solver) == solver_suggested(old(self).solver),
                forall|j: int| 0 <= j < i ==> (#[trigger] self.held@[j]).owner != owner,
                forall|other: Option<u32>|
                    other != owner ==> select(self.held@, other) == select(old(self).held@, other),
                others(self.held@, owner) == others(old(self).held@, owner),
                nothing == (select(old(self).held@, owner).len() == 0),
                nothing ==> self.held == old(self).held && self.solver == old(self).solver,
                nothing ==> forall|j: int|
                    0 <= j < self.held.len() ==> (#[trigger] self.held@[j]).owner != owner,
            decreases self.held.len() - i,
        {
            if same_owner(&self.held[i].owner, &owner) {
                assert(self.held@[i as int].owner == owner);
                assert(!nothing);
                let ghost before = self.held@;
                let ghost rows = self.held_rows();
                let ghost fixed = edit_rows(self.edits@, self.keys@, self.numbers()).to_multiset();
                let outcome = solver_remove(&mut self.solver, &self.held[i].handle);
                match after_remove(&outcome) {
                    true => {
                        self.held.remove(i);
                        proof {
                            assert(self.held@ == before.remove(i as int));
                            assert(self.held_rows() =~= rows.remove(i as int));
                            to_multiset_remove(rows, i as int);
                            rows.to_multiset_ensures();
                            assert(rows.contains(rows[i as int]));
                            assert(solver_rows(self.solver) =~= fixed.add(
                                self.held_rows().to_multiset(),
                            ));
                            assert forall|other: Option<u32>| other != owner implies select(
                                self.held@,
                                other,
                            ) == select(old(self).held@, other) by {
                                lemma_select_remove(before, i as int, other);
                            }
                            lemma_others_remove(before, i as int, owner);
                        }
                    },
                    false => {
                        return false;
                    },
                }
            } else {
                i += 1;
            }
        }
        proof {
            lemma_select_none(self.held@, owner);
            lemma_others_all(self.held@, owner);
        }
        true
    }

    /// Hands the constraints of `set` to the solver for `owner`, in order. If
    /// one of them is refused, the ones handed over before it are given up
    /// again.
    fn attach(&mut self, owner: Option<u32>, set: &Constraints<T>) -> (r: Attached)
        requires
            old(self).inv(),
            select(old(self).held@, owner) == Seq::<ConstraintView<T>>::empty(),
        ensures
            final(self).edits == old(self).edits,
            solver_suggested(final(self).solver) == solver_suggested(old(self).solver),
            registered(final(self).edits@, final(self).keys@, final(self).numbers())
                == registered(old(self).edits@, old(self).keys@, old(self).numbers()),
            final(self).edit_numbers() == old(self).edit_numbers(),
            !(r is Failed) ==> final(self).inv(),
            !(r is Failed) ==> forall|other: Option<u32>|
                other != owner ==> select(final(self).held@, other) == select(
                    old(self).held@,
                    other,
                ),
            r is Done ==> select(final(self).held@, owner) == set@,
            r is Done ==> all_representable(set@),
            r is Done ==> appended(final(self).held@, old(self).held@, owner, set@),
            r is Unsatisfiable || r is Unrepresentable ==> select(final(self).held@, owner)
                == Seq::<ConstraintView<T>>::empty(),
            r is Unsatisfiable || r is Unrepresentable ==> final(self).held@ == old(self).held@,
            r is Unsatisfiable || r is Unrepresentable ==> set@.len() > 0,
            r is Unsatisfiable ==> has_required(set@),
            r is Unrepresentable ==> !all_representable(set@),
            set@.len() == 0 ==> r is Done && final(self).held == old(self).held && final(self).solver == old(self).solver && final(self).keys == old(self).keys && final(self).vars
                == old(self).vars,
            set@.len() > 0 && !representable(set@[0]) ==> r is Unrepresentable && final(self).solver == old(self).solver && final(self).keys == old(self).keys && final(self).vars
                == old(self).vars,
    {
        let ghost start = self.held@;
        proof {
            lemma_select_empty(start, owner);
            lemma_others_all(start, owner);
            assert(start.take(start.len() as int) =~= start);
        }
        let mut k: usize = 0;
        while k < set.0.len()
            invariant
                0 <= k <= set.0.len(),
                self.inv(),
                self.edits == old(self).edits,
                solver_suggested(self.solver) == solver_suggested(old(self).solver),
                registered(self.edits@, self.keys@, self.numbers()) == registered(
                    old(self).edits@,
                    old(self).keys@,
                    old(self).numbers(),
                ),
                self.edit_numbers() == old(self).edit_numbers(),
                start == old(self).held@,
                select(start, owner).len() == 0,
                select(self.held@, owner) == set@.take(k as int),
                forall|j: int| 0 <= j < k ==> representable(#[trigger] set@[j]),
                forall|other: Option<u32>|
                    other != owner ==> select(self.held@, other) == select(old(self).held@, other),
                others(self.held@, owner) == start,
                appended(self.held@, start, owner, set@.take(k as int)),
                k == 0 ==> self.held == old(self).held && self.solver == old(self).solver
                    && self.keys == old(self).keys && self.vars == old(self).vars,
            decreases set.0.len() - k,
        {
            let ghost entry = self.held@;
            let lowered_one = self.lower(&set.0[k]);
            assert(set@[k as int] == set.0@[k as int]@);
            match lowered_one {
                Lowering::Unrepresentable => {
                    let ok = self.release(owner);
                    return if ok {
                        Attached::Unrepresentable
                    } else {
                        Attached::Failed
                    };
                },
                Lowering::Clash => {
                    return Attached::Failed;
                },
                Lowering::Lowered(handle) => {
                    let ghost rows = self.held_rows();
                    let outcome = solver_add(&mut self.solver, &handle);
                    match after_add(&outcome) {
                        Verdict::Held => {
                            let record = Held { owner, constraint: set.0[k].duplicate(), handle };
                            self.held.push(record);
                            proof {
                                assert(self.held@ == entry.push(record));
                                assert(self.held_rows() =~= rows.push(constraint_row(handle)));
                                to_multiset_build(rows, constraint_row(handle));
                                let fixed = edit_rows(
                                    self.edits@,
                                    self.keys@,
                                    self.numbers(),
                                ).to_multiset();
                                assert(solver_rows(self.solver) =~= fixed.add(
                                    self.held_rows().to_multiset(),
                                ));
                                lemma_select_push(entry, record, owner);
                                lemma_others_push(entry, record, owner);
                                assert(set@.take(k + 1) =~= set@.take(k as int).push(
                                    set@[k as int],
                                ));
                                assert(appended(self.held@, start, owner, set@.take(k + 1))) by {
                                    assert(self.held@.take(start.len() as int) =~= entry.take(
                                        start.len() as int,
                                    ));
                                }
                                assert forall|other: Option<u32>| other != owner implies select(
                                    self.held@,
                                    other,
                                ) == select(old(self).held@, other) by {
                                    lemma_select_push(entry, record, other);
                                }
                            }
                        },
                        Verdict::Refused => {
                            proof {
                                assert(set@[k as int].strength == Strength::Required);
                            }
                            let ok = self.release(owner);
                            return if ok {
                                Attached::Unsatisfiable
                            } else {
                                Attached::Failed
                            };
                        },
                        Verdict::Broken => {
                            return Attached::Failed;
                        },
                    }
                },
            }
            k += 1;
        }
        assert(set@.take(k as int) =~= set@);
        Attached::Done
    }

    /// A solver that has the edit variables of the axis registered and holds
    /// the constraints pinning the stage, and nothing else. The edit variables
    /// are registered first, while the solver holds nothing that could make it
    /// refuse one. `None` where the solver refused something, which cannot
    /// happen on an axis that has neither: nothing is asked of the solver
    /// then.
    fn build() -> (r: Option<Core<T>>)
        ensures
            r matches Some(core) ==> core.ready(),
            r matches Some(core) ==> forall|id: u32|
                select(core.held@, Some(id)) == Seq::<ConstraintView<T>>::empty(),
            r matches Some(core) ==> appended(
                core.held@,
                Seq::<Held<T>>::empty(),
                None,
                T::root(),
            ),
            r matches Some(core) ==> solver_suggested(core.solver) == registered(
                T::edits(),
                core.keys@,
                core.numbers(),
            ),
            T::root().len() == 0 && T::edits().len() == 0 ==> r is Some,
    {
        let mut core = Core {
            solver: solver_new(),
            held: Vec::new(),
            keys: Vec::new(),
            vars: Vec::new(),
            edits: Vec::new(),
        };
        proof {
            assert(core.held_rows() =~= Seq::<Row>::empty());
            assert(edit_rows(core.edits@, core.keys@, core.numbers()) =~= Seq::<Row>::empty());
            let nothing = Seq::<Row>::empty();
            nothing.to_multiset_ensures();
            vstd::multiset::lemma_multiset_empty_len(nothing.to_multiset());
            assert(solver_rows(core.solver) =~= nothing.to_multiset().add(nothing.to_multiset()));
            assert forall|other: Option<u32>|
                select(core.held@, other) == Seq::<ConstraintView<T>>::empty() by {
                lemma_select_none(core.held@, other);
            }
        }
        let edits = T::edit_variables();
        let mut j: usize = 0;
        while j < edits.len()
            invariant
                0 <= j <= edits.len(),
                edits@ == T::edits(),
                core.inv(),
                core.edits@ == edits@.take(j as int),
                core.held@ == Seq::<Held<T>>::empty(),
                solver_suggested(core.solver) == registered(
                    core.edits@,
                    core.keys@,
                    core.numbers(),
                ),
            decreases edits.len() - j,
        {
            let edit = edits[j];
            let i = match core.slot(&edit) {
                Some(i) => i,
                None => {
                    return None;
                },
            };
            let ghost before = core.edits@;
            let ghost fixed = edit_rows(core.edits@, core.keys@, core.numbers());
            proof {
                assert(core.held_rows() =~= Seq::<Row>::empty());
                let nothing = Seq::<Row>::empty();
                nothing.to_multiset_ensures();
                vstd::multiset::lemma_multiset_empty_len(nothing.to_multiset());
                assert(solver_rows(core.solver) =~= fixed.to_multiset());
                fixed.to_multiset_ensures();
                assert forall|row: Row| solver_rows(core.solver).count(row) > 0 implies exists|
                    variable: int,
                    strength: Strength,
                |
                    strength != Strength::Required && row == #[trigger] Row::edit(
                        variable,
                        strength,
                    ) by {
                    assert(fixed.contains(row));
                    let q = choose|q: int| 0 <= q < fixed.len() && fixed[q] == row;
                    assert(row == Row::edit(
                        core.numbers()[slot_of(core.keys@, core.edits@[q])],
                        Strength::Strong,
                    ));
                }
            }
            let outcome = solver_add_edit(&mut core.solver, &core.vars[i], Strength::Strong);
            match outcome {
                Ok(()) => {
                    core.edits.push(edit);
                    proof {
                        let row = Row::edit(variable_number(core.vars@[i as int]), Strength::Strong);
                        assert(core.edits@ == before.push(edit));
                        assert(core.edits@.drop_last() =~= before);
                        assert(variable_number(core.vars@[i as int]) == core.numbers()[i as int]);
                        assert(edits@.take(j + 1) =~= edits@.take(j as int).push(edit));
                        assert(edit_rows(core.edits@, core.keys@, core.numbers()) =~= fixed.push(
                            row,
                        ));
                        to_multiset_build(fixed, row);
                        assert(solver_rows(core.solver) =~= edit_rows(
                            core.edits@,
                            core.keys@,
                            core.numbers(),
                        ).to_multiset().add(core.held_rows().to_multiset()));
                    }
                },
                Err(_) => {
                    return None;
                },
            }
            j += 1;
        }
        assert(edits@.take(j as int) =~= edits@);
        let root = T::initial_constraints();
        proof {
            assert forall|other: Option<u32>|
                select(core.held@, other) == Seq::<ConstraintView<T>>::empty() by {
                lemma_select_none(core.held@, other);
            }
        }
        match core.attach(None, &root) {
            Attached::Done => {},
            _ => {
                return None;
            },
        }
        Some(core)
    }

    /// The invariant holds, the edit variables of the axis are registered and
    /// the stage is pinned.
    closed spec fn ready(&self) -> bool {
        &&& self.inv()
        &&& self.edits@ == T::edits()
        &&& select(self.held@, None) == T::root()
    }

    /// Suggests to the solver the value of every edit variable for this
    /// viewport, in their order, and stops at the first it does not take.
    /// Returns whether the solver took them all, which it does on an axis
    /// without edit variables, as nothing is asked of it then. What the solver
    /// has as suggested values afterwards are those of the viewport for the
    /// edit variables it was asked about, all of them on success. Only the
    /// solver changes.
    fn suggest(&mut self, window: &WindowSize) -> (ok: bool)
        requires
            old(self).inv(),
        ensures
            final(self).inv(),
            final(self).held == old(self).held,
            final(self).edits == old(self).edits,
            final(self).keys == old(self).keys,
            final(self).vars == old(self).vars,
            old(self).edits@.len() == 0 ==> ok && final(self).solver == old(self).solver,
            ok ==> final(self).aimed(*window),
            ok ==> solver_suggested(final(self).solver) == with_targets(
                solver_suggested(old(self).solver),
                old(self).edits@,
                old(self).keys@,
                old(self).numbers(),
                *window,
            ),
            exists|n: int|
                0 <= n <= old(self).edits@.len() && solver_suggested(final(self).solver)
                    == #[trigger] with_targets(
                    solver_suggested(old(self).solver),
                    old(self).edits@.take(n),
                    old(self).keys@,
                    old(self).numbers(),
                    *window,
                ),
    {
        let ghost before = solver_suggested(self.solver);
        let ghost numbers = self.numbers();
        let mut j: usize = 0;
        while j < self.edits.len()
            invariant
                0 <= j <= self.edits.len(),
                self.inv(),
                self.held == old(self).held,
                self.edits == old(self).edits,
                self.keys == old(self).keys,
                self.vars == old(self).vars,
                j == 0 ==> self.solver == old(self).solver,
                before == solver_suggested(old(self).solver),
                numbers == old(self).numbers(),
                numbers == self.numbers(),
                solver_suggested(self.solver) == with_targets(
                    before,
                    self.edits@.take(j as int),
                    self.keys@,
                    numbers,
                    *window,
                ),
                forall|q: int|
                    0 <= q < j ==> solver_suggested(self.solver).contains_key(
                        #[trigger] self.edit_numbers()[q],
                    ) && solver_suggested(self.solver)[self.edit_numbers()[q]]
                        == self.edits@[q].edit_target(*window),
            decreases self.edits.len() - j,
        {
            let edit = self.edits[j];
            assert(self.keys@.contains(self.edits@[j as int]));
            proof {
                assert(self.edits@.take(j + 1).drop_last() =~= self.edits@.take(j as int));
                assert(self.edits@.take(j + 1).last() == edit);
            }
            match self.find(&edit) {
                Some(i) => {
                    let value = edit.get_edit_variable_value(window);
                    let ghost taken = solver_suggested(self.solver);
                    let ghost en = self.edit_numbers();
                    proof {
                        assert forall|q: int| 0 <= q < j implies taken.contains_key(en[q])
                            && taken[en[q]] == self.edits@[q].edit_target(*window) by {
                            assert(solver_suggested(self.solver).contains_key(
                                self.edit_numbers()[q],
                            ));
                        }
                    }
                    let outcome = solver_suggest(&mut self.solver, &self.vars[i], value);
                    assert(variable_number(self.vars@[i as int]) == numbers[i as int]);
                    proof {
                        assert(self.edit_numbers() =~= en);
                        if outcome is Ok {
                            self.lemma_table();
                            assert(en[j as int] == numbers[i as int]);
                            assert forall|q: int| 0 <= q < j + 1 implies solver_suggested(
                                self.solver,
                            ).contains_key(#[trigger] self.edit_numbers()[q]) && solver_suggested(
                                self.solver,
                            )[self.edit_numbers()[q]] == self.edits@[q].edit_target(*window) by {
                                assert(self.edit_numbers()[q] == en[q]);
                                if q < j {
                                    assert(taken.contains_key(en[q]));
                                    if en[q] == numbers[i as int] {
                                        let a = slot_of(self.keys@, self.edits@[q]);
                                        assert(self.keys@.contains(self.edits@[q]));
                                        lemma_slot(self.keys@, self.edits@[q]);
                                        assert(numbers[a] == numbers[i as int]);
                                        assert(a == i);
                                        assert(self.edits@[q] == edit);
                                    }
                                }
                            }
                        }
                    }
                    if !after_suggest(&outcome) {
                        assert(solver_suggested(self.solver) == with_targets(
                            before,
                            self.edits@.take(j as int),
                            self.keys@,
                            numbers,
                            *window,
                        ) || solver_suggested(self.solver) == with_targets(
                            before,
                            self.edits@.take(j + 1),
                            self.keys@,
                            numbers,
                            *window,
                        ));
                        return false;
                    }
                },
                None => {
                    assert(false);
                },
            }
            j += 1;
        }
        assert(self.edits@.take(j as int) =~= self.edits@);
        true
    }

    /// The slot of the solver variable, if the table holds it.
    fn slot_holding(&self, var: &cassowary::Variable) -> (r: Option<usize>)
        ensures
            r matches Some(i) ==> i < self.vars.len() && self.numbers()[i as int]
                == variable_number(*var),
            r is None ==> !self.numbers().contains(variable_number(*var)),
    {
        let mut i: usize = 0;
        while i < self.vars.len()
            invariant
                0 <= i <= self.vars.len(),
                forall|j: int| 0 <= j < i ==> self.numbers()[j] != variable_number(*var),
            decreases self.vars.len() - i,
        {
            if variable_same(&self.vars[i], var) {
                return Some(i);
            }
            i += 1;
        }
        None
    }

    /// The report of the solver with every variable the table holds turned
    /// into the layout variable of its slot, in the order of the report. What
    /// the table does not hold is left out. No variable comes twice where none
    /// does in the report.
    fn translate(&self, raw: &Vec<(cassowary::Variable, i64)>) -> (r: Vec<(T, i64)>)
        requires
            self.inv(),
        ensures
            r@ == translated(numbered(raw@), self.keys@, self.numbers()),
            once_each(numbered(raw@)) ==> one_each(r@),
            forall|a: int| 0 <= a < r.len() ==> self.keys@.contains(#[trigger] r@[a].0),
    {
        let mut out: Vec<(T, i64)> = Vec::new();
        let ghost report = numbered(raw@);
        let ghost mut slots: Seq<int> = Seq::empty();
        let mut k: usize = 0;
        while k < raw.len()
            invariant
                0 <= k <= raw.len(),
                self.inv(),
                report == numbered(raw@),
                out@ == translated(report.take(k as int), self.keys@, self.numbers()),
                out.len() == slots.len(),
                forall|a: int|
                    0 <= a < slots.len() ==> 0 <= #[trigger] slots[a] < self.keys.len() && out@[a].0
                        == self.keys@[slots[a]],
                forall|a: int|
                    0 <= a < slots.len() ==> exists|q: int|
                        0 <= q < k && self.numbers()[#[trigger] slots[a]] == report[q].0,
                once_each(report) ==> forall|a: int, b: int|
                    0 <= a < b < slots.len() ==> slots[a] != slots[b],
            decreases raw.len() - k,
        {
            proof {
                assert(report.take(k + 1).drop_last() =~= report.take(k as int));
                assert(report.take(k + 1).last() == report[k as int]);
                assert(report[k as int] == (variable_number(raw@[k as int].0), raw@[k as int].1));
                self.lemma_table();
            }
            match self.slot_holding(&raw[k].0) {
                Some(i) => {
                    let ghost before = slots;
                    proof {
                        assert(self.numbers().contains(self.numbers()[i as int]));
                        lemma_slot_unique(self.numbers(), i as int);
                        if once_each(report) {
                            assert forall|a: int| 0 <= a < before.len() implies before[a]
                                != i by {
                                let q = choose|q: int|
                                    0 <= q < k && self.numbers()[before[a]] == report[q].0;
                                assert(report[q].0 != report[k as int].0);
                            }
                        }
                        slots = slots.push(i as int);
                    }
                    out.push((self.keys[i], raw[k].1));
                    proof {
                        assert forall|a: int| 0 <= a < slots.len() implies exists|q: int|
                            0 <= q < k + 1 && self.numbers()[#[trigger] slots[a]]
                                == report[q].0 by {
                            if a < before.len() {
                                let q = choose|q: int|
                                    0 <= q < k && self.numbers()[before[a]] == report[q].0;
                                assert(0 <= q < k + 1);
                            } else {
                                assert(self.numbers()[slots[a]] == report[k as int].0);
                            }
                        }
                    }
                },
                None => {},
            }
            k += 1;
        }
        proof {
            assert(report.take(k as int) =~= report);
            self.lemma_table();
            if once_each(report) {
                assert forall|a: int, b: int| 0 <= a < b < out.len() implies out@[a].0
                    != out@[b].0 by {
                    assert(slots[a] != slots[b]);
                }
            }
            assert forall|a: int| 0 <= a < out.len() implies self.keys@.contains(
                #[trigger] out@[a].0,
            ) by {
                assert(self.keys@[slots[a]] == out@[a].0);
            }
        }
        out
    }

    /// What the solver is aimed at stays with its suggested values, the edit
    /// variables and their numbers.
    proof fn lemma_aimed_kept(&self, later: &Core<T>, w: WindowSize)
        requires
            self.aimed(w),
            later.edits == self.edits,
            later.edit_numbers() == self.edit_numbers(),
            solver_suggested(later.solver) == solver_suggested(self.solver),
        ensures
            later.aimed(w),
    {
        assert forall|j: int| 0 <= j < later.edits@.len() implies solver_suggested(
            later.solver,
        ).contains_key(#[trigger] later.edit_numbers()[j]) && solver_suggested(
            later.solver,
        )[later.edit_numbers()[j]] == later.edits@[j].edit_target(w) by {
            assert(solver_suggested(self.solver).contains_key(self.edit_numbers()[j]));
        }
    }

    /// The table is as long as its solver variables are many, and neither a
    /// key nor a number occurs twice in it.
    proof fn lemma_table(&self)
        requires
            self.inv(),
        ensures
            self.keys@.len() == self.numbers().len(),
            distinct(self.keys@),
            distinct(self.numbers()),
    {
    }

    /// The values the solver changed since they were last asked for, each with
    /// the variable it belongs to: the translation of a report that lists what
    /// the solver had in store. No variable comes twice. Only the solver
    /// changes.
    fn changes(&mut self) -> (r: Vec<(T, i64)>)
        requires
            old(self).inv(),
        ensures
            final(self).inv(),
            final(self).held == old(self).held,
            final(self).edits == old(self).edits,
            final(self).keys == old(self).keys,
            final(self).vars == old(self).vars,
            one_each(r@),
            forall|a: int| 0 <= a < r.len() ==> final(self).keys@.contains(#[trigger] r@[a].0),
            exists|report: Seq<(int, i64)>|
                lists(report, solver_pending(old(self).solver)) && r@ == #[trigger] translated(
                    report,
                    final(self).keys@,
                    final(self).numbers(),
                ),
            solver_pending(final(self).solver).dom() == Set::<int>::empty(),
            solver_suggested(final(self).solver) == solver_suggested(old(self).solver),
            solver_pending(old(self).solver).dom() == Set::<int>::empty() ==> r@.len() == 0,
    {
        let raw = solver_fetch(&mut self.solver);
        let r = self.translate(&raw);
        proof {
            let report = numbered(raw@);
            assert(once_each(report));
            assert(r@ == translated(report, self.keys@, self.numbers()));
            if solver_pending(old(self).solver).dom() == Set::<int>::empty() {
                if report.len() > 0 {
                    assert(solver_pending(old(self).solver).contains_key(report[0].0));
                    assert(solver_pending(old(self).solver).dom().contains(report[0].0));
                }
                assert(report.len() == 0);
            }
        }
        r
    }
}

/// What the engine makes of the solver's answer to a constraint.
#[derive(Clone, Copy, Debug, PartialEq, Eq, Structural)]
pub enum Verdict {
    /// The solver holds the constraint.
    Held,
    /// The solver found the constraint unsatisfiable and does not hold it. The
    /// set it belongs to is given up and reported.
    Refused,
    /// The solver answered what it should never answer here. The engine lets
    /// go of it.
    Broken,
}

/// What the engine makes of the solver's answer to a constraint handed over.
pub open spec fn verdict_of(outcome: Result<(), AddFailure>) -> Verdict {
    match outcome {
        Ok(()) => Verdict::Held,
        Err(AddFailure::Unsatisfiable) => Verdict::Refused,
        Err(_) => Verdict::Broken,
    }
}

/// What the engine makes of the solver's answer to a constraint handed over:
/// only a required constraint that cannot be met is the caller's to mend; a
/// duplicate or an internal error means the solver is beyond use.
pub fn after_add(outcome: &Result<(), AddFailure>) -> (v: Verdict)
    ensures
        v == verdict_of(*outcome),
{
    match outcome {
        Ok(()) => Verdict::Held,
        Err(AddFailure::Unsatisfiable) => Verdict::Refused,
        Err(_) => Verdict::Broken,
    }
}

/// Whether the solver can be used on after its answer to a constraint given
/// up: only if it gave it up cleanly.
pub fn after_remove(outcome: &Result<(), RemoveFailure>) -> (usable: bool)
    ensures
        usable == (*outcome is Ok),
{
    outcome.is_ok()
}

/// Whether the solver can be used on after its answer to a suggested value:
/// only if it took the value.
pub fn after_suggest(outcome: &Result<(), SuggestFailure>) -> (usable: bool)
    ensures
        usable == (*outcome is Ok),
{
    outcome.is_ok()
}

/// How building a solver-side constraint ended.
enum Lowering {
    /// The solver-side constraint.
    Lowered(cassowary::Constraint),
    /// The solver's number format does not hold the constant exactly.
    Unrepresentable,
    /// The solver handed out a variable it had handed out before.
    Clash,
}

/// How handing a constraint set to the solver ended.
enum Attached {
    /// The solver holds the whole set.
    Done,
    /// The solver found a required constraint of the set unsatisfiable; it
    /// holds none of the set.
    Unsatisfiable,
    /// A constraint of the set has a constant the solver cannot hold exactly;
    /// the solver holds none of the set.
    Unrepresentable,
    /// The solver did not do as asked; nothing is known of what it holds.
    Failed,
}

/// Whether two owners are the same.
fn same_owner(a: &Option<u32>, b: &Option<u32>) -> (r: bool)
    ensures
        r == (*a == *b),
{
    match (a, b) {
        (Some(x), Some(y)) => *x == *y,
        (None, None) => true,
        _ => false,
    }
}

proof fn lemma_prefix_contains<T>(a: Seq<T>, b: Seq<T>, v: T)
    requires
        a.is_prefix_of(b),
        a.contains(v),
    ensures
        b.contains(v),
{
    let i = choose|i: int| 0 <= i < a.len() && a[i] == v;
    assert(b[i] == v);
}

/// Why a layout pass was cut short.
#[derive(Clone, Copy, Debug, PartialEq, Eq, Structural)]
pub enum LayoutError {
    /// A required constraint of the entity's set contradicts the required
    /// constraints the solver already holds.
    UnsatisfiableConstraints { entity: u32, axis: Axis },
    /// A constraint of the entity's set has a constant beyond what the solver
    /// holds exactly.
    UnrepresentableConstraint { entity: u32, axis: Axis },
    /// The solver reported an invalid state of its own. The engine has let go
    /// of it and starts over on the next pass.
    SolverFailure { axis: Axis },
}

/// What is held for the subject of `e` once `e` has been dealt with: nothing
/// after a removal, else the set the store holds for it now.
pub open spec fn settled<T>(store: Map<u32, Constraints<T>>, e: ComponentEvent) -> Seq<
    ConstraintView<T>,
> {
    if !(e is Removed) && store.contains_key(e.subject()) {
        store[e.subject()]@
    } else {
        Seq::empty()
    }
}

/// The last of the events that concerns `id`, if any does.
pub open spec fn last_about(events: Seq<ComponentEvent>, id: u32) -> Option<ComponentEvent>
    decreases events.len(),
{
    if events.len() == 0 {
        None
    } else if events.last().subject() == id {
        Some(events.last())
    } else {
        last_about(events.drop_last(), id)
    }
}

/// What is held for `id` once the events have been dealt with, given what
/// was held for it before: the last event about `id` decides.
pub open spec fn expected_held<T>(
    prior: Seq<ConstraintView<T>>,
    store: Map<u32, Constraints<T>>,
    events: Seq<ComponentEvent>,
    id: u32,
) -> Seq<ConstraintView<T>> {
    match last_about(events, id) {
        Some(e) => settled(store, e),
        None => prior,
    }
}

/// No number occurs in two entries of the report.
pub open spec fn once_each(report: Seq<(int, i64)>) -> bool {
    forall|i: int, j: int| 0 <= i < j < report.len() ==> report[i].0 != report[j].0
}

/// The report of a solver in terms of the layout: each entry whose number the
/// table holds, in order, with the key of that number in place of the number.
/// An entry whose number the table does not hold is left out.
pub open spec fn translated<T>(report: Seq<(int, i64)>, keys: Seq<T>, numbers: Seq<int>) -> Seq<
    (T, i64),
>
    decreases report.len(),
{
    if report.len() == 0 {
        Seq::empty()
    } else {
        let rest = translated(report.drop_last(), keys, numbers);
        if numbers.contains(report.last().0) {
            rest.push((keys[slot_of(numbers, report.last().0)], report.last().1))
        } else {
            rest
        }
    }
}

/// No variable occurs in two of the changes.
pub open spec fn one_each<T>(changes: Seq<(T, i64)>) -> bool {
    forall|a: int, b: int| 0 <= a < b < changes.len() ==> changes[a].0 != changes[b].0
}

/// Every variable of the changes is among the keys.
pub open spec fn in_use<T>(changes: Seq<(T, i64)>, keys: Seq<T>) -> bool {
    forall|a: int| 0 <= a < changes.len() ==> keys.contains(#[trigger] changes[a].0)
}

/// The rectangles after one solved value is written: the value goes into the
/// rectangle of the variable's entity, which starts out zeroed if there is
/// none yet. A variable of the stage, or of an entity that is no longer
/// live, changes nothing.
pub open spec fn write_one<T: AxisVariable>(
    boxes: Map<u32, ElementBox>,
    entities: &Entities,
    variable: T,
    value: int,
) -> Map<u32, ElementBox> {
    match variable.owner() {
        Some(e) => if entities.is_live(e) {
            boxes.insert(
                e.id(),
                variable.placed(
                    if boxes.contains_key(e.id()) {
                        boxes[e.id()]
                    } else {
                        ElementBox::zeroed()
                    },
                    value,
                ),
            )
        } else {
            boxes
        },
        None => boxes,
    }
}

/// The rectangles after the changes are written one after the other.
pub open spec fn written<T: AxisVariable>(
    boxes: Map<u32, ElementBox>,
    entities: &Entities,
    changes: Seq<(T, i64)>,
) -> Map<u32, ElementBox>
    decreases changes.len(),
{
    if changes.len() == 0 {
        boxes
    } else {
        write_one(
            written(boxes, entities, changes.drop_last()),
            entities,
            changes.last().0,
            changes.last().1 as int,
        )
    }
}

/// Every entry of a report whose number the table holds has its translation
/// among the translated changes.
proof fn lemma_translated_holds<T>(
    report: Seq<(int, i64)>,
    keys: Seq<T>,
    numbers: Seq<int>,
    i: int,
) -> (a: int)
    requires
        0 <= i < report.len(),
        numbers.contains(report[i].0),
    ensures
        0 <= a < translated(report, keys, numbers).len(),
        translated(report, keys, numbers)[a] == (keys[slot_of(numbers, report[i].0)], report[i].1),
    decreases report.len(),
{
    let rest = translated(report.drop_last(), keys, numbers);
    if i == report.len() - 1 {
        rest.len() as int
    } else {
        assert(report.drop_last()[i] == report[i]);
        lemma_translated_holds(report.drop_last(), keys, numbers, i)
    }
}

/// Whether the rectangle holds `value` where the values of `variable` are
/// written: writing it there changes nothing.
pub open spec fn shows<T: AxisVariable>(b: ElementBox, variable: T, value: int) -> bool {
    variable.placed(b, value) == b
}

/// Once changes that name no variable twice are written, the rectangle of a
/// live entity holds, for each of its variables among them, the value that
/// came with the variable.
pub proof fn lemma_written_shows<T: AxisVariable>(
    boxes: Map<u32, ElementBox>,
    entities: &Entities,
    changes: Seq<(T, i64)>,
    i: int,
    e: Entity,
)
    requires
        one_each(changes),
        0 <= i < changes.len(),
        changes[i].0.owner() == Some(e),
        entities.is_live(e),
    ensures
        written(boxes, entities, changes).contains_key(e.id()),
        shows(written(boxes, entities, changes)[e.id()], changes[i].0, changes[i].1 as int),
    decreases changes.len(),
{
    let rest = changes.drop_last();
    let last = changes.last();
    let earlier = written(boxes, entities, rest);
    if i == changes.len() - 1 {
        let base = if earlier.contains_key(e.id()) {
            earlier[e.id()]
        } else {
            ElementBox::zeroed()
        };
        last.0.lemma_placed(&last.0, base, last.1 as int, last.1 as int);
    } else {
        assert(one_each(rest)) by {
            assert forall|a: int, b: int| 0 <= a < b < rest.len() implies rest[a].0 != rest[b].0 by {
                assert(rest[a] == changes[a] && rest[b] == changes[b]);
            }
        }
        assert(rest[i] == changes[i]);
        lemma_written_shows(boxes, entities, rest, i, e);
        assert(last.0 != changes[i].0);
        changes[i].0.lemma_placed(&last.0, earlier[e.id()], changes[i].1 as int, last.1 as int);
    }
}

/// On the horizontal axis: once changes that name no variable twice are
/// written, the rectangle of a live entity has the left edge and the width
/// that came with its two variables, each cut to the range of its field, and
/// so its right edge is their sum.
pub proof fn lemma_written_left_and_width(
    boxes: Map<u32, ElementBox>,
    entities: &Entities,
    changes: Seq<(VariableX, i64)>,
    e: Entity,
    i: int,
    j: int,
)
    requires
        one_each(changes),
        entities.is_live(e),
        0 <= i < changes.len(),
        0 <= j < changes.len(),
        changes[i].0 == VariableX::Left(Some(e)),
        changes[j].0 == VariableX::Width(Some(e)),
    ensures
        written(boxes, entities, changes).contains_key(e.id()),
        written(boxes, entities, changes)[e.id()].x == to_coordinate(changes[i].1 as int),
        written(boxes, entities, changes)[e.id()].width == to_extent(changes[j].1 as int),
        written(boxes, entities, changes)[e.id()].right_edge() == to_coordinate(
            changes[i].1 as int,
        ) + to_extent(changes[j].1 as int),
{
    lemma_written_shows(boxes, entities, changes, i, e);
    lemma_written_shows(boxes, entities, changes, j, e);
}

/// The entity a change refers to although it is no longer live, if that is
/// the case.
pub open spec fn stale_owner<T: AxisVariable>(entities: &Entities, variable: T) -> Option<Entity> {
    match variable.owner() {
        Some(e) => if entities.is_live(e) {
            None
        } else {
            Some(e)
        },
        None => None,
    }
}

/// The entities that the changes refer to although they are no longer live,
/// one for each such change, in order.
pub open spec fn dangling<T: AxisVariable>(entities: &Entities, changes: Seq<(T, i64)>) -> Seq<
    Entity,
>
    decreases changes.len(),
{
    if changes.len() == 0 {
        Seq::empty()
    } else {
        let rest = dangling(entities, changes.drop_last());
        match stale_owner(entities, changes.last().0) {
            Some(e) => rest.push(e),
            None => rest,
        }
    }
}

/// Writes one solved value into the rectangle of the variable's entity,
/// making a zeroed rectangle first if it has none. The write is skipped for an
/// entity that is no longer live, and that entity is returned.
pub fn update_variable_value<T: AxisVariable>(
    entities: &Entities,
    element_boxes: &mut Storage<ElementBox>,
    variable: T,
    value: i64,
) -> (stale: Option<Entity>)
    ensures
        final(element_boxes)@ == write_one(old(element_boxes)@, entities, variable, value as int),
        stale == stale_owner(entities, variable),
{
    match variable.entity() {
        Some(e) => {
            if entities.is_alive(e) {
                let current = match element_boxes.get(e.id()) {
                    Some(b) => *b,
                    None => ElementBox::new(),
                };
                element_boxes.insert(e.id(), variable.place(current, value));
                None
            } else {
                Some(e)
            }
        },
        None => None,
    }
}

/// Writes the changed values into the rectangles, one after the other, and
/// returns the entities whose write was skipped because they are no longer
/// live.
pub fn publish<T: AxisVariable>(
    changes: &Vec<(T, i64)>,
    entities: &Entities,
    element_boxes: &mut Storage<ElementBox>,
) -> (stale: Vec<Entity>)
    ensures
        final(element_boxes)@ == written(old(element_boxes)@, entities, changes@),
        stale@ == dangling(entities, changes@),
{
    let mut stale: Vec<Entity> = Vec::new();
    let mut k: usize = 0;
    while k < changes.len()
        invariant
            0 <= k <= changes.len(),
            element_boxes@ == written(old(element_boxes)@, entities, changes@.take(k as int)),
            stale@ == dangling(entities, changes@.take(k as int)),
        decreases changes.len() - k,
    {
        let change = changes[k];
        assert(changes@.take(k + 1).drop_last() =~= changes@.take(k as int));
        assert(changes@.take(k + 1).last() == change);
        match update_variable_value(entities, element_boxes, change.0, change.1) {
            Some(e) => {
                stale.push(e);
            },
            None => {},
        }
        k += 1;
    }
    assert(changes@.take(k as int) =~= changes@);
    stale
}

/// The constraints of the entries that belong to `owner`, in their order.
pub open spec fn of_owner<T>(
    entries: Seq<(Option<u32>, ConstraintView<T>)>,
    owner: Option<u32>,
) -> Seq<ConstraintView<T>>
    decreases entries.len(),
{
    if entries.len() == 0 {
        Seq::empty()
    } else {
        let rest = of_owner(entries.drop_last(), owner);
        if entries.last().0 == owner {
            rest.push(entries.last().1)
        } else {
            rest
        }
    }
}

proof fn lemma_select_entries<T>(held: Seq<Held<T>>, owner: Option<u32>)
    ensures
        select(held, owner) == of_owner(
            held.map_values(|h: Held<T>| (h.owner, h.constraint@)),
            owner,
        ),
    decreases held.len(),
{
    let entries = held.map_values(|h: Held<T>| (h.owner, h.constraint@));
    if held.len() > 0 {
        lemma_select_entries(held.drop_last(), owner);
        assert(entries.drop_last() =~= held.drop_last().map_values(
            |h: Held<T>| (h.owner, h.constraint@),
        ));
    }
}

/// The last event about `id` in two logs laid end to end is the last one in
/// the second, or failing that the last one in the first.
pub proof fn lemma_last_about_concat(
    first: Seq<ComponentEvent>,
    second: Seq<ComponentEvent>,
    id: u32,
)
    ensures
        last_about(first + second, id) == (match last_about(second, id) {
            Some(e) => Some(e),
            None => last_about(first, id),
        }),
    decreases second.len(),
{
    if second.len() == 0 {
        assert(first + second =~= first);
    } else {
        assert((first + second).drop_last() =~= first + second.drop_last());
        assert((first + second).last() == second.last());
        lemma_last_about_concat(first, second.drop_last(), id);
    }
}

/// Dealing with the events of a store in two passes leaves held for `id`
/// what one pass over all of them leaves, as long as the set of `id` did not
/// change between the passes without an event about it in the second: the
/// passes only differ in when the work is done.
pub proof fn lemma_passes_compose<T>(
    prior: Seq<ConstraintView<T>>,
    earlier: Map<u32, Constraints<T>>,
    later: Map<u32, Constraints<T>>,
    first: Seq<ComponentEvent>,
    second: Seq<ComponentEvent>,
    id: u32,
)
    requires
        last_about(second, id) is None ==> earlier.contains_key(id) == later.contains_key(id) && (
        earlier.contains_key(id) ==> earlier[id]@ == later[id]@),
    ensures
        expected_held(expected_held(prior, earlier, first, id), later, second, id)
            == expected_held(prior, later, first + second, id),
{
    lemma_last_about_concat(first, second, id);
    lemma_last_about_subject(first, id);
}

/// The last event about `id` is about `id`.
pub proof fn lemma_last_about_subject(events: Seq<ComponentEvent>, id: u32)
    ensures
        last_about(events, id) matches Some(e) ==> e.subject() == id,
    decreases events.len(),
{
    if events.len() > 0 {
        lemma_last_about_subject(events.drop_last(), id);
    }
}

/// Whether an event asks nothing of the solver but to give up what it holds
/// for the subject: it is a removal, or the store has no set for the subject,
/// or an empty one.
pub open spec fn asks_nothing<T>(store: Map<u32, Constraints<T>>, e: ComponentEvent) -> bool {
    e is Removed || !store.contains_key(e.subject()) || store[e.subject()]@.len() == 0
}

/// After events that ask nothing, nothing is held for an entity for which
/// nothing was held before.
proof fn lemma_nothing_asked<T>(
    prior: Seq<ConstraintView<T>>,
    store: Map<u32, Constraints<T>>,
    seen: Seq<ComponentEvent>,
    id: u32,
)
    requires
        prior.len() == 0,
        forall|j: int| 0 <= j < seen.len() ==> asks_nothing(store, #[trigger] seen[j]),
    ensures
        expected_held(prior, store, seen, id).len() == 0,
    decreases seen.len(),
{
    if seen.len() > 0 {
        assert(asks_nothing(store, seen[seen.len() - 1]));
        if seen.last().subject() != id {
            assert forall|j: int| 0 <= j < seen.drop_last().len() implies asks_nothing(
                store,
                #[trigger] seen.drop_last()[j],
            ) by {
                assert(seen.drop_last()[j] == seen[j]);
            }
            lemma_nothing_asked(prior, store, seen.drop_last(), id);
        }
    }
}

proof fn lemma_last_about_push(events: Seq<ComponentEvent>, e: ComponentEvent, id: u32)
    ensures
        last_about(events.push(e), id) == (if e.subject() == id {
            Some(e)
        } else {
            last_about(events, id)
        }),
{
    assert(events.push(e).drop_last() =~= events);
}

/// The layout engine of one axis.
pub struct LayoutSystem<T> {
    core: Option<Core<T>>,
    reader: usize,
    origin: usize,
    window: Option<WindowSize>,
}

impl<T: AxisVariable> LayoutSystem<T> {
    /// The engine is consistent with its solver.
    pub closed spec fn wf(&self) -> bool {
        match self.core {
            Some(core) => core.ready() && (self.window matches Some(w) ==> core.aimed(w)),
            None => self.reader == self.origin && self.window is None,
        }
    }

    /// The viewport whose values the solver has as suggested ones, if any
    /// has been suggested to it.
    pub closed spec fn viewport(&self) -> Option<WindowSize> {
        self.window
    }

    /// Whether the solver has been built and has nothing in store: no value
    /// has changed since the values were last fetched.
    pub closed spec fn rested(&self) -> bool {
        self.core matches Some(core) && solver_pending(core.solver).dom() == Set::<int>::empty()
    }

    /// Whether a pass for the viewport `w` finds nothing to do: the solver is
    /// built and rested, it has the values of `w` as suggested ones, and the
    /// store has logged nothing new.
    pub open spec fn steady(&self, constraints: &FlaggedStorage<Constraints<T>>, w: WindowSize) -> bool {
        &&& self.is_ready()
        &&& self.rested()
        &&& self.viewport() == Some(w)
        &&& self.cursor() >= constraints.events().len()
    }

    /// Whether the solver has been built.
    pub closed spec fn is_ready(&self) -> bool {
        self.core is Some
    }

    /// The number of events of the constraint store dealt with so far.
    pub closed spec fn cursor(&self) -> nat {
        self.reader as nat
    }

    /// Where in the log of the constraint store the engine started to follow
    /// it, and starts again after a failure of the solver.
    pub closed spec fn origin(&self) -> nat {
        self.origin as nat
    }

    /// The constraints the solver holds for the entity with index `id`, in
    /// the order of its set.
    pub closed spec fn held_for(&self, id: u32) -> Seq<ConstraintView<T>> {
        match self.core {
            Some(core) => select(core.held@, Some(id)),
            None => Seq::empty(),
        }
    }

    /// The constraints handed to the solver and not given up since, in the
    /// order they were handed over, each with the index of the entity whose
    /// set it belongs to; `None` marks the constraints that pin the stage.
    pub closed spec fn entries(&self) -> Seq<(Option<u32>, ConstraintView<T>)> {
        match self.core {
            Some(core) => core.held@.map_values(|h: Held<T>| (h.owner, h.constraint@)),
            None => Seq::empty(),
        }
    }

    /// The layout variables that have a solver variable, in the order they
    /// got one.
    pub closed spec fn keys(&self) -> Seq<T> {
        match self.core {
            Some(core) => core.keys@,
            None => Seq::empty(),
        }
    }

    /// The numbers of the solver variables, in the order of `keys`.
    pub closed spec fn numbers(&self) -> Seq<int> {
        match self.core {
            Some(core) => core.numbers(),
            None => Seq::empty(),
        }
    }

    /// What the solver holds, row by row.
    pub closed spec fn solver_holds(&self) -> Multiset<Row> {
        match self.core {
            Some(core) => solver_rows(core.solver),
            None => Multiset::empty(),
        }
    }

    /// What the solver is expected to hold: the rows of the edit variables of
    /// the axis and the lowered row of every entry.
    pub open spec fn accounted(&self) -> Multiset<Row> {
        edit_rows(T::edits(), self.keys(), self.numbers()).to_multiset().add(
            self.entries().map_values(
                |e: (Option<u32>, ConstraintView<T>)| lowered(e.1, self.keys(), self.numbers()),
            ).to_multiset(),
        )
    }

    /// The solver holds what the engine accounts for and nothing else: a row
    /// for each edit variable of the axis and the lowered row of each
    /// constraint of the sets in force, no more and no fewer. A set that was
    /// given up or replaced has left nothing behind. Every variable in use has
    /// a solver variable, and no two share one.
    pub proof fn lemma_solver_holds(&self)
        requires
            self.wf(),
            self.is_ready(),
        ensures
            self.solver_holds() == self.accounted(),
            self.keys().len() == self.numbers().len(),
            distinct(self.keys()),
            distinct(self.numbers()),
            forall|i: int|
                0 <= i < self.entries().len() ==> covered(
                    (#[trigger] self.entries()[i]).1,
                    self.keys(),
                ),
            forall|id: u32| self.held_for(id) == of_owner(self.entries(), Some(id)),
            of_owner(self.entries(), None) == T::root(),
    {
        let core = self.core->0;
        let lowered_entries = self.entries().map_values(
            |e: (Option<u32>, ConstraintView<T>)| lowered(e.1, self.keys(), self.numbers()),
        );
        assert(lowered_entries =~= core.held_rows());
        assert forall|owner: Option<u32>|
            select(core.held@, owner) == of_owner(self.entries(), owner) by {
            lemma_select_entries(core.held@, owner);
        }
    }

    /// An engine without a solver, which follows a store from its first
    /// event. The solver is built by the first pass.
    pub fn new() -> (s: LayoutSystem<T>)
        ensures
            s.wf(),
            !s.is_ready(),
            s.cursor() == 0,
            s.origin() == 0,
            s.viewport() is None,
            forall|id: u32| s.held_for(id) == Seq::<ConstraintView<T>>::empty(),
    {
        LayoutSystem { core: None, reader: 0, origin: 0, window: None }
    }

    /// Starts to follow the store from its next event on, letting go of any
    /// solver built so far.
    pub fn setup(&mut self, constraints: &FlaggedStorage<Constraints<T>>)
        ensures
            final(self).wf(),
            !final(self).is_ready(),
            final(self).cursor() == constraints.events().len(),
            final(self).origin() == constraints.events().len(),
            final(self).viewport() is None,
            forall|id: u32| final(self).held_for(id) == Seq::<ConstraintView<T>>::empty(),
    {
        self.window = None;
        self.core = None;
        self.reader = constraints.event_count();
        self.origin = self.reader;
    }

    /// Where a pass over a log of `len` events starts.
    pub open spec fn start(&self, len: nat) -> nat {
        if self.cursor() <= len {
            self.cursor()
        } else {
            len
        }
    }

    /// Whether the axis asks nothing of a new solver: it has no constraint
    /// that pins the stage and no edit variable.
    pub open spec fn plain_axis() -> bool {
        T::root().len() == 0 && T::edits().len() == 0
    }

    /// Whether dealing with the event at `j` asks nothing of the solver:
    /// nothing is held for its subject, and the event asks for nothing to be
    /// handed over.
    pub open spec fn quiet_event(&self, constraints: &FlaggedStorage<Constraints<T>>, j: int) -> bool {
        let e = constraints.events()[j];
        self.held_for(e.subject()).len() == 0 && asks_nothing(constraints@, e)
    }

    /// Whether every event not dealt with yet and before `k` is quiet.
    pub open spec fn quiet_until(&self, constraints: &FlaggedStorage<Constraints<T>>, k: int) -> bool {
        forall|j: int|
            self.start(constraints.events().len()) <= j < k ==> #[trigger] self.quiet_event(
                constraints,
                j,
            )
    }

    /// Whether every event not dealt with yet is quiet.
    pub open spec fn quiet(&self, constraints: &FlaggedStorage<Constraints<T>>) -> bool {
        self.quiet_until(constraints, constraints.events().len() as int)
    }

    /// Whether the event at `k` is the first that is not quiet, and brings a
    /// set whose first constraint has a constant the solver cannot hold, for
    /// an entity for which nothing is held.
    pub open spec fn breaks_at(&self, constraints: &FlaggedStorage<Constraints<T>>, k: int) -> bool {
        let e = constraints.events()[k];
        &&& self.start(constraints.events().len()) <= k < constraints.events().len()
        &&& self.quiet_until(constraints, k)
        &&& self.held_for(e.subject()).len() == 0
        &&& !(e is Removed)
        &&& constraints@.contains_key(e.subject())
        &&& constraints@[e.subject()]@.len() > 0
        &&& !representable(constraints@[e.subject()]@[0])
    }

    /// How a pass ends where dealing with the events is all that could ask
    /// something of the solver. A pass over quiet events goes through, as no
    /// call is made that the solver could refuse; and a first event that is
    /// not quiet and brings a set whose first constraint the solver cannot
    /// hold ends the pass with that error for its subject, as the constant is
    /// found before the solver is asked.
    pub open spec fn promised(
        &self,
        constraints: &FlaggedStorage<Constraints<T>>,
        r: Result<Vec<Entity>, LayoutError>,
    ) -> bool {
        &&& self.quiet(constraints) ==> r is Ok
        &&& forall|k: int| #[trigger]
            self.breaks_at(constraints, k) ==> r == Err::<Vec<Entity>, LayoutError>(
                LayoutError::UnrepresentableConstraint {
                    entity: constraints.events()[k].subject(),
                    axis: T::on_axis(),
                },
            )
    }

    /// What a pass owes whatever the solver answers, on an axis that asks
    /// nothing of a new solver: there neither building the solver nor aiming
    /// it at the viewport asks anything of it.
    pub open spec fn owed(
        &self,
        constraints: &FlaggedStorage<Constraints<T>>,
        r: Result<Vec<Entity>, LayoutError>,
    ) -> bool {
        Self::plain_axis() ==> self.promised(constraints, r)
    }

    /// What a pass for the viewport `w` owes whatever the solver answers, on
    /// any axis, once the solver is built and has the values of `w` as the
    /// suggested ones: it is neither built nor aimed again then. A removal or
    /// a change for an entity for which nothing is held is a no-op there.
    pub open spec fn owed_in_place(
        &self,
        constraints: &FlaggedStorage<Constraints<T>>,
        w: WindowSize,
        r: Result<Vec<Entity>, LayoutError>,
    ) -> bool {
        self.is_ready() && self.viewport() == Some(w) ==> self.promised(constraints, r)
    }

    /// While the events before `k` were quiet, nothing is held for an entity
    /// for which nothing was held at the start.
    proof fn lemma_calm(&self, constraints: &FlaggedStorage<Constraints<T>>, k: int, id: u32)
        requires
            self.start(constraints.events().len()) <= k <= constraints.events().len(),
            self.quiet_until(constraints, k),
            self.held_for(id).len() == 0,
        ensures
            expected_held(
                self.held_for(id),
                constraints@,
                constraints.events().subrange(self.start(constraints.events().len()) as int, k),
                id,
            ).len() == 0,
    {
        let start = self.start(constraints.events().len()) as int;
        let seen = constraints.events().subrange(start, k);
        assert forall|j: int| 0 <= j < seen.len() implies asks_nothing(
            constraints@,
            #[trigger] seen[j],
        ) by {
            assert(self.quiet_event(constraints, start + j));
        }
        lemma_nothing_asked(self.held_for(id), constraints@, seen, id);
    }

    /// A pass that ends at an event that is neither quiet after quiet ones nor
    /// the breaking one, with no breaking one before it, owes nothing.
    proof fn lemma_owes_nothing(
        &self,
        constraints: &FlaggedStorage<Constraints<T>>,
        k: int,
        r: Result<Vec<Entity>, LayoutError>,
    )
        requires
            self.start(constraints.events().len()) <= k < constraints.events().len(),
            forall|j: int|
                self.start(constraints.events().len()) <= j < k ==> !#[trigger] self.breaks_at(
                    constraints,
                    j,
                ),
            !self.breaks_at(constraints, k),
            !(self.quiet_until(constraints, k) && self.quiet_event(constraints, k)),
        ensures
            self.promised(constraints, r),
    {
        if self.quiet(constraints) {
            assert(self.quiet_event(constraints, k));
            assert(self.quiet_until(constraints, k));
        }
        assert forall|j: int| !#[trigger] self.breaks_at(constraints, j) by {
            if self.breaks_at(constraints, j) && j > k {
                assert(self.quiet_event(constraints, k));
                assert(self.quiet_until(constraints, k));
            }
        }
    }

    /// A pass that ends at the breaking event with its error owes no more.
    proof fn lemma_break_decides(&self, constraints: &FlaggedStorage<Constraints<T>>, k: int)
        requires
            self.breaks_at(constraints, k),
        ensures
            self.promised(
                constraints,
                Err::<Vec<Entity>, LayoutError>(
                    LayoutError::UnrepresentableConstraint {
                        entity: constraints.events()[k].subject(),
                        axis: T::on_axis(),
                    },
                ),
            ),
    {
        assert(!self.quiet_event(constraints, k));
        assert forall|j: int| #[trigger] self.breaks_at(constraints, j) implies j == k by {
            if j > k {
                assert(self.quiet_event(constraints, k));
            }
            if j < k {
                assert(self.quiet_event(constraints, j));
            }
        }
    }

    /// One layout pass over this axis.
    ///
    /// The viewport is suggested to the solver, unless the solver has its
    /// values as the suggested ones already. Every event of the store not
    /// dealt with yet is then taken in turn: what the solver held for its
    /// entity is given up, and unless the event is a removal the entity's
    /// current set is handed over. At last the values the solver changed are
    /// written into the rectangles, and the entities whose write was skipped
    /// because they are no longer live are returned.
    ///
    /// A set the solver finds unsatisfiable ends the pass with an error that
    /// names the entity: the solver then holds nothing for that entity, the
    /// events after it wait for the next pass, and no rectangle is written.
    /// Such a set has a required constraint in it: the solver turns none
    /// of a lower strength down.
    ///
    /// The last step, fetching and writing, is `flush`: a pass that went
    /// through is `flush` made on the engine as it stood when the last event
    /// was dealt with.
    ///
    /// That the pass returns is proved of the engine's own code only. The
    /// solver works in floating point and takes its own tableau as sound: it
    /// indexes and unwraps without a check. No bound on the numbers of a
    /// single constraint keeps its products finite, since a chain of
    /// constraints multiplies them, so sets that drive its numbers out of the
    /// finite range can make a call into it fail to return. Where `owed` or
    /// `owed_in_place` decide the result, the pass asks the solver for
    /// nothing but the values it has in store: `drained_in_place` says what
    /// is written then, which is nothing where the engine is `steady`.
    pub fn run(
        &mut self,
        entities: &Entities,
        window: &WindowSize,
        constraints: &FlaggedStorage<Constraints<T>>,
        element_boxes: &mut Storage<ElementBox>,
    ) -> (r: Result<Vec<Entity>, LayoutError>)
        requires
            old(self).wf(),
        ensures
            final(self).passed(
                old(self),
                entities,
                constraints,
                old(element_boxes),
                final(element_boxes),
                r,
            ),
            old(self).owed(constraints, r),
            old(self).owed_in_place(constraints, *window, r),
            old(self).drained_in_place(
                constraints,
                *window,
                entities,
                old(element_boxes),
                final(element_boxes),
                r,
            ),
            final(self).is_ready() ==> final(self).viewport() == Some(*window),
            r is Ok ==> final(self).rested(),
            old(self).steady(constraints, *window) ==> r is Ok && r->Ok_0@.len() == 0,
            old(self).steady(constraints, *window) ==> final(element_boxes)@ == old(
                element_boxes,
            )@,
    {
        let axis = T::axis();
        let end = constraints.event_count();
        let start = if self.reader <= end {
            self.reader
        } else {
            end
        };
        let ghost prior = |id: u32| old(self).held_for(id);
        let ghost log = constraints.events();
        let already = match self.window {
            Some(w) => w.width == window.width && w.height == window.height,
            None => false,
        };
        let taken = self.core.take();
        let mut core = match taken {
            Some(core) => core,
            None => {
                match Core::build() {
                    Some(core) => core,
                    None => {
                        self.reader = self.origin;
                        self.window = None;
                        return Err(LayoutError::SolverFailure { axis });
                    },
                }
            },
        };
        if !already {
            if !core.suggest(window) {
                self.reader = self.origin;
                self.window = None;
                return Err(LayoutError::SolverFailure { axis });
            }
            self.window = Some(*window);
        }
        let ghost entered = core;
        let mut k: usize = start;
        assert(log.subrange(start as int, k as int) =~= Seq::<ComponentEvent>::empty());
        while k < end
            invariant
                forall|j: int| start <= j < k ==> !#[trigger] old(self).breaks_at(constraints, j),
                start <= k <= end,
                core.aimed(*window),
                self.window == Some(*window),
                k == start ==> core == entered,
                old(self).quiet_until(constraints, k as int) ==> core.solver == entered.solver
                    && core.keys == entered.keys && core.vars == entered.vars,
                end == log.len(),
                log == constraints.events(),
                core.ready(),
                self.core is None,
                self.origin == old(self).origin,
                axis == T::on_axis(),
                start == old(self).start(log.len()),
                forall|id: u32| #[trigger] prior(id) == old(self).held_for(id),
                *element_boxes == *old(element_boxes),
                forall|id: u32|
                    select(core.held@, Some(id)) == expected_held(
                        prior(id),
                        constraints@,
                        log.subrange(start as int, k as int),
                        id,
                    ),
            decreases end - k,
        {
            let event = constraints.event(k);
            let id = match event {
                ComponentEvent::Inserted(id) => id,
                ComponentEvent::Modified(id) => id,
                ComponentEvent::Removed(id) => id,
            };
            let ghost seen = log.subrange(start as int, k as int);
            let ghost entry = core.held@;
            proof {
                assert(log.subrange(start as int, k + 1) =~= seen.push(event));
                assert forall|other: u32|
                    #[trigger] expected_held(prior(other), constraints@, seen.push(event), other)
                        == (if other == id {
                        settled(constraints@, event)
                    } else {
                        expected_held(prior(other), constraints@, seen, other)
                    }) by {
                    lemma_last_about_push(seen, event, other);
                }
            }
            let ghost calm = old(self).quiet_until(constraints, k as int) && old(self).held_for(
                id,
            ).len() == 0;
            proof {
                assert(log[k as int] == event);
                if calm {
                    old(self).lemma_calm(constraints, k as int, id);
                    assert(select(core.held@, Some(id)).len() == 0);
                }
            }
            let ghost aimed_before = core;
            let ghost still = old(self).quiet_until(constraints, k + 1);
            proof {
                if still {
                    assert(old(self).quiet_event(constraints, k as int));
                    assert(old(self).quiet_until(constraints, k as int));
                    assert(calm);
                    assert(asks_nothing(constraints@, event));
                }
            }
            if !core.release(Some(id)) {
                proof {
                    assert(!calm);
                    old(self).lemma_owes_nothing(
                        constraints,
                        k as int,
                        Err::<Vec<Entity>, LayoutError>(LayoutError::SolverFailure { axis }),
                    );
                }
                self.reader = self.origin;
                self.window = None;
                return Err(LayoutError::SolverFailure { axis });
            }
            proof {
                aimed_before.lemma_aimed_kept(&core, *window);
                if still {
                    assert(core.solver == entered.solver && core.keys == entered.keys && core.vars
                        == entered.vars);
                }
            }
            let removal = match event {
                ComponentEvent::Removed(_) => true,
                _ => false,
            };
            if !removal {
                match constraints.get(id) {
                    Some(set) => {
                        let ghost released = core.held@;
                        let ghost aimed_released = core;
                        let outcome = core.attach(Some(id), set);
                        proof {
                            aimed_released.lemma_aimed_kept(&core, *window);
                            if !(outcome is Failed) {
                                assert forall|other: u32| other != id implies select(
                                    core.held@,
                                    Some(other),
                                ) == expected_held(
                                    prior(other),
                                    constraints@,
                                    log.subrange(start as int, k + 1),
                                    other,
                                ) by {
                                    assert(select(core.held@, Some(other)) == select(
                                        released,
                                        Some(other),
                                    ));
                                    assert(select(released, Some(other)) == select(
                                        entry,
                                        Some(other),
                                    ));
                                }
                                assert(log[k as int] == event);
                            }
                            if outcome is Unrepresentable {
                                assert(*set == constraints@[id]);
                            }
                            if still {
                                assert(*set == constraints@[id]);
                                assert(set@.len() == 0);
                                assert(core.solver == entered.solver && core.keys == entered.keys
                                    && core.vars == entered.vars);
                            }
                            assert(*set == constraints@[id]);
                            if old(self).breaks_at(constraints, k as int) {
                                assert(outcome is Unrepresentable);
                                old(self).lemma_break_decides(constraints, k as int);
                            } else if !(outcome is Done) {
                                assert(!old(self).quiet_event(constraints, k as int));
                                old(self).lemma_owes_nothing(
                                    constraints,
                                    k as int,
                                    Err::<Vec<Entity>, LayoutError>(
                                        LayoutError::SolverFailure { axis },
                                    ),
                                );
                                old(self).lemma_owes_nothing(
                                    constraints,
                                    k as int,
                                    Err::<Vec<Entity>, LayoutError>(
                                        LayoutError::UnsatisfiableConstraints { entity: id, axis },
                                    ),
                                );
                                old(self).lemma_owes_nothing(
                                    constraints,
                                    k as int,
                                    Err::<Vec<Entity>, LayoutError>(
                                        LayoutError::UnrepresentableConstraint { entity: id, axis },
                                    ),
                                );
                            }
                        }
                        match outcome {
                            Attached::Done => {},
                            Attached::Unsatisfiable => {
                                self.core = Some(core);
                                self.reader = k + 1;
                                return Err(
                                    LayoutError::UnsatisfiableConstraints { entity: id, axis },
                                );
                            },
                            Attached::Unrepresentable => {
                                self.core = Some(core);
                                self.reader = k + 1;
                                return Err(
                                    LayoutError::UnrepresentableConstraint { entity: id, axis },
                                );
                            },
                            Attached::Failed => {
                                self.reader = self.origin;
                                self.window = None;
                                return Err(LayoutError::SolverFailure { axis });
                            },
                        }
                    },
                    None => {},
                }
            }
            k += 1;
        }
        self.core = Some(core);
        self.reader = end;
        let ghost dealt = *self;
        proof {
            assert(dealt.wf());
            if old(self).is_ready() && old(self).viewport() == Some(*window) && old(self).quiet(
                constraints,
            ) {
                assert(entered == old(self).core->Some_0);
                assert(dealt.pending() == old(self).pending());
                assert(dealt.keys() == old(self).keys());
                assert(dealt.numbers() == old(self).numbers());
            }
            assert(dealt.cursor() == log.len());
            assert forall|id: u32|
                dealt.held_for(id) == expected_held(
                    old(self).held_for(id),
                    constraints@,
                    log.subrange(old(self).start(log.len()) as int, log.len() as int),
                    id,
                ) by {
                assert(prior(id) == old(self).held_for(id));
            }
        }
        let stale = self.flush(entities, element_boxes);
        proof {
            assert(self.flushed(&dealt, entities, old(element_boxes), element_boxes, stale));
            let report = choose|report: Seq<(int, i64)>|
                {
                    let changes = #[trigger] translated(report, dealt.keys(), dealt.numbers());
                    &&& lists(report, dealt.pending())
                    &&& one_each(changes)
                    &&& in_use(changes, dealt.keys())
                    &&& element_boxes@ == written(old(element_boxes)@, entities, changes)
                    &&& stale@ == dangling(entities, changes)
                };
            let changes = translated(report, dealt.keys(), dealt.numbers());
            assert(one_each(changes) && in_use(changes, self.keys()) && element_boxes@ == written(
                old(element_boxes)@,
                entities,
                changes,
            ) && stale@ == dangling(entities, changes));
            self.lemma_went_through(
                old(self),
                &dealt,
                entities,
                constraints,
                (old(element_boxes), element_boxes),
                stale,
                changes,
            );
        }
        Ok(stale)
    }

    /// What the solver has in store for the next fetch: the numbers of the
    /// solver variables whose value changed since the last one, each with its
    /// new value.
    pub closed spec fn pending(&self) -> Map<int, i64> {
        match self.core {
            Some(core) => solver_pending(core.solver),
            None => Map::empty(),
        }
    }

    /// Whether the rectangles went from `boxes_before` to `boxes_after` by
    /// writing what this engine has in store: a report that lists exactly
    /// that, each value to the layout variable of its solver variable, one
    /// after the other, with `stale` the entities whose write was skipped
    /// because they are no longer live.
    pub open spec fn drained(
        &self,
        entities: &Entities,
        boxes_before: &Storage<ElementBox>,
        boxes_after: &Storage<ElementBox>,
        stale: Vec<Entity>,
    ) -> bool {
        exists|report: Seq<(int, i64)>|
            {
                let changes = #[trigger] translated(report, self.keys(), self.numbers());
                &&& lists(report, self.pending())
                &&& one_each(changes)
                &&& in_use(changes, self.keys())
                &&& boxes_after@ == written(boxes_before@, entities, changes)
                &&& stale@ == dangling(entities, changes)
            }
    }

    /// What a pass for the viewport `w` owes where it asks the solver for
    /// nothing but what it has in store: once the solver is built and has the
    /// values of `w` as the suggested ones, a pass over quiet events goes
    /// through and writes exactly what the solver had in store when the pass
    /// began.
    pub open spec fn drained_in_place(
        &self,
        constraints: &FlaggedStorage<Constraints<T>>,
        w: WindowSize,
        entities: &Entities,
        boxes_before: &Storage<ElementBox>,
        boxes_after: &Storage<ElementBox>,
        r: Result<Vec<Entity>, LayoutError>,
    ) -> bool {
        self.is_ready() && self.viewport() == Some(w) && self.quiet(constraints) ==> r is Ok
            && self.drained(entities, boxes_before, boxes_after, r->Ok_0)
    }

    /// What fetching and writing does: `self` is the engine `before` after
    /// it fetched what the solver had in store and wrote it into the
    /// rectangles, which went from `boxes_before` to `boxes_after`.
    ///
    /// What is written is a report that lists exactly what the solver had
    /// in store, each value to the layout variable of its solver variable, one
    /// after the other; `stale` are the entities whose write was skipped
    /// because they are no longer live. Nothing is in store afterwards. What
    /// the solver holds, the table, the cursor and the viewport stay as they
    /// were. An engine whose solver is not built yet has nothing in store.
    pub open spec fn flushed(
        &self,
        before: &LayoutSystem<T>,
        entities: &Entities,
        boxes_before: &Storage<ElementBox>,
        boxes_after: &Storage<ElementBox>,
        stale: Vec<Entity>,
    ) -> bool {
        &&& self.wf()
        &&& self.is_ready() == before.is_ready()
        &&& self.is_ready() ==> self.rested()
        &&& self.cursor() == before.cursor()
        &&& self.origin() == before.origin()
        &&& self.viewport() == before.viewport()
        &&& self.entries() == before.entries()
        &&& self.keys() == before.keys()
        &&& self.numbers() == before.numbers()
        &&& self.solver_holds() == before.solver_holds()
        &&& forall|id: u32| self.held_for(id) == before.held_for(id)
        &&& before.rested() || !before.is_ready() ==> stale@.len() == 0 && boxes_after@
            == boxes_before@
        &&& before.drained(entities, boxes_before, boxes_after, stale)
    }

    /// Once what the engine has in store is written, the rectangle of a live
    /// entity holds, for each of its variables for which the solver had a
    /// value in store, that value, cut to the range of its field.
    pub proof fn lemma_drained_shows(
        &self,
        entities: &Entities,
        boxes: (&Storage<ElementBox>, &Storage<ElementBox>),
        stale: Vec<Entity>,
        s: int,
        e: Entity,
    )
        requires
            self.wf(),
            self.drained(entities, boxes.0, boxes.1, stale),
            0 <= s < self.keys().len(),
            s < self.numbers().len(),
            self.pending().contains_key(self.numbers()[s]),
            self.keys()[s].owner() == Some(e),
            entities.is_live(e),
        ensures
            boxes.1@.contains_key(e.id()),
            shows(boxes.1@[e.id()], self.keys()[s], self.pending()[self.numbers()[s]] as int),
    {
        let keys = self.keys();
        let numbers = self.numbers();
        let n = numbers[s];
        let report = choose|report: Seq<(int, i64)>|
            {
                let changes = #[trigger] translated(report, keys, numbers);
                &&& lists(report, self.pending())
                &&& one_each(changes)
                &&& in_use(changes, keys)
                &&& boxes.1@ == written(boxes.0@, entities, changes)
                &&& stale@ == dangling(entities, changes)
            };
        let changes = translated(report, keys, numbers);
        let i = choose|i: int| 0 <= i < report.len() && (#[trigger] report[i]).0 == n;
        assert(numbers.contains(n));
        let a = lemma_translated_holds(report, keys, numbers, i);
        match self.core {
            Some(core) => {
                core.lemma_table();
                lemma_slot_unique(numbers, s);
            },
            None => {},
        }
        lemma_written_shows(boxes.0@, entities, changes, a, e);
    }

    /// Fetches the values the solver changed since they were last fetched and
    /// writes them into the rectangles. Returns the entities whose write was
    /// skipped because they are no longer live.
    pub fn flush(&mut self, entities: &Entities, element_boxes: &mut Storage<ElementBox>) -> (stale:
        Vec<Entity>)
        requires
            old(self).wf(),
        ensures
            final(self).flushed(old(self), entities, old(element_boxes), final(element_boxes), stale),
    {
        let taken = self.core.take();
        match taken {
            Some(core) => {
                let mut core = core;
                let ghost fed = core;
                let changes = core.changes();
                proof {
                    match old(self).window {
                        Some(w) => {
                            fed.lemma_aimed_kept(&core, w);
                        },
                        None => {},
                    }
                    assert(core.held_rows() =~= fed.held_rows());
                    assert(core.held@.map_values(|h: Held<T>| (h.owner, h.constraint@))
                        =~= fed.held@.map_values(|h: Held<T>| (h.owner, h.constraint@)));
                }
                let stale = publish(&changes, entities, element_boxes);
                self.core = Some(core);
                proof {
                    let report = choose|report: Seq<(int, i64)>|
                        lists(report, solver_pending(fed.solver)) && changes@
                            == #[trigger] translated(report, core.keys@, core.numbers());
                    assert(core.numbers() == fed.numbers());
                    assert(translated(report, old(self).keys(), old(self).numbers()) == changes@);
                    assert(lists(report, old(self).pending()));
                    assert(in_use(changes@, old(self).keys()));
                    assert(self.wf());
                    assert(self.rested());
                    assert(forall|id: u32| self.held_for(id) == old(self).held_for(id));
                    if old(self).rested() {
                        assert(changes@.len() == 0);
                    }
                }
                stale
            },
            None => {
                let stale: Vec<Entity> = Vec::new();
                proof {
                    let report = Seq::<(int, i64)>::empty();
                    let changes = translated(report, old(self).keys(), old(self).numbers());
                    assert(changes.len() == 0);
                    assert(lists(report, old(self).pending()));
                    assert(stale@ =~= dangling(entities, changes));
                    assert(forall|id: u32| self.held_for(id) == old(self).held_for(id));
                }
                stale
            },
        }
    }

    /// What a pass does: `self` is the engine after a pass that began with
    /// the engine `before` and ended with `r`, and the rectangles went from
    /// `boxes_before` to `boxes_after`.
    ///
    /// After a pass that went through, every event of the store has been dealt
    /// with, the solver holds for every entity what the last event about it
    /// calls for, and the rectangles are what they were with some changes
    /// written, each to a variable the solver knows and none to the same
    /// variable twice, whose stale entities are the ones returned. The changes
    /// are those of `flush`: there is an engine `dealt`, the one that has dealt
    /// with the events, of which `self` is the flushed one. A pass that was
    /// cut short because a set was found unsatisfiable names an entity whose
    /// set holds a required constraint.
    /// After a pass that was cut short no rectangle has been written.
    pub open spec fn passed(
        &self,
        before: &LayoutSystem<T>,
        entities: &Entities,
        constraints: &FlaggedStorage<Constraints<T>>,
        boxes_before: &Storage<ElementBox>,
        boxes_after: &Storage<ElementBox>,
        r: Result<Vec<Entity>, LayoutError>,
    ) -> bool {
        let log = constraints.events();
        &&& self.wf()
        &&& self.origin() == before.origin()
        &&& match r {
            Ok(stale) => {
                &&& self.is_ready()
                &&& self.cursor() == log.len()
                &&& forall|id: u32|
                    self.held_for(id) == expected_held(
                        before.held_for(id),
                        constraints@,
                        log.subrange(before.start(log.len()) as int, log.len() as int),
                        id,
                    )
                &&& exists|changes: Seq<(T, i64)>|
                    one_each(changes) && in_use(changes, self.keys()) && boxes_after@ == written(
                        boxes_before@,
                        entities,
                        changes,
                    ) && stale@ == dangling(entities, changes)
                &&& self.flushed_at(log.len(), entities, boxes_before, boxes_after, stale)
            },
            Err(e) => {
                &&& boxes_after@ == boxes_before@
                &&& match e {
                    LayoutError::SolverFailure { axis } => {
                        &&& axis == T::on_axis()
                        &&& !self.is_ready()
                        &&& self.cursor() == self.origin()
                    },
                    LayoutError::UnsatisfiableConstraints { entity, axis } => {
                        &&& axis == T::on_axis()
                        &&& self.stopped_at(before, constraints, entity)
                        &&& has_required(constraints@[entity]@)
                    },
                    LayoutError::UnrepresentableConstraint { entity, axis } => {
                        &&& axis == T::on_axis()
                        &&& self.stopped_at(before, constraints, entity)
                        &&& !all_representable(constraints@[entity]@)
                    },
                }
            },
        }
    }

    /// Whether this engine is what `flush` leaves of some engine that had
    /// read the log up to `end`.
    pub open spec fn flushed_at(
        &self,
        end: nat,
        entities: &Entities,
        boxes_before: &Storage<ElementBox>,
        boxes_after: &Storage<ElementBox>,
        stale: Vec<Entity>,
    ) -> bool {
        exists|dealt: LayoutSystem<T>|
            dealt.cursor() == end && #[trigger] self.flushed(
                &dealt,
                entities,
                boxes_before,
                boxes_after,
                stale,
            )
    }

    /// A pass went through where the engine that has dealt with every event
    /// was flushed.
    proof fn lemma_went_through(
        &self,
        before: &LayoutSystem<T>,
        dealt: &LayoutSystem<T>,
        entities: &Entities,
        constraints: &FlaggedStorage<Constraints<T>>,
        boxes: (&Storage<ElementBox>, &Storage<ElementBox>),
        stale: Vec<Entity>,
        changes: Seq<(T, i64)>,
    )
        requires
            self.wf(),
            self.is_ready(),
            self.origin() == before.origin(),
            self.cursor() == constraints.events().len(),
            dealt.cursor() == constraints.events().len(),
            self.flushed(dealt, entities, boxes.0, boxes.1, stale),
            forall|id: u32|
                dealt.held_for(id) == expected_held(
                    before.held_for(id),
                    constraints@,
                    constraints.events().subrange(
                        before.start(constraints.events().len()) as int,
                        constraints.events().len() as int,
                    ),
                    id,
                ),
            one_each(changes),
            in_use(changes, self.keys()),
            boxes.1@ == written(boxes.0@, entities, changes),
            stale@ == dangling(entities, changes),
        ensures
            self.passed(
                before,
                entities,
                constraints,
                boxes.0,
                boxes.1,
                Ok::<Vec<Entity>, LayoutError>(stale),
            ),
    {
        assert(self.flushed_at(constraints.events().len(), entities, boxes.0, boxes.1, stale));
        assert forall|id: u32|
            self.held_for(id) == expected_held(
                before.held_for(id),
                constraints@,
                constraints.events().subrange(
                    before.start(constraints.events().len()) as int,
                    constraints.events().len() as int,
                ),
                id,
            ) by {
            assert(self.held_for(id) == dealt.held_for(id));
        }
    }

    /// After a pass that went through, the engine is steady for the same
    /// viewport over any store whose log is no longer than the one it passed
    /// over: the next pass then finds nothing to do, changes no rectangle and
    /// skips no write.
    pub proof fn lemma_steady_after(
        &self,
        before: &LayoutSystem<T>,
        entities: &Entities,
        constraints: &FlaggedStorage<Constraints<T>>,
        later: &FlaggedStorage<Constraints<T>>,
        boxes: (&Storage<ElementBox>, &Storage<ElementBox>),
        stale: Vec<Entity>,
        w: WindowSize,
    )
        requires
            self.passed(
                before,
                entities,
                constraints,
                boxes.0,
                boxes.1,
                Ok::<Vec<Entity>, LayoutError>(stale),
            ),
            self.rested(),
            self.viewport() == Some(w),
            later.events().len() <= constraints.events().len(),
        ensures
            self.steady(later, w),
    {
    }

    /// A pass over a store that has logged nothing new leaves what the solver
    /// holds for every entity as it was.
    pub proof fn lemma_quiet_pass(
        &self,
        before: &LayoutSystem<T>,
        entities: &Entities,
        constraints: &FlaggedStorage<Constraints<T>>,
        boxes_before: &Storage<ElementBox>,
        boxes_after: &Storage<ElementBox>,
        stale: Vec<Entity>,
    )
        requires
            self.passed(
                before,
                entities,
                constraints,
                boxes_before,
                boxes_after,
                Ok::<Vec<Entity>, LayoutError>(stale),
            ),
            before.cursor() >= constraints.events().len(),
        ensures
            forall|id: u32| self.held_for(id) == before.held_for(id),
    {
        let log = constraints.events();
        assert(log.subrange(before.start(log.len()) as int, log.len() as int) =~= Seq::<
            ComponentEvent,
        >::empty());
    }

    /// Laying out in steps is laying out at once. Take an engine `start` and
    /// a store that is followed in two passes, `once` after the store was at
    /// `earlier` and `twice` after it has grown to `later`, and compare with
    /// one pass `batch` from `start` over `later`. If every set that changed
    /// between `earlier` and `later` was logged, the solver holds the same
    /// sets for every entity either way. The rectangles each pass began and
    /// ended with, and the stale entities it returned, play no part.
    pub proof fn lemma_incremental_equivalence(
        start: &LayoutSystem<T>,
        once: &LayoutSystem<T>,
        twice: &LayoutSystem<T>,
        batch: &LayoutSystem<T>,
        entities: &Entities,
        earlier: &FlaggedStorage<Constraints<T>>,
        later: &FlaggedStorage<Constraints<T>>,
        stepwise_boxes: (&Storage<ElementBox>, &Storage<ElementBox>, &Storage<ElementBox>),
        batch_boxes: (&Storage<ElementBox>, &Storage<ElementBox>),
        stale: (Vec<Entity>, Vec<Entity>, Vec<Entity>),
    )
        requires
            once.passed(
                start,
                entities,
                earlier,
                stepwise_boxes.0,
                stepwise_boxes.1,
                Ok::<Vec<Entity>, LayoutError>(stale.0),
            ),
            twice.passed(
                once,
                entities,
                later,
                stepwise_boxes.1,
                stepwise_boxes.2,
                Ok::<Vec<Entity>, LayoutError>(stale.1),
            ),
            batch.passed(
                start,
                entities,
                later,
                batch_boxes.0,
                batch_boxes.1,
                Ok::<Vec<Entity>, LayoutError>(stale.2),
            ),
            earlier.events().is_prefix_of(later.events()),
            start.cursor() <= earlier.events().len(),
            forall|id: u32|
                last_about(later.events().skip(earlier.events().len() as int), id) is None ==> (
                earlier@.contains_key(id) == later@.contains_key(id)) && (earlier@.contains_key(id)
                    ==> earlier@[id]@ == later@[id]@),
        ensures
            forall|id: u32| twice.held_for(id) == batch.held_for(id),
    {
        let first = earlier.events().subrange(
            start.cursor() as int,
            earlier.events().len() as int,
        );
        let second = later.events().skip(earlier.events().len() as int);
        assert(later.events().subrange(start.cursor() as int, later.events().len() as int)
            =~= first + second);
        assert(later.events().subrange(
            earlier.events().len() as int,
            later.events().len() as int,
        ) =~= second);
        assert forall|id: u32| twice.held_for(id) == batch.held_for(id) by {
            lemma_passes_compose(start.held_for(id), earlier@, later@, first, second, id);
        }
    }

    /// The state after a pass that stopped at a set of `entity`: the event
    /// that brought the set up is the last one dealt with, the solver holds
    /// nothing for `entity`, and for every other entity what the events up to
    /// there call for.
    pub open spec fn stopped_at(
        &self,
        before: &LayoutSystem<T>,
        constraints: &FlaggedStorage<Constraints<T>>,
        entity: u32,
    ) -> bool {
        let log = constraints.events();
        let start = before.start(log.len());
        &&& self.is_ready()
        &&& start < self.cursor() <= log.len()
        &&& log[self.cursor() - 1].subject() == entity
        &&& !(log[self.cursor() - 1] is Removed)
        &&& constraints@.contains_key(entity)
        &&& self.held_for(entity) == Seq::<ConstraintView<T>>::empty()
        &&& forall|id: u32|
            id != entity ==> self.held_for(id) == expected_held(
                before.held_for(id),
                constraints@,
                log.subrange(start as int, self.cursor() as int),
                id,
            )
    }
}

} // verus!

//! Sizing an entity's rectangle to the measured size of its content.
//!
//! For every marked entity whose content has been measured, the stage keeps
//! one weak equality in the entity's constraint set on each axis that pins its
//! extent to the content's. A stale one is replaced; one that is up to date is
//! left alone, so that the store logs no change and the layout engine does no
//! work.

use vstd::prelude::*;
use crate::constraint::{
    ConstraintView,
    Constraints,
    Expression,
    ExpressionView,
    LinearConstraint,
    LinearTerm,
    Relation,
    Strength,
};
use crate::entity::{Entities, Entity};
use crate::geometry::ContentSize;
use crate::storage::{FlaggedStorage, Storage};
use crate::variable::{AxisVariable, VariableX, VariableY};

verus! {

/// Marks an entity whose rectangle follows the size of its content.
#[derive(Clone, Copy, Debug, PartialEq, Eq, Structural)]
pub struct Shrinkwrap;

/// The weak equality `v == extent`.
pub open spec fn fit_constraint<T>(v: T, extent: u32) -> ConstraintView<T> {
    ConstraintView::pin(v, extent as int).weighted(Strength::Weak)
}

/// Whether `c` is a weak equality that pins `v` to some constant.
pub open spec fn is_fit<T>(c: ConstraintView<T>, v: T) -> bool {
    &&& c.lhs == ExpressionView::variable(v)
    &&& c.relation == Relation::Equal
    &&& c.rhs.terms.len() == 0
    &&& c.strength == Strength::Weak
}

/// The constraints of `set` that are no weak pin of `v`, in their order.
pub open spec fn stripped<T>(set: Seq<ConstraintView<T>>, v: T) -> Seq<ConstraintView<T>>
    decreases set.len(),
{
    if set.len() == 0 {
        Seq::empty()
    } else {
        let rest = stripped(set.drop_last(), v);
        if is_fit(set.last(), v) {
            rest
        } else {
            rest.push(set.last())
        }
    }
}

/// Whether the set is wrapped to `extent` as it stands: it holds the weak
/// pin of `v` to `extent`, wherever, and no other weak pin of `v`.
pub open spec fn fitted<T>(set: Seq<ConstraintView<T>>, v: T, extent: u32) -> bool {
    set.contains(fit_constraint(v, extent)) && fits(set, v) == 1
}

/// The set wrapped to `extent`. A set that is wrapped to it as it stands
/// stays as it is. From any other every weak pin of `v` is taken out and the
/// one to `extent` is put at the end.
pub open spec fn wrapped<T>(set: Seq<ConstraintView<T>>, v: T, extent: u32) -> Seq<
    ConstraintView<T>,
> {
    if fitted(set, v, extent) {
        set
    } else {
        stripped(set, v).push(fit_constraint(v, extent))
    }
}

/// The number of weak pins of `v` in the set.
pub open spec fn fits<T>(set: Seq<ConstraintView<T>>, v: T) -> nat
    decreases set.len(),
{
    if set.len() == 0 {
        0
    } else {
        fits(set.drop_last(), v) + (if is_fit(set.last(), v) {
            1nat
        } else {
            0nat
        })
    }
}

proof fn lemma_stripped_push<T>(set: Seq<ConstraintView<T>>, c: ConstraintView<T>, v: T)
    ensures
        stripped(set.push(c), v) == (if is_fit(c, v) {
            stripped(set, v)
        } else {
            stripped(set, v).push(c)
        }),
        fits(set.push(c), v) == fits(set, v) + (if is_fit(c, v) {
            1nat
        } else {
            0nat
        }),
{
    assert(set.push(c).drop_last() =~= set);
}

proof fn lemma_stripped_clean<T>(set: Seq<ConstraintView<T>>, v: T)
    ensures
        stripped(stripped(set, v), v) == stripped(set, v),
        fits(stripped(set, v), v) == 0,
    decreases set.len(),
{
    if set.len() > 0 {
        lemma_stripped_clean(set.drop_last(), v);
        if !is_fit(set.last(), v) {
            lemma_stripped_push(stripped(set.drop_last(), v), set.last(), v);
        }
    }
}

proof fn lemma_is_fit<T>(v: T, extent: u32)
    ensures
        is_fit(fit_constraint(v, extent), v),
{
    assert(fit_constraint(v, extent).rhs.terms.len() == 0);
}

proof fn lemma_no_fit<T>(set: Seq<ConstraintView<T>>, v: T)
    requires
        fits(set, v) == 0,
    ensures
        forall|i: int| 0 <= i < set.len() ==> !is_fit(#[trigger] set[i], v),
    decreases set.len(),
{
    if set.len() > 0 {
        lemma_no_fit(set.drop_last(), v);
        assert forall|i: int| 0 <= i < set.len() implies !is_fit(#[trigger] set[i], v) by {
            if i < set.len() - 1 {
                assert(set.drop_last()[i] == set[i]);
            }
        }
    }
}

/// A set with one weak pin of `v` holds no two different ones.
proof fn lemma_single_fit<T>(
    set: Seq<ConstraintView<T>>,
    v: T,
    a: ConstraintView<T>,
    b: ConstraintView<T>,
)
    requires
        fits(set, v) == 1,
        set.contains(a),
        set.contains(b),
        is_fit(a, v),
        is_fit(b, v),
    ensures
        a == b,
    decreases set.len(),
{
    let i = choose|i: int| 0 <= i < set.len() && set[i] == a;
    let j = choose|j: int| 0 <= j < set.len() && set[j] == b;
    let shorter = set.drop_last();
    if is_fit(set.last(), v) {
        lemma_no_fit(shorter, v);
        if i < set.len() - 1 {
            assert(shorter[i] == a);
        }
        if j < set.len() - 1 {
            assert(shorter[j] == b);
        }
    } else {
        assert(shorter[i] == a);
        assert(shorter[j] == b);
        lemma_single_fit(shorter, v, a, b);
    }
}

/// A set that is not wrapped to `extent` as it stands is changed by wrapping
/// it.
pub proof fn lemma_unfitted_changes<T>(set: Seq<ConstraintView<T>>, v: T, extent: u32)
    ensures
        wrapped(set, v, extent) == set <==> fitted(set, v, extent),
{
    let pin = fit_constraint(v, extent);
    let made = stripped(set, v).push(pin);
    lemma_is_fit(v, extent);
    lemma_stripped_clean(set, v);
    lemma_stripped_push(stripped(set, v), pin, v);
    if !fitted(set, v, extent) && made == set {
        assert(set[set.len() - 1] == pin);
        assert(set.contains(pin));
        assert(fits(made, v) == 1);
    }
}

/// Wrapping is idempotent and leaves exactly one weak pin: a set that has been
/// wrapped is unchanged by wrapping it again to the same extent, and holds the
/// pin to that extent once and no other weak pin of the variable.
pub proof fn lemma_wrapped_once<T>(set: Seq<ConstraintView<T>>, v: T, extent: u32)
    ensures
        wrapped(wrapped(set, v, extent), v, extent) == wrapped(set, v, extent),
        fits(wrapped(set, v, extent), v) == 1,
        wrapped(set, v, extent).contains(fit_constraint(v, extent)),
        fitted(wrapped(set, v, extent), v, extent),
{
    let pin = fit_constraint(v, extent);
    lemma_is_fit(v, extent);
    lemma_stripped_clean(set, v);
    lemma_stripped_push(stripped(set, v), pin, v);
    if !fitted(set, v, extent) {
        let made = stripped(set, v).push(pin);
        assert(made[made.len() - 1] == pin);
        assert(made.contains(pin));
    }
}

/// Wrapping to a new extent forgets the old one: what is left is the set
/// without any weak pin of the variable, and the pin to the new extent at its
/// end.
pub proof fn lemma_wrapped_replaces<T>(set: Seq<ConstraintView<T>>, v: T, stale: u32, extent: u32)
    requires
        stale != extent,
    ensures
        wrapped(wrapped(set, v, stale), v, extent) == stripped(set, v).push(
            fit_constraint(v, extent),
        ),
{
    let old_pin = fit_constraint(v, stale);
    let new_pin = fit_constraint(v, extent);
    let once = wrapped(set, v, stale);
    lemma_is_fit(v, stale);
    lemma_is_fit(v, extent);
    lemma_wrapped_once(set, v, stale);
    lemma_stripped_clean(set, v);
    lemma_stripped_push(stripped(set, v), old_pin, v);
    assert(old_pin.rhs.constant != new_pin.rhs.constant);
    if once.contains(new_pin) {
        lemma_single_fit(once, v, old_pin, new_pin);
    }
    assert(!fitted(once, v, extent));
    if fitted(set, v, stale) {
        assert(once == set);
    } else {
        assert(stripped(once, v) == stripped(set, v));
    }
}

/// Whether `c` is a weak equality that pins `v` to some constant.
fn pins<T: AxisVariable>(c: &LinearConstraint<T>, v: &T) -> (b: bool)
    ensures
        b == is_fit(c@, *v),
{
    let shape = c.lhs.terms.len() == 1 && c.lhs.constant == 0 && c.rhs.terms.len() == 0;
    if !shape {
        assert(c@.lhs.terms.len() == c.lhs.terms.len());
        assert(ExpressionView::variable(*v).terms.len() == 1);
        return false;
    }
    let term = c.lhs.terms[0];
    let same = term.coefficient == 1 && term.variable.same(v);
    proof {
        let want = ExpressionView::variable(*v);
        assert(want.terms[0] == LinearTerm { variable: *v, coefficient: 1 });
        if same {
            assert(c@.lhs.terms =~= want.terms);
        } else {
            assert(c@.lhs.terms[0] != want.terms[0]);
        }
    }
    let relation = match c.relation {
        Relation::Equal => true,
        _ => false,
    };
    let weak = match c.strength {
        Strength::Weak => true,
        _ => false,
    };
    same && relation && weak
}

/// The set that results from wrapping `set`.
fn wrap<T: AxisVariable>(set: &Constraints<T>, v: T, extent: u32) -> (r: Constraints<T>)
    ensures
        r@ == wrapped(set@, v, extent),
{
    let pin = Expression::from_variable(v).is_constant(extent as i64).with_strength(Strength::Weak);
    assert(pin@ == fit_constraint(v, extent));
    let mut out: Vec<LinearConstraint<T>> = Vec::new();
    let ghost mut built: Seq<ConstraintView<T>> = Seq::empty();
    let mut pins_found: usize = 0;
    let mut found = false;
    let mut i: usize = 0;
    while i < set.0.len()
        invariant
            0 <= i <= set.0.len(),
            pin@ == fit_constraint(v, extent),
            built == stripped(set@.take(i as int), v),
            out.len() == built.len(),
            forall|j: int| 0 <= j < out.len() ==> out@[j]@ == built[j],
            pins_found == fits(set@.take(i as int), v),
            pins_found <= i,
            found == set@.take(i as int).contains(pin@),
        decreases set.0.len() - i,
    {
        proof {
            let head = set@.take(i as int);
            let next = set@.take(i + 1);
            assert(next =~= head.push(set@[i as int]));
            lemma_stripped_push(head, set@[i as int], v);
            assert(next.contains(pin@) <==> head.contains(pin@) || set@[i as int] == pin@) by {
                if head.contains(pin@) {
                    let q = choose|q: int| 0 <= q < head.len() && head[q] == pin@;
                    assert(next[q] == pin@);
                }
                if set@[i as int] == pin@ {
                    assert(next[i as int] == pin@);
                }
                if next.contains(pin@) {
                    let q = choose|q: int| 0 <= q < next.len() && next[q] == pin@;
                    if q < i {
                        assert(head[q] == pin@);
                    }
                }
            }
        }
        if set.0[i].equals(&pin) {
            found = true;
        }
        if pins(&set.0[i], &v) {
            pins_found += 1;
        } else {
            out.push(set.0[i].duplicate());
            proof {
                built = built.push(set@[i as int]);
            }
        }
        i += 1;
    }
    assert(set@.take(i as int) =~= set@);
    if found && pins_found == 1 {
        return set.duplicate();
    }
    out.push(pin);
    let r = Constraints(out);
    assert(r@ =~= wrapped(set@, v, extent));
    r
}

/// What wrapping makes of the set of `id`: the variable and extent it is
/// wrapped to. `None` where `id` takes no part: it is not marked, no live
/// entity has that index, its content has not been measured, or the axis has
/// no extents.
pub open spec fn wrap_target<T: AxisVariable>(
    entities: &Entities,
    markers: Map<u32, Shrinkwrap>,
    sizes: Map<u32, ContentSize>,
    id: u32,
) -> Option<(T, u32)> {
    if markers.contains_key(id) && sizes.contains_key(id) {
        match entities.occupant(id) {
            Some(e) => T::fitted(e, sizes[id]),
            None => None,
        }
    } else {
        None
    }
}

/// The variable the set of `id` is wrapped on, if `id` takes part.
pub open spec fn wrap_variable<T: AxisVariable>(
    entities: &Entities,
    markers: Map<u32, Shrinkwrap>,
    sizes: Map<u32, ContentSize>,
    id: u32,
) -> Option<T> {
    match wrap_target::<T>(entities, markers, sizes, id) {
        Some((v, _)) => Some(v),
        None => None,
    }
}

/// The set held for `id`, or the empty set.
pub open spec fn set_of<T>(records: Map<u32, Constraints<T>>, id: u32) -> Seq<ConstraintView<T>> {
    if records.contains_key(id) {
        records[id]@
    } else {
        Seq::empty()
    }
}

/// Whether wrapping changes what the store holds for `id`.
pub open spec fn rewraps<T: AxisVariable>(
    entities: &Entities,
    markers: Map<u32, Shrinkwrap>,
    sizes: Map<u32, ContentSize>,
    records: Map<u32, Constraints<T>>,
    id: u32,
) -> bool {
    match wrap_target::<T>(entities, markers, sizes, id) {
        Some((v, extent)) => !records.contains_key(id) || wrapped(records[id]@, v, extent)
            != records[id]@,
        None => false,
    }
}

/// Whether a marked, live entity has index `id` and its content has not been
/// measured.
pub open spec fn unmeasured(
    entities: &Entities,
    markers: Map<u32, Shrinkwrap>,
    sizes: Map<u32, ContentSize>,
    id: u32,
) -> bool {
    markers.contains_key(id) && entities.occupant(id) is Some && !sizes.contains_key(id)
}

/// Wraps the sets of one axis: every marked live entity with measured content
/// gets its set wrapped to the content's extent. A set that is wrapped already
/// is not written, so the store logs nothing for it. Returns the marked live
/// entities that have no measurement yet, which are left for a later frame.
pub fn shrink_axis<T: AxisVariable>(
    entities: &Entities,
    markers: &Storage<Shrinkwrap>,
    content_sizes: &Storage<ContentSize>,
    store: &mut FlaggedStorage<Constraints<T>>,
) -> (missing: Vec<Entity>)
    ensures
        forall|id: u32|
            match #[trigger] wrap_target::<T>(entities, markers@, content_sizes@, id) {
                Some((v, extent)) => final(store)@.contains_key(id) && final(store)@[id]@
                    == wrapped(set_of(old(store)@, id), v, extent),
                None => final(store)@.contains_key(id) == old(store)@.contains_key(id) && (
                old(store)@.contains_key(id) ==> final(store)@[id] == old(store)@[id]),
            },
        forall|id: u32|
            !(#[trigger] rewraps::<T>(entities, markers@, content_sizes@, old(store)@, id)) ==> (
            final(store)@.contains_key(id) == old(store)@.contains_key(id)) && (old(
                store,
            )@.contains_key(id) ==> final(store)@[id] == old(store)@[id]),
        old(store).events().is_prefix_of(final(store).events()),
        forall|j: int|
            old(store).events().len() <= j < final(store).events().len() ==> {
                let id = (#[trigger] final(store).events()[j]).subject();
                &&& rewraps::<T>(entities, markers@, content_sizes@, old(store)@, id)
                &&& final(store).events()[j] == FlaggedStorage::<Constraints<T>>::insert_event(
                    old(store)@.dom(),
                    id,
                )
            },
        forall|id: u32|
            rewraps::<T>(entities, markers@, content_sizes@, old(store)@, id) ==> exists|j: int|
                old(store).events().len() <= j < final(store).events().len() && (
                #[trigger] final(store).events()[j]).subject() == id,
        forall|i: int, j: int|
            old(store).events().len() <= i < j < final(store).events().len() ==> (
            #[trigger] final(store).events()[i]).subject() < (
            #[trigger] final(store).events()[j]).subject(),
        forall|e: Entity| #[trigger]
            missing@.contains(e) <==> entities.is_live(e) && unmeasured(
                entities,
                markers@,
                content_sizes@,
                e.id(),
            ),
        forall|i: int, j: int| 0 <= i < j < missing.len() ==> missing[i].id() < missing[j].id(),
{
    let mut missing: Vec<Entity> = Vec::new();
    let ids = markers.ids();
    let ghost first = old(store).events().len();
    let mut k: usize = 0;
    while k < ids.len()
        invariant
            0 <= k <= ids.len(),
            first == old(store).events().len(),
            forall|i: int, j: int| 0 <= i < j < ids.len() ==> ids[i] < ids[j],
            forall|id: u32| ids@.contains(id) <==> markers@.contains_key(id),
            forall|i: int, j: int| 0 <= i < j < missing.len() ==> missing[i].id() < missing[j].id(),
            forall|i: int, j: int|
                0 <= i < missing.len() && k <= j < ids.len() ==> missing[i].id() < ids[j],
            forall|i: int, j: int|
                first <= i < j < store.events().len() ==> (#[trigger] store.events()[i]).subject()
                    < (#[trigger] store.events()[j]).subject(),
            forall|i: int, j: int|
                first <= i < store.events().len() && k <= j < ids.len() ==> (
                #[trigger] store.events()[i]).subject() < #[trigger] ids[j],
            forall|id: u32|
                if ids@.take(k as int).contains(id) {
                    match #[trigger] wrap_target::<T>(entities, markers@, content_sizes@, id) {
                        Some((v, extent)) => store@.contains_key(id) && store@[id]@ == wrapped(
                            set_of(old(store)@, id),
                            v,
                            extent,
                        ),
                        None => store@.contains_key(id) == old(store)@.contains_key(id) && (old(
                            store,
                        )@.contains_key(id) ==> store@[id] == old(store)@[id]),
                    }
                } else {
                    store@.contains_key(id) == old(store)@.contains_key(id) && (old(
                        store,
                    )@.contains_key(id) ==> store@[id] == old(store)@[id])
                },
            forall|id: u32|
                !(#[trigger] rewraps::<T>(entities, markers@, content_sizes@, old(store)@, id))
                    ==> (store@.contains_key(id) == old(store)@.contains_key(id)) && (old(
                    store,
                )@.contains_key(id) ==> store@[id] == old(store)@[id]),
            old(store).events().is_prefix_of(store.events()),
            forall|j: int|
                first <= j < store.events().len() ==> {
                    let id = (#[trigger] store.events()[j]).subject();
                    &&& ids@.take(k as int).contains(id)
                    &&& rewraps::<T>(entities, markers@, content_sizes@, old(store)@, id)
                    &&& store.events()[j] == FlaggedStorage::<Constraints<T>>::insert_event(
                        old(store)@.dom(),
                        id,
                    )
                },
            forall|id: u32|
                ids@.take(k as int).contains(id) && rewraps::<T>(
                    entities,
                    markers@,
                    content_sizes@,
                    old(store)@,
                    id,
                ) ==> exists|j: int|
                    first <= j < store.events().len() && (#[trigger] store.events()[j]).subject()
                        == id,
            forall|e: Entity| #[trigger]
                missing@.contains(e) <==> ids@.take(k as int).contains(e.id()) && entities.is_live(
                    e,
                ) && unmeasured(entities, markers@, content_sizes@, e.id()),
        decreases ids.len() - k,
    {
        let id = ids[k];
        let ghost head = ids@.take(k as int);
        let ghost next = ids@.take(k + 1);
        let ghost log = store.events();
        let ghost missed = missing@;
        proof {
            assert(next == head.push(id));
            assert(ids@.contains(id));
            assert(!head.contains(id)) by {
                if head.contains(id) {
                    let j = choose|j: int| 0 <= j < head.len() && head[j] == id;
                    assert(ids[j] < ids[k as int]);
                }
            }
            assert forall|x: u32| next.contains(x) <==> head.contains(x) || x == id by {
                if head.contains(x) {
                    let j = choose|j: int| 0 <= j < head.len() && head[j] == x;
                    assert(next[j] == x);
                }
                if x == id {
                    assert(next[k as int] == x);
                }
                if next.contains(x) {
                    let j = choose|j: int| 0 <= j < next.len() && next[j] == x;
                    if j < k {
                        assert(head[j] == x);
                    }
                }
            }
            entities.lemma_occupant_id(id);
        }
        match entities.entity(id) {
            Some(ent) => {
                match content_sizes.get(id) {
                    Some(size) => {
                        match T::fit(ent, size) {
                            Some((v, extent)) => {
                                let fresh = match store.get(id) {
                                    Some(set) => {
                                        let fresh = wrap(set, v, extent);
                                        if fresh.equals(set) {
                                            None
                                        } else {
                                            Some(fresh)
                                        }
                                    },
                                    None => {
                                        let nothing = Constraints::new();
                                        Some(wrap(&nothing, v, extent))
                                    },
                                };
                                match fresh {
                                    Some(set) => {
                                        store.insert(id, set);
                                        proof {
                                            assert(store.events()[log.len() as int].subject()
                                                == id);
                                        }
                                    },
                                    None => {},
                                }
                            },
                            None => {},
                        }
                    },
                    None => {
                        missing.push(ent);
                        proof {
                            assert(missing@[missed.len() as int] == ent);
                        }
                    },
                }
            },
            None => {},
        }
        proof {
            assert forall|j: int| first <= j < store.events().len() implies {
                let x = (#[trigger] store.events()[j]).subject();
                &&& next.contains(x)
                &&& rewraps::<T>(entities, markers@, content_sizes@, old(store)@, x)
                &&& store.events()[j] == FlaggedStorage::<Constraints<T>>::insert_event(old(store)@.dom(), x)
            } by {
                if j < log.len() {
                    assert(store.events()[j] == log[j]);
                }
            }
            assert forall|x: u32|
                next.contains(x) && rewraps::<T>(
                    entities,
                    markers@,
                    content_sizes@,
                    old(store)@,
                    x,
                ) implies exists|j: int|
                first <= j < store.events().len() && (#[trigger] store.events()[j]).subject()
                    == x by {
                if x != id {
                    let j = choose|j: int|
                        first <= j < log.len() && (#[trigger] log[j]).subject() == x;
                    assert(store.events()[j] == log[j]);
                } else {
                    assert(store.events()[log.len() as int].subject() == id);
                }
            }
            let pushed = entities.occupant(id) is Some && !content_sizes@.contains_key(id);
            assert(missing@ == if pushed {
                missed.push(entities.occupant(id)->0)
            } else {
                missed
            });
            assert forall|e: Entity| #[trigger]
                missing@.contains(e) <==> next.contains(e.id()) && entities.is_live(e)
                    && unmeasured(entities, markers@, content_sizes@, e.id()) by {
                if missing@.contains(e) {
                    let j = choose|j: int| 0 <= j < missing@.len() && missing@[j] == e;
                    if j < missed.len() {
                        assert(missed[j] == e);
                        assert(missed.contains(e));
                        assert(head.contains(e.id()));
                    } else {
                        assert(pushed);
                        assert(e == entities.occupant(id)->0);
                        assert(e.id() == id);
                    }
                }
                if next.contains(e.id()) && entities.is_live(e) && unmeasured(
                    entities,
                    markers@,
                    content_sizes@,
                    e.id(),
                ) {
                    if e.id() != id {
                        assert(missed.contains(e));
                        let j = choose|j: int| 0 <= j < missed.len() && missed[j] == e;
                        assert(missing@[j] == e);
                    } else {
                        assert(missing@[missed.len() as int] == e);
                    }
                }
            }
        }
        k += 1;
    }
    proof {
        assert(ids@.take(k as int) =~= ids@);
        assert forall|e: Entity| #[trigger]
            missing@.contains(e) <==> entities.is_live(e) && unmeasured(
                entities,
                markers@,
                content_sizes@,
                e.id(),
            ) by {
            if entities.is_live(e) && unmeasured(entities, markers@, content_sizes@, e.id()) {
                assert(ids@.contains(e.id()));
            }
        }
    }
    missing
}

/// The stage that lets rectangles follow the size of their content.
pub struct ShrinkwrapSystem;

impl ShrinkwrapSystem {
    pub fn new() -> ShrinkwrapSystem {
        ShrinkwrapSystem
    }

    /// Wraps the horizontal and the vertical sets of every marked live entity
    /// with measured content. Returns the marked live entities that have no
    /// measurement yet.
    pub fn run(
        &mut self,
        entities: &Entities,
        markers: &Storage<Shrinkwrap>,
        content_sizes: &Storage<ContentSize>,
        x_cs: &mut FlaggedStorage<Constraints<VariableX>>,
        y_cs: &mut FlaggedStorage<Constraints<VariableY>>,
    ) -> (missing: Vec<Entity>)
        ensures
            axis_wrapped(entities, markers@, content_sizes@, old(x_cs), final(x_cs)),
            axis_wrapped(entities, markers@, content_sizes@, old(y_cs), final(y_cs)),
            forall|e: Entity| #[trigger]
                missing@.contains(e) <==> entities.is_live(e) && unmeasured(
                    entities,
                    markers@,
                    content_sizes@,
                    e.id(),
                ),
            forall|i: int, j: int| 0 <= i < j < missing.len() ==> missing[i].id() < missing[j].id(),
    {
        let missing = shrink_axis(entities, markers, content_sizes, x_cs);
        let _ = shrink_axis(entities, markers, content_sizes, y_cs);
        missing
    }
}

/// The relation between a store before and after its sets were wrapped: what
/// each index holds afterwards, that a record wrapping does not change is
/// left as it is, and what the store logged, which is one event for each set
/// that changed, in ascending order of the indices.
pub open spec fn axis_wrapped<T: AxisVariable>(
    entities: &Entities,
    markers: Map<u32, Shrinkwrap>,
    sizes: Map<u32, ContentSize>,
    before: &FlaggedStorage<Constraints<T>>,
    after: &FlaggedStorage<Constraints<T>>,
) -> bool {
    &&& forall|id: u32|
        match #[trigger] wrap_target::<T>(entities, markers, sizes, id) {
            Some((v, extent)) => after@.contains_key(id) && after@[id]@ == wrapped(
                set_of(before@, id),
                v,
                extent,
            ),
            None => after@.contains_key(id) == before@.contains_key(id) && (before@.contains_key(
                id,
            ) ==> after@[id] == before@[id]),
        }
    &&& forall|id: u32|
        !(#[trigger] rewraps::<T>(entities, markers, sizes, before@, id)) ==> (after@.contains_key(
            id,
        ) == before@.contains_key(id)) && (before@.contains_key(id) ==> after@[id] == before@[id])
    &&& before.events().is_prefix_of(after.events())
    &&& forall|j: int|
        before.events().len() <= j < after.events().len() ==> {
            let id = (#[trigger] after.events()[j]).subject();
            &&& rewraps::<T>(entities, markers, sizes, before@, id)
            &&& after.events()[j] == FlaggedStorage::<Constraints<T>>::insert_event(before@.dom(), id)
        }
    &&& forall|id: u32|
        rewraps::<T>(entities, markers, sizes, before@, id) ==> exists|j: int|
            before.events().len() <= j < after.events().len() && (#[trigger] after.events()[j]).subject()
                == id
    &&& forall|i: int, j: int|
        before.events().len() <= i < j < after.events().len() ==> (
        #[trigger] after.events()[i]).subject() < (#[trigger] after.events()[j]).subject()
}

/// A set that holds the pin to the content's extent, wherever, and no other
/// weak pin of the variable, is left alone: the store is not written and logs
/// nothing for it.
pub proof fn lemma_fitted_rests<T: AxisVariable>(
    entities: &Entities,
    markers: Map<u32, Shrinkwrap>,
    sizes: Map<u32, ContentSize>,
    records: Map<u32, Constraints<T>>,
    id: u32,
)
    requires
        records.contains_key(id),
        wrap_target::<T>(entities, markers, sizes, id) matches Some((v, extent)) && fitted(
            records[id]@,
            v,
            extent,
        ),
    ensures
        !rewraps::<T>(entities, markers, sizes, records, id),
{
}

/// Wrapping a store twice is the same as wrapping it once: with the
/// markers, the measurements and the entities unchanged, a second pass
/// leaves every record as it is, so no constraint is duplicated, and it logs
/// no event. The layout engine is handed the very store it would have been
/// handed after one pass, and finds nothing new in it if it has dealt with
/// that one.
pub proof fn lemma_second_pass_changes_nothing<T: AxisVariable>(
    entities: &Entities,
    markers: Map<u32, Shrinkwrap>,
    sizes: Map<u32, ContentSize>,
    before: &FlaggedStorage<Constraints<T>>,
    once: &FlaggedStorage<Constraints<T>>,
    twice: &FlaggedStorage<Constraints<T>>,
)
    requires
        axis_wrapped(entities, markers, sizes, before, once),
        axis_wrapped(entities, markers, sizes, once, twice),
    ensures
        twice.events() == once.events(),
        twice@ == once@,
        forall|id: u32| twice@.contains_key(id) == once@.contains_key(id),
        forall|id: u32| #[trigger] once@.contains_key(id) ==> twice@[id]@ == once@[id]@,
        forall|id: u32, v: T|
            wrap_variable::<T>(entities, markers, sizes, id) == Some(v) ==> #[trigger] fits(
                twice@[id]@,
                v,
            ) == 1,
{
    assert forall|id: u32| !rewraps::<T>(entities, markers, sizes, once@, id) by {
        match wrap_target::<T>(entities, markers, sizes, id) {
            Some((v, extent)) => {
                lemma_wrapped_once(set_of(before@, id), v, extent);
            },
            None => {},
        }
    }
    if twice.events().len() > once.events().len() {
        let j = once.events().len() as int;
        let id = twice.events()[j].subject();
        assert(rewraps::<T>(entities, markers, sizes, once@, id));
    }
    assert(twice.events() =~= once.events());
    assert forall|id: u32|
        #[trigger] twice@.dom().contains(id) == once@.dom().contains(id) && (once@.dom().contains(
            id,
        ) ==> twice@[id] == once@[id]) by {
        assert(!rewraps::<T>(entities, markers, sizes, once@, id));
    }
    assert(twice@.dom() =~= once@.dom());
    assert(twice@ =~= once@);
    assert forall|id: u32|
        twice@.contains_key(id) == once@.contains_key(id) && (once@.contains_key(id)
            ==> twice@[id]@ == once@[id]@) by {
        match wrap_target::<T>(entities, markers, sizes, id) {
            Some((v, extent)) => {
                lemma_wrapped_once(set_of(before@, id), v, extent);
            },
            None => {},
        }
    }
    assert forall|id: u32, v: T|
        wrap_variable::<T>(entities, markers, sizes, id) == Some(v) implies #[trigger] fits(
            twice@[id]@,
            v,
        ) == 1 by {
        match wrap_target::<T>(entities, markers, sizes, id) {
            Some((w, extent)) => {
                lemma_wrapped_once(set_of(before@, id), w, extent);
            },
            None => {},
        }
    }
}

} // verus!

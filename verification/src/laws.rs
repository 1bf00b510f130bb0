//! Laws of the engine, stated and proved over the mathematical models that
//! the firing policies' contracts use.

use vstd::prelude::*;

verus! {

use crate::machine::{
    ModelType, SpecGuard, SpecMachine, SpecTrans, SpecTransaction, cap_slot, clamped_seq,
    count_positive, delta_at, elementary_fire_post, init_slot, machine_fire_post, model_type_of,
    out_seq, petri_fire_post, place_initial, slot_sum, spec_capacity, spec_inhibited, spec_initial,
    spec_ok, spec_overflow, spec_underflow, workflow_fire_post, zero_row,
};
use crate::model::{SpecModel, model_wf, place_wf};

/// A transition with no guards fired against an entirely unbounded capacity
/// vector (every slot 0) never reports overflow and is never inhibited,
/// whatever the multiplier: it is accepted exactly when no slot underflows.
pub proof fn lemma_unbounded_never_overflows(
    capacity: Seq<i32>,
    state: Seq<i32>,
    t: SpecTrans,
    multiple: i32,
    r: SpecTransaction,
)
    requires
        t.guards.len() == 0,
        forall|i: int| 0 <= i < state.len() ==> #[trigger] capacity[i] == 0,
        petri_fire_post(capacity, state, t, multiple, r),
    ensures
        !r.overflow,
        !r.inhibited,
        r.ok == !r.underflow,
{
    if spec_overflow(capacity, state, t.delta, multiple) {
        let i = choose|i: int|
            0 <= i < state.len() && 0 <= #[trigger] slot_sum(state, t.delta, multiple, i)
                && capacity[i] > 0 && capacity[i] < slot_sum(state, t.delta, multiple, i);
        assert(capacity[i] == 0);
    }
}

/// Compiling a model with no places yields an empty initial marking.
pub proof fn lemma_empty_model_initial(m: SpecModel)
    requires
        m.places.len() == 0,
    ensures
        spec_initial(model_type_of(m.model_type), m, m.places.len() as int).len() == 0,
{
    assert(spec_initial(model_type_of(m.model_type), m, 0).len() == 0);
}

proof fn lemma_offsets_cover(m: SpecModel, j: int)
    requires
        model_wf(m),
        0 <= j < m.places.len(),
    ensures
        exists|k: int| 0 <= k < m.places.len() && (#[trigger] m.places[k]).offset == j,
{
    let n = m.places.len() as int;
    let offs = Seq::new(n as nat, |k: int| m.places[k].offset as int);
    assert(offs.no_duplicates()) by {
        assert forall|x: int, y: int| 0 <= x < y < n implies offs[x] != offs[y] by {
            assert(m.places[x].offset != m.places[y].offset);
        }
    }
    offs.unique_seq_to_set();
    let rng = vstd::set_lib::set_int_range(0, n);
    vstd::set_lib::lemma_int_range(0, n);
    assert(offs.to_set().subset_of(rng)) by {
        assert forall|x: int| offs.to_set().contains(x) implies rng.contains(x) by {
            let k = choose|k: int| 0 <= k < offs.len() && offs[k] == x;
            assert(place_wf(m, m.places[k]));
        }
    }
    if forall|k: int| 0 <= k < n ==> (#[trigger] m.places[k]).offset != j {
        assert(!offs.to_set().contains(j)) by {
            if offs.to_set().contains(j) {
                let k = choose|k: int| 0 <= k < offs.len() && offs[k] == j;
                assert(m.places[k].offset == j);
            }
        }
        offs.to_set().lemma_subset_not_in_lt(rng, j);
    }
}

proof fn lemma_fill_at(mt: ModelType, m: SpecModel, k: int, i: int)
    requires
        model_wf(m),
        0 <= k < i <= m.places.len(),
    ensures
        spec_capacity(mt, m, i)[m.places[k].offset as int] == cap_slot(mt, m.places[k]),
        spec_initial(mt, m, i)[m.places[k].offset as int] == init_slot(
            mt,
            place_initial(m.places[k]),
        ),
    decreases i,
{
    assert(place_wf(m, m.places[k]));
    if i == k + 1 {
        lemma_fill_len(mt, m, k);
    } else {
        lemma_fill_at(mt, m, k, i - 1);
        assert(m.places[i - 1].offset != m.places[k].offset);
        lemma_fill_len(mt, m, i - 1);
        assert(place_wf(m, m.places[i - 1]));
    }
}

proof fn lemma_fill_len(mt: ModelType, m: SpecModel, i: int)
    requires
        model_wf(m),
        0 <= i <= m.places.len(),
    ensures
        spec_capacity(mt, m, i).len() == m.places.len(),
        spec_initial(mt, m, i).len() == m.places.len(),
    decreases i,
{
    if i == 0 {
        assert(spec_capacity(mt, m, 0) == zero_row(m.places.len()));
        assert(spec_initial(mt, m, 0) == zero_row(m.places.len()));
        assert(zero_row(m.places.len()).len() == m.places.len());
    } else {
        lemma_fill_len(mt, m, i - 1);
        assert(place_wf(m, m.places[i - 1]));
        assert(spec_capacity(mt, m, i).len() == spec_capacity(mt, m, i - 1).len());
        assert(spec_initial(mt, m, i).len() == spec_initial(mt, m, i - 1).len());
    }
}

/// The safe-net invariant: every capacity slot of a compiled elementary or
/// workflow machine equals 1, and every initial-marking slot is 0 or 1.
pub proof fn lemma_safe_net_invariant(m: SpecModel, j: int)
    requires
        model_wf(m),
        model_type_of(m.model_type) == ModelType::Elementary || model_type_of(m.model_type)
            == ModelType::Workflow,
        0 <= j < m.places.len(),
    ensures
        spec_capacity(model_type_of(m.model_type), m, m.places.len() as int)[j] == 1,
        0 <= spec_initial(model_type_of(m.model_type), m, m.places.len() as int)[j] <= 1,
{
    let mt = model_type_of(m.model_type);
    lemma_offsets_cover(m, j);
    let k = choose|k: int| 0 <= k < m.places.len() && (#[trigger] m.places[k]).offset == j;
    lemma_fill_at(mt, m, k, m.places.len() as int);
}

/// An inhibitor of weight `w` on place `p` blocks the transition exactly
/// while the place still holds at least `w` tokens, for any valid marking
/// (non-negative, within each bounded place's capacity).
pub proof fn lemma_inhibitor_arc(
    capacity: Seq<i32>,
    state: Seq<i32>,
    t: SpecTrans,
    p: int,
    w: int,
    r: SpecTransaction,
)
    requires
        state.len() <= capacity.len(),
        0 <= p < state.len(),
        forall|i: int| 0 <= i < state.len() ==> 0 <= #[trigger] state[i],
        forall|i: int|
            0 <= i < state.len() ==> (capacity[i] > 0 ==> #[trigger] state[i] <= capacity[i]),
        t.guards.len() > 0,
        !t.guards[0].1.read,
        t.guards[0].1.delta.len() == state.len(),
        t.guards[0].1.delta[p] as int == -w,
        forall|i: int| 0 <= i < state.len() && i != p ==> #[trigger] t.guards[0].1.delta[i] == 0,
        0 < w,
        petri_fire_post(capacity, state, t, 1, r),
    ensures
        r.inhibited <==> state[p] >= w,
{
    let g = t.guards[0].1;
    lemma_lone_guard_threshold(capacity, state, g, p, w);
}

/// A read arc of weight `w` on place `p` blocks the transition exactly while
/// the place holds fewer than `w` tokens, and a firing it permits does not
/// consume the place when the transition's delta leaves it untouched.
pub proof fn lemma_read_arc(
    capacity: Seq<i32>,
    state: Seq<i32>,
    t: SpecTrans,
    p: int,
    w: int,
    r: SpecTransaction,
)
    requires
        state.len() <= capacity.len(),
        0 <= p < state.len(),
        forall|i: int| 0 <= i < state.len() ==> 0 <= #[trigger] state[i],
        forall|i: int|
            0 <= i < state.len() ==> (capacity[i] > 0 ==> #[trigger] state[i] <= capacity[i]),
        t.guards.len() > 0,
        t.guards[0].1.read,
        t.guards[0].1.delta.len() == state.len(),
        t.guards[0].1.delta[p] as int == -w,
        forall|i: int| 0 <= i < state.len() && i != p ==> #[trigger] t.guards[0].1.delta[i] == 0,
        0 < w,
        delta_at(t.delta, p) == 0,
        petri_fire_post(capacity, state, t, 1, r),
    ensures
        r.inhibited <==> state[p] < w,
        r.output[p] == state[p],
{
    let g = t.guards[0].1;
    lemma_lone_guard_threshold(capacity, state, g, p, w);
    assert(slot_sum(state, t.delta, 1, p) == state[p]);
}

/// A guard whose delta is `-w` at `p` and zero elsewhere passes the
/// arithmetic check exactly when the (valid) marking holds at least `w`
/// tokens at `p`.
proof fn lemma_lone_guard_threshold(
    capacity: Seq<i32>,
    state: Seq<i32>,
    g: SpecGuard,
    p: int,
    w: int,
)
    requires
        state.len() <= capacity.len(),
        0 <= p < state.len(),
        forall|i: int| 0 <= i < state.len() ==> 0 <= #[trigger] state[i],
        forall|i: int|
            0 <= i < state.len() ==> (capacity[i] > 0 ==> #[trigger] state[i] <= capacity[i]),
        g.delta.len() == state.len(),
        g.delta[p] as int == -w,
        forall|i: int| 0 <= i < state.len() && i != p ==> #[trigger] g.delta[i] == 0,
        0 < w,
    ensures
        spec_ok(capacity, state, g.delta, 1) <==> state[p] >= w,
{
    assert forall|i: int| 0 <= i < state.len() implies #[trigger] slot_sum(state, g.delta, 1, i)
        == if i == p {
        state[p] - w
    } else {
        state[i] as int
    } by {
        assert(delta_at(g.delta, i) * 1 == delta_at(g.delta, i));
    }
    if state[p] >= w {
        assert(!spec_underflow(state, g.delta, 1)) by {
            if spec_underflow(state, g.delta, 1) {
                let i = choose|i: int|
                    0 <= i < state.len() && #[trigger] slot_sum(state, g.delta, 1, i) < 0;
                assert(false);
            }
        }
        assert(!spec_overflow(capacity, state, g.delta, 1)) by {
            if spec_overflow(capacity, state, g.delta, 1) {
                let i = choose|i: int|
                    0 <= i < state.len() && 0 <= #[trigger] slot_sum(state, g.delta, 1, i)
                        && capacity[i] > 0 && capacity[i] < slot_sum(state, g.delta, 1, i);
                assert(false);
            }
        }
    } else {
        assert(spec_underflow(state, g.delta, 1)) by {
            assert(slot_sum(state, g.delta, 1, p) < 0);
        }
    }
}

/// Firing is pure: the transaction is fully determined by the machine, the
/// marking, the transition, and the multiplier, so two results of the same
/// firing agree on every field.  Together with `initial_vector` returning
/// the machine's initial marking and `transform` taking the machine and the
/// marking by shared reference, a machine is never changed by firing.
pub proof fn lemma_transform_deterministic(
    m: SpecMachine,
    state: Seq<i32>,
    t: SpecTrans,
    multiple: i32,
    r1: SpecTransaction,
    r2: SpecTransaction,
)
    requires
        machine_fire_post(m, state, t, multiple, r1),
        machine_fire_post(m, state, t, multiple, r2),
    ensures
        r1.ok == r2.ok,
        r1.output == r2.output,
        r1.role == r2.role,
        r1.inhibited == r2.inhibited,
        r1.overflow == r2.overflow,
        r1.underflow == r2.underflow,
{
    assert(r1.output =~= r2.output);
}

/// Workflow reentry: a transition firing into the already-marked only place
/// succeeds with the output clamped to 1 and no overflow reported when it
/// allows reentry, and reports overflow with `ok == false` when it does not.
pub proof fn lemma_workflow_reentry(
    capacity: Seq<i32>,
    state: Seq<i32>,
    t: SpecTrans,
    r: SpecTransaction,
)
    requires
        state.len() == 1,
        capacity.len() >= 1,
        capacity[0] == 1,
        state[0] == 1,
        t.delta.len() == 1,
        t.delta[0] == 1,
        t.guards.len() == 0,
        workflow_fire_post(capacity, state, t, 1, r),
    ensures
        t.allow_reentry ==> r.ok && r.output[0] == 1 && !r.overflow,
        !t.allow_reentry ==> !r.ok && r.overflow,
{
    assert(slot_sum(state, t.delta, 1, 0) == 2);
    assert(spec_overflow(capacity, state, t.delta, 1)) by {
        assert(0 <= slot_sum(state, t.delta, 1, 0) && capacity[0] > 0 && capacity[0] < slot_sum(
            state,
            t.delta,
            1,
            0,
        ));
    }
    let cl = clamped_seq(state, t.delta, 1);
    assert(cl.len() == 1 && cl[0] == 1);
    assert(cl.drop_last() =~= Seq::<int>::empty());
    assert(count_positive(Seq::<int>::empty()) == 0);
    assert(cl.last() == 1);
    assert(count_positive(cl) == 1);
    assert(!spec_inhibited(capacity, state, t, 1));
}

/// The elementary single-active-place rule: a firing whose computed marking
/// does not leave exactly one strictly positive place is rejected, whatever
/// the raw arithmetic reported.
pub proof fn lemma_elementary_single_active(
    capacity: Seq<i32>,
    state: Seq<i32>,
    t: SpecTrans,
    multiple: i32,
    r: SpecTransaction,
)
    requires
        elementary_fire_post(capacity, state, t, multiple, r),
        count_positive(out_seq(state, t.delta, multiple)) != 1,
    ensures
        !r.ok,
{
}

} // verus!


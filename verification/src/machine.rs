//! The vectorized state-machine engine.
//!
//! A [`StateMachine`] is the compiled, immutable form of a Petri-net-style
//! model: an initial marking, a capacity vector, and one delta vector plus
//! guard list per transition.  Firing a transition is a pure computation over
//! these vectors; the three firing policies (general Petri net, elementary
//! safe net, workflow net) share one arithmetic core and differ only in their
//! acceptance rules.

use vstd::prelude::*;

verus! {

/// The kind of model a compiled machine executes.
///
/// `Elementary` and `Workflow` are restricted safe-net forms of the general
/// `PetriNet` semantics: every place has capacity 1 and markings are 0/1.
#[derive(Debug, Clone, Copy, PartialEq, Eq, Structural)]
pub enum ModelType {
    PetriNet,
    Elementary,
    Workflow,
}

/// A compiled inhibitor or read-threshold check attached to a transition.
///
/// `delta` is nonzero in exactly one slot, holding `-weight` at the guarded
/// place; `read` distinguishes a read-threshold arc (blocks until the place
/// holds at least the weight) from an inhibitor (blocks while it still does).
#[derive(Debug, Clone)]
pub struct Guard {
    pub delta: Vec<i32>,
    pub read: bool,
}

/// A compiled transition: a label, an owning role, the net token change it
/// applies to the marking, its guards in insertion order (only the first is
/// consulted when firing), and the workflow-only `allow_reentry` flag.
#[derive(Debug, Clone)]
pub struct Transition {
    pub label: String,
    pub role: String,
    pub delta: Vec<i32>,
    pub guards: Vec<(String, Guard)>,
    pub allow_reentry: bool,
}

/// The compiled, immutable form of a model.
#[derive(Debug, Clone)]
pub struct StateMachine {
    pub model_type: ModelType,
    pub initial: Vec<i32>,
    pub capacity: Vec<i32>,
    pub places: Vec<String>,
    pub transitions: Vec<Transition>,
    pub roles: Vec<String>,
}

/// The result of one firing attempt: the computed marking, whether the firing
/// is accepted, the transition's role, and the three diagnostic flags.
#[derive(Debug, Clone)]
pub struct Transaction {
    pub ok: bool,
    pub output: Vec<i32>,
    pub role: String,
    pub inhibited: bool,
    pub overflow: bool,
    pub underflow: bool,
}

/// Mathematical model of a [`Guard`].
pub ghost struct SpecGuard {
    pub delta: Seq<i32>,
    pub read: bool,
}

/// Mathematical model of a [`Transition`].
pub ghost struct SpecTrans {
    pub label: Seq<char>,
    pub role: Seq<char>,
    pub delta: Seq<i32>,
    pub guards: Seq<(Seq<char>, SpecGuard)>,
    pub allow_reentry: bool,
}

/// Mathematical model of a [`StateMachine`].
pub ghost struct SpecMachine {
    pub model_type: ModelType,
    pub initial: Seq<i32>,
    pub capacity: Seq<i32>,
    pub places: Seq<Seq<char>>,
    pub transitions: Seq<SpecTrans>,
    pub roles: Seq<Seq<char>>,
}

/// Mathematical model of a [`Transaction`].
pub ghost struct SpecTransaction {
    pub ok: bool,
    pub output: Seq<i32>,
    pub role: Seq<char>,
    pub inhibited: bool,
    pub overflow: bool,
    pub underflow: bool,
}

/// The mathematical view of a guard list.
pub open spec fn guards_view(gs: Seq<(String, Guard)>) -> Seq<(Seq<char>, SpecGuard)> {
    gs.map(|i: int, e: (String, Guard)| (e.0@, e.1@))
}

/// The mathematical view of a list of strings.
pub open spec fn strings_view(ss: Seq<String>) -> Seq<Seq<char>> {
    ss.map(|i: int, s: String| s@)
}

/// The mathematical view of a transition list.
pub open spec fn transitions_view(ts: Seq<Transition>) -> Seq<SpecTrans> {
    ts.map(|i: int, t: Transition| t@)
}

impl View for Guard {
    type V = SpecGuard;

    open spec fn view(&self) -> SpecGuard {
        SpecGuard { delta: self.delta@, read: self.read }
    }
}

impl View for Transition {
    type V = SpecTrans;

    open spec fn view(&self) -> SpecTrans {
        SpecTrans {
            label: self.label@,
            role: self.role@,
            delta: self.delta@,
            guards: guards_view(self.guards@),
            allow_reentry: self.allow_reentry,
        }
    }
}

impl Default for Transition {
    /// An empty transition: empty label and role, no delta, no guards.
    fn default() -> (r: Transition)
        ensures
            r@.label == Seq::<char>::empty(),
            r@.role == Seq::<char>::empty(),
            r@.delta == Seq::<i32>::empty(),
            r@.guards == Seq::<(Seq<char>, SpecGuard)>::empty(),
            !r@.allow_reentry,
    {
        let r = Transition {
            label: String::new(),
            role: String::new(),
            delta: Vec::new(),
            guards: Vec::new(),
            allow_reentry: false,
        };
        proof {
            assert(guards_view(r.guards@) =~= Seq::<(Seq<char>, SpecGuard)>::empty());
        }
        r
    }
}

impl View for StateMachine {
    type V = SpecMachine;

    open spec fn view(&self) -> SpecMachine {
        SpecMachine {
            model_type: self.model_type,
            initial: self.initial@,
            capacity: self.capacity@,
            places: strings_view(self.places@),
            transitions: transitions_view(self.transitions@),
            roles: strings_view(self.roles@),
        }
    }
}

impl View for Transaction {
    type V = SpecTransaction;

    open spec fn view(&self) -> SpecTransaction {
        SpecTransaction {
            ok: self.ok,
            output: self.output@,
            role: self.role@,
            inhibited: self.inhibited,
            overflow: self.overflow,
            underflow: self.underflow,
        }
    }
}

/// The delta applied at slot `i`: a delta vector shorter than the marking is
/// padded with zeros.
pub open spec fn delta_at(delta: Seq<i32>, i: int) -> int {
    if 0 <= i < delta.len() {
        delta[i] as int
    } else {
        0
    }
}

/// The exact value slot `i` takes after firing: `state[i] + delta[i] * multiple`.
pub open spec fn slot_sum(state: Seq<i32>, delta: Seq<i32>, multiple: i32, i: int) -> int {
    state[i] + delta_at(delta, i) * multiple
}

/// The marking produced by one application of the arithmetic primitive.
pub open spec fn out_seq(state: Seq<i32>, delta: Seq<i32>, multiple: i32) -> Seq<int> {
    Seq::new(state.len(), |i: int| slot_sum(state, delta, multiple, i))
}

/// Every slot of the computed marking fits in an `i32` (a machine limit, not
/// part of the model's semantics).
pub open spec fn sums_fit(state: Seq<i32>, delta: Seq<i32>, multiple: i32) -> bool {
    forall|i: int|
        0 <= i < state.len() ==> i32::MIN <= #[trigger] slot_sum(state, delta, multiple, i)
            <= i32::MAX
}

/// Some slot of the computed marking is negative.
pub open spec fn spec_underflow(state: Seq<i32>, delta: Seq<i32>, multiple: i32) -> bool {
    exists|i: int| 0 <= i < state.len() && #[trigger] slot_sum(state, delta, multiple, i) < 0
}

/// Some non-negative slot of the computed marking exceeds a positive capacity
/// bound (capacity 0 means unbounded; a slot that underflowed is not also
/// checked for overflow).
pub open spec fn spec_overflow(
    capacity: Seq<i32>,
    state: Seq<i32>,
    delta: Seq<i32>,
    multiple: i32,
) -> bool {
    exists|i: int|
        0 <= i < state.len() && 0 <= #[trigger] slot_sum(state, delta, multiple, i)
            && capacity[i] > 0 && capacity[i] < slot_sum(state, delta, multiple, i)
}

/// The arithmetic succeeded: no slot underflowed or overflowed.
pub open spec fn spec_ok(
    capacity: Seq<i32>,
    state: Seq<i32>,
    delta: Seq<i32>,
    multiple: i32,
) -> bool {
    !spec_underflow(state, delta, multiple) && !spec_overflow(capacity, state, delta, multiple)
}

/// Whether a transition is blocked by its guard.  Only the first guard in the
/// list is consulted; a transition with no guards is never inhibited.  An
/// inhibitor blocks while the guarded place still holds the threshold weight
/// (the subtraction succeeds); a read arc blocks until it does.
pub open spec fn spec_inhibited(
    capacity: Seq<i32>,
    state: Seq<i32>,
    t: SpecTrans,
    multiple: i32,
) -> bool {
    if t.guards.len() == 0 {
        false
    } else {
        let g = t.guards[0].1;
        if g.read {
            !spec_ok(capacity, state, g.delta, multiple)
        } else {
            spec_ok(capacity, state, g.delta, multiple)
        }
    }
}

/// The machine limits a firing evaluation needs: the capacity vector covers
/// the marking, and the computed slot values fit in `i32` for the transition's
/// delta and for the consulted guard's delta.
pub open spec fn fire_fits(
    capacity: Seq<i32>,
    state: Seq<i32>,
    t: SpecTrans,
    multiple: i32,
) -> bool {
    &&& state.len() <= capacity.len()
    &&& sums_fit(state, t.delta, multiple)
    &&& t.guards.len() > 0 ==> sums_fit(state, t.guards[0].1.delta, multiple)
}

/// The number of strictly positive slots of a marking.
pub open spec fn count_positive(s: Seq<int>) -> int
    decreases s.len(),
{
    if s.len() == 0 {
        0
    } else {
        count_positive(s.drop_last()) + if s.last() > 0 {
            1int
        } else {
            0int
        }
    }
}

/// A marking's slots as mathematical integers.
pub open spec fn to_ints(s: Seq<i32>) -> Seq<int> {
    s.map_values(|x: i32| x as int)
}

proof fn lemma_count_positive_take(s: Seq<int>, i: int)
    requires
        0 <= i < s.len(),
    ensures
        count_positive(s.take(i + 1)) == count_positive(s.take(i)) + if s[i] > 0 {
            1int
        } else {
            0int
        },
{
    assert(s.take(i + 1).drop_last() =~= s.take(i));
    assert(s.take(i + 1).last() == s[i]);
}

/// Computes `state[i] + delta[i] * multiple` for every slot (a delta shorter
/// than the marking is padded with zeros) and classifies the result.
/// Returns `(output, ok, overflow, underflow)`.
fn vector_add(capacity: &Vec<i32>, state: &Vec<i32>, delta: &Vec<i32>, multiple: i32) -> (r: (
    Vec<i32>,
    bool,
    bool,
    bool,
))
    requires
        state@.len() <= capacity@.len(),
        sums_fit(state@, delta@, multiple),
    ensures
        r.0@.len() == state@.len(),
        forall|i: int|
            0 <= i < state@.len() ==> #[trigger] r.0@[i] == slot_sum(state@, delta@, multiple, i),
        r.1 == spec_ok(capacity@, state@, delta@, multiple),
        r.2 == spec_overflow(capacity@, state@, delta@, multiple),
        r.3 == spec_underflow(state@, delta@, multiple),
{
    let mut overflow = false;
    let mut underflow = false;
    let mut output: Vec<i32> = Vec::new();
    let mut ok = true;
    let n: usize = state.len();
    let mut i: usize = 0;
    while i < n
        invariant
            n == state@.len(),
            state@.len() <= capacity@.len(),
            sums_fit(state@, delta@, multiple),
            i <= n,
            output@.len() == i,
            forall|j: int|
                0 <= j < i ==> #[trigger] output@[j] == slot_sum(state@, delta@, multiple, j),
            underflow == exists|j: int|
                0 <= j < i && #[trigger] slot_sum(state@, delta@, multiple, j) < 0,
            overflow == exists|j: int|
                0 <= j < i && 0 <= #[trigger] slot_sum(state@, delta@, multiple, j)
                    && capacity@[j] > 0 && capacity@[j] < slot_sum(state@, delta@, multiple, j),
            ok == (!underflow && !overflow),
        decreases n - i,
    {
        let d: i32 = if i < delta.len() {
            delta[i]
        } else {
            0
        };
        let dd: i64 = d as i64;
        let mm: i64 = multiple as i64;
        assert(-0x4000_0000_0000_0000 <= dd * mm <= 0x4000_0000_0000_0000) by (nonlinear_arith)
            requires
                -0x8000_0000 <= dd <= 0x7FFF_FFFF,
                -0x8000_0000 <= mm <= 0x7FFF_FFFF,
        ;
        let v64: i64 = state[i] as i64 + dd * mm;
        assert(v64 == slot_sum(state@, delta@, multiple, i as int));
        let v: i32 = v64 as i32;
        output.push(v);
        if v < 0 {
            underflow = true;
            ok = false;
        } else if capacity[i] > 0 && capacity[i] < v {
            overflow = true;
            ok = false;
        }
        i = i + 1;
    }
    (output, ok, overflow, underflow)
}

/// Counts the strictly positive slots of a marking.
fn count_positives(v: &Vec<i32>) -> (r: usize)
    ensures
        r as int == count_positive(to_ints(v@)),
{
    let mut cnt: usize = 0;
    let mut i: usize = 0;
    while i < v.len()
        invariant
            i <= v@.len(),
            cnt <= i,
            cnt as int == count_positive(to_ints(v@).take(i as int)),
        decreases v@.len() - i,
    {
        proof {
            lemma_count_positive_take(to_ints(v@), i as int);
        }
        if v[i] > 0 {
            cnt = cnt + 1;
        }
        i = i + 1;
    }
    proof {
        assert(to_ints(v@).take(v@.len() as int) =~= to_ints(v@));
    }
    cnt
}

impl StateMachine {
    /// Decides whether the transition's guard blocks the prospective firing.
    fn guard_fails(&self, state: &Vec<i32>, transition: &Transition, multiple: i32) -> (r: bool)
        requires
            state@.len() <= self@.capacity.len(),
            transition@.guards.len() > 0 ==> sums_fit(
                state@,
                transition@.guards[0].1.delta,
                multiple,
            ),
        ensures
            r == spec_inhibited(self@.capacity, state@, transition@, multiple),
    {
        if transition.guards.len() > 0 {
            let guard = &transition.guards[0].1;
            let (_output, threshold_met, _over, _under) = vector_add(
                &self.capacity,
                state,
                &guard.delta,
                multiple,
            );
            if guard.read {
                !threshold_met  // read arc enables after a threshold
            } else {
                threshold_met  // guard inhibits until a threshold
            }
        } else {
            false
        }
    }
}

} // verus!

verus! {

/// What one general-Petri-net firing attempt returns: the raw computed
/// marking, the diagnostic flags of the arithmetic and guard evaluation, and
/// acceptance exactly when the arithmetic succeeded and no guard blocked.
pub open spec fn petri_fire_post(
    capacity: Seq<i32>,
    state: Seq<i32>,
    t: SpecTrans,
    multiple: i32,
    r: SpecTransaction,
) -> bool {
    &&& r.output.len() == state.len()
    &&& forall|i: int|
        0 <= i < state.len() ==> #[trigger] r.output[i] == slot_sum(state, t.delta, multiple, i)
    &&& r.overflow == spec_overflow(capacity, state, t.delta, multiple)
    &&& r.underflow == spec_underflow(state, t.delta, multiple)
    &&& r.inhibited == spec_inhibited(capacity, state, t, multiple)
    &&& r.ok == (spec_ok(capacity, state, t.delta, multiple) && !spec_inhibited(
        capacity,
        state,
        t,
        multiple,
    ))
    &&& r.role == t.role
}

/// What one elementary firing attempt returns: as the general net, except
/// that acceptance additionally needs exactly one strictly positive slot in
/// the computed marking (the safe-net single-active-place rule).
pub open spec fn elementary_fire_post(
    capacity: Seq<i32>,
    state: Seq<i32>,
    t: SpecTrans,
    multiple: i32,
    r: SpecTransaction,
) -> bool {
    &&& r.output.len() == state.len()
    &&& forall|i: int|
        0 <= i < state.len() ==> #[trigger] r.output[i] == slot_sum(state, t.delta, multiple, i)
    &&& r.overflow == spec_overflow(capacity, state, t.delta, multiple)
    &&& r.underflow == spec_underflow(state, t.delta, multiple)
    &&& r.inhibited == spec_inhibited(capacity, state, t, multiple)
    &&& r.ok == (spec_ok(capacity, state, t.delta, multiple) && count_positive(
        out_seq(state, t.delta, multiple),
    ) == 1 && !spec_inhibited(capacity, state, t, multiple))
    &&& r.role == t.role
}

/// A slot clamped to the workflow's binary marking: positive becomes 1,
/// zero or negative becomes 0.
pub open spec fn clamp01(x: int) -> int {
    if x <= 0 {
        0
    } else {
        1
    }
}

/// The computed marking clamped slot by slot to the binary form.
pub open spec fn clamped_seq(state: Seq<i32>, delta: Seq<i32>, multiple: i32) -> Seq<int> {
    Seq::new(state.len(), |i: int| clamp01(slot_sum(state, delta, multiple, i)))
}

/// The workflow reentry case: the firing is not inhibited, the raw arithmetic
/// overflowed, the clamped marking has exactly one active place, and the
/// transition allows reentry.
pub open spec fn workflow_reentry(
    capacity: Seq<i32>,
    state: Seq<i32>,
    t: SpecTrans,
    multiple: i32,
) -> bool {
    &&& !spec_inhibited(capacity, state, t, multiple)
    &&& spec_overflow(capacity, state, t.delta, multiple)
    &&& count_positive(clamped_seq(state, t.delta, multiple)) == 1
    &&& t.allow_reentry
}

/// What one workflow firing attempt returns.  On the reentry case the firing
/// is forced to succeed, the overflow flag is cleared, and the clamped
/// marking is emitted; otherwise the raw marking is emitted and acceptance
/// needs arithmetic success, exactly one active place in the clamped marking,
/// and no inhibition.
pub open spec fn workflow_fire_post(
    capacity: Seq<i32>,
    state: Seq<i32>,
    t: SpecTrans,
    multiple: i32,
    r: SpecTransaction,
) -> bool {
    &&& r.output.len() == state.len()
    &&& r.underflow == spec_underflow(state, t.delta, multiple)
    &&& r.inhibited == spec_inhibited(capacity, state, t, multiple)
    &&& r.role == t.role
    &&& if workflow_reentry(capacity, state, t, multiple) {
        &&& forall|i: int|
            0 <= i < state.len() ==> #[trigger] r.output[i] == clamp01(
                slot_sum(state, t.delta, multiple, i),
            )
        &&& r.ok == true
        &&& r.overflow == false
    } else {
        &&& forall|i: int|
            0 <= i < state.len() ==> #[trigger] r.output[i] == slot_sum(
                state,
                t.delta,
                multiple,
                i,
            )
        &&& r.ok == (spec_ok(capacity, state, t.delta, multiple) && count_positive(
            clamped_seq(state, t.delta, multiple),
        ) == 1 && !spec_inhibited(capacity, state, t, multiple))
        &&& r.overflow == spec_overflow(capacity, state, t.delta, multiple)
    }
}

impl StateMachine {
    /// Fires a transition under the general Petri-net rule: the firing is
    /// accepted exactly when no slot underflows or overflows and no guard
    /// blocks it.
    pub fn petri_net_fire(&self, state: &Vec<i32>, transition: &Transition, multiple: i32) -> (r:
        Transaction)
        requires
            fire_fits(self@.capacity, state@, transition@, multiple),
        ensures
            petri_fire_post(self@.capacity, state@, transition@, multiple, r@),
    {
        let role = transition.role.clone();
        let (output, ok, overflow, underflow) = vector_add(
            &self.capacity,
            state,
            &transition.delta,
            multiple,
        );
        let inhibited = self.guard_fails(state, transition, multiple);

        Transaction { output, ok: ok && !inhibited, role, inhibited, overflow, underflow }
    }

    /// Fires a transition under the elementary safe-net rule: as the general
    /// net, but the computed marking must also leave exactly one place with a
    /// strictly positive count.
    pub fn elementary_fire(&self, state: &Vec<i32>, transition: &Transition, multiple: i32) -> (r:
        Transaction)
        requires
            fire_fits(self@.capacity, state@, transition@, multiple),
        ensures
            elementary_fire_post(self@.capacity, state@, transition@, multiple, r@),
    {
        let role = transition.role.clone();
        let (output, ok, overflow, underflow) = vector_add(
            &self.capacity,
            state,
            &transition.delta,
            multiple,
        );
        let inhibited = self.guard_fails(state, transition, multiple);
        let output_state_count = count_positives(&output);
        proof {
            assert(to_ints(output@) =~= out_seq(state@, transition@.delta, multiple));
        }
        let elementary_ok = ok && output_state_count == 1 && !inhibited;
        Transaction { output, ok: elementary_ok, role, inhibited, overflow, underflow }
    }

    /// Fires a transition under the workflow rule: markings are binary, so
    /// the computed marking is clamped slot by slot to 0/1; a transition that
    /// allows reentry may fire into an already-marked place, which succeeds
    /// with the clamped marking and no overflow reported.
    pub fn workflow_fire(&self, state: &Vec<i32>, transition: &Transition, multiple: i32) -> (r:
        Transaction)
        requires
            fire_fits(self@.capacity, state@, transition@, multiple),
        ensures
            workflow_fire_post(self@.capacity, state@, transition@, multiple, r@),
    {
        let role = transition.role.clone();
        let (output, ok, overflow, underflow) = vector_add(
            &self.capacity,
            state,
            &transition.delta,
            multiple,
        );
        let inhibited = self.guard_fails(state, transition, multiple);
        let mut workflow_output: Vec<i32> = Vec::new();
        let mut i: usize = 0;
        while i < output.len()
            invariant
                i <= output@.len(),
                workflow_output@.len() == i,
                forall|j: int|
                    0 <= j < i ==> #[trigger] workflow_output@[j] == clamp01(output@[j] as int),
            decreases output@.len() - i,
        {
            let c: i32 = if output[i] <= 0 {
                0
            } else {
                1
            };
            workflow_output.push(c);
            i = i + 1;
        }
        let output_state_count = count_positives(&workflow_output);
        proof {
            assert(to_ints(workflow_output@) =~= clamped_seq(state@, transition@.delta, multiple));
        }
        if !inhibited && overflow && output_state_count == 1 && transition.allow_reentry {
            return Transaction {
                output: workflow_output,
                ok: true,
                role,
                inhibited,
                overflow: false,
                underflow,
            };
        }
        let workflow_ok = ok && output_state_count == 1 && !inhibited;

        Transaction { output, ok: workflow_ok, role, inhibited, overflow, underflow }
    }
}

} // verus!

verus! {

/// The first transition in the list carrying the given label, if any.
pub open spec fn find_trans(ts: Seq<SpecTrans>, label: Seq<char>) -> Option<SpecTrans>
    decreases ts.len(),
{
    if ts.len() == 0 {
        None
    } else if ts[0].label == label {
        Some(ts[0])
    } else {
        find_trans(ts.drop_first(), label)
    }
}

proof fn lemma_find_trans_skip(ts: Seq<SpecTrans>, label: Seq<char>, i: int)
    requires
        0 <= i <= ts.len(),
        forall|j: int| 0 <= j < i ==> (#[trigger] ts[j].label) != label,
    ensures
        find_trans(ts, label) == find_trans(ts.skip(i), label),
    decreases i,
{
    if i == 0 {
        assert(ts.skip(0) =~= ts);
    } else {
        lemma_find_trans_skip(ts, label, i - 1);
        assert(ts.skip(i - 1).drop_first() =~= ts.skip(i));
        assert(ts.skip(i - 1)[0] == ts[i - 1]);
    }
}

/// What `transform` returns: the firing policy selected by the machine's
/// model type, applied to the addressed transition.
pub open spec fn machine_fire_post(
    m: SpecMachine,
    state: Seq<i32>,
    t: SpecTrans,
    multiple: i32,
    r: SpecTransaction,
) -> bool {
    match m.model_type {
        ModelType::PetriNet => petri_fire_post(m.capacity, state, t, multiple, r),
        ModelType::Elementary => elementary_fire_post(m.capacity, state, t, multiple, r),
        ModelType::Workflow => workflow_fire_post(m.capacity, state, t, multiple, r),
    }
}

/// Character-by-character string equality.
fn str_eq(a: &str, b: &str) -> (r: bool)
    ensures
        r == (a@ == b@),
{
    let alen = a.unicode_len();
    let blen = b.unicode_len();
    if alen != blen {
        return false;
    }
    let mut i: usize = 0;
    while i < alen
        invariant
            alen == a@.len(),
            blen == b@.len(),
            alen == blen,
            i <= alen,
            forall|j: int| 0 <= j < i ==> a@[j] == b@[j],
        decreases alen - i,
    {
        if a.get_char(i) != b.get_char(i) {
            return false;
        }
        i = i + 1;
    }
    proof {
        assert(a@ =~= b@);
    }
    true
}

/// A [vector addition state machine](https://en.wikipedia.org/wiki/Vector_addition_system):
/// an immutable compiled net that evaluates firing attempts over externally
/// owned markings.
pub trait Vasm {
    /// The machine's mathematical model.
    spec fn model(&self) -> SpecMachine;

    /// Creates an all-zero marking with one slot per place.
    fn empty_vector(&self) -> (r: Vec<i32>)
        ensures
            r@.len() == self.model().places.len(),
            forall|i: int| 0 <= i < r@.len() ==> #[trigger] r@[i] == 0i32,
    ;

    /// Returns the machine's initial marking.
    fn initial_vector(&self) -> (r: Vec<i32>)
        ensures
            r@ == self.model().initial,
    ;

    /// Evaluates firing the transition labelled `action` from `state` with
    /// the given multiplicity, under the machine's firing policy.  The label
    /// must name a transition of the machine.
    fn transform(&self, state: &Vec<i32>, action: &str, multiple: i32) -> (r: Transaction)
        requires
            find_trans(self.model().transitions, action@) is Some,
            fire_fits(
                self.model().capacity,
                state@,
                find_trans(self.model().transitions, action@)->Some_0,
                multiple,
            ),
        ensures
            machine_fire_post(
                self.model(),
                state@,
                find_trans(self.model().transitions, action@)->Some_0,
                multiple,
                r@,
            ),
    ;
}

impl Vasm for StateMachine {
    open spec fn model(&self) -> SpecMachine {
        self@
    }

    fn empty_vector(&self) -> (r: Vec<i32>)
        ensures
            r@.len() == self@.places.len(),
            forall|i: int| 0 <= i < r@.len() ==> #[trigger] r@[i] == 0i32,
    {
        let n: usize = self.places.len();
        let mut r: Vec<i32> = Vec::new();
        let mut i: usize = 0;
        while i < n
            invariant
                i <= n,
                r@.len() == i,
                forall|j: int| 0 <= j < i ==> #[trigger] r@[j] == 0i32,
            decreases n - i,
        {
            r.push(0);
            i = i + 1;
        }
        r
    }

    fn initial_vector(&self) -> (r: Vec<i32>)
        ensures
            r@ == self@.initial,
    {
        let n: usize = self.initial.len();
        let mut r: Vec<i32> = Vec::new();
        let mut i: usize = 0;
        while i < n
            invariant
                i <= n,
                n == self.initial@.len(),
                r@.len() == i,
                forall|j: int| 0 <= j < i ==> #[trigger] r@[j] == self.initial@[j],
            decreases n - i,
        {
            r.push(self.initial[i]);
            i = i + 1;
        }
        proof {
            assert(r@ =~= self.initial@);
        }
        r
    }

    fn transform(&self, state: &Vec<i32>, action: &str, multiple: i32) -> (r: Transaction) {
        let n: usize = self.transitions.len();
        let mut i: usize = 0;
        while i < n
            invariant
                n == self.transitions@.len(),
                i <= n,
                forall|j: int| 0 <= j < i ==> (#[trigger] self@.transitions[j].label) != action@,
                find_trans(self@.transitions, action@) is Some,
                fire_fits(
                    self@.capacity,
                    state@,
                    find_trans(self@.transitions, action@)->Some_0,
                    multiple,
                ),
            decreases n - i,
        {
            if str_eq(self.transitions[i].label.as_str(), action) {
                let transition = &self.transitions[i];
                proof {
                    lemma_find_trans_skip(self@.transitions, action@, i as int);
                    assert(self@.transitions.skip(i as int)[0] == self@.transitions[i as int]);
                    assert(self@.transitions.skip(i as int).len() > 0);
                    assert(find_trans(self@.transitions, action@) == Some(
                        self@.transitions[i as int],
                    ));
                    assert(transition@ == self@.transitions[i as int]);
                }
                return match self.model_type {
                    ModelType::PetriNet => self.petri_net_fire(state, transition, multiple),
                    ModelType::Elementary => self.elementary_fire(state, transition, multiple),
                    ModelType::Workflow => self.workflow_fire(state, transition, multiple),
                };
            }
            i = i + 1;
        }
        proof {
            lemma_find_trans_skip(self@.transitions, action@, n as int);
            assert(self@.transitions.skip(n as int) =~= Seq::<SpecTrans>::empty());
        }
        vstd::pervasive::unreached()
    }
}

impl Transaction {
    /// Reports whether the firing attempt was accepted.
    pub fn is_ok(&self) -> (r: bool)
        ensures
            r == self@.ok,
    {
        self.ok
    }

    /// Reports whether the firing attempt was rejected.
    pub fn is_err(&self) -> (r: bool)
        ensures
            r == !self@.ok,
    {
        !self.ok
    }
}

} // verus!

verus! {

use crate::model::{
    PetriNet, Place, SpecArcDecl, SpecModel, SpecPlace, SpecTransDecl, arc_consume, arc_inhibit,
    arc_place_name, arc_produce, arc_read, arc_trans_name, arc_weight, arc_wf, find_place,
    model_wf, place_wf, places_view,
};

/// An all-zero row with one slot per place.
pub open spec fn zero_row(size: nat) -> Seq<i32> {
    Seq::new(size, |i: int| 0i32)
}

/// The model type a model-type string selects: `"elementary"` and
/// `"workflow"` by name, anything else the general Petri net.
pub open spec fn model_type_of(s: Seq<char>) -> ModelType {
    if s == "elementary"@ {
        ModelType::Elementary
    } else if s == "workflow"@ {
        ModelType::Workflow
    } else {
        ModelType::PetriNet
    }
}

/// A declared transition's role, defaulting to `"default"`.
pub open spec fn role_of(d: SpecTransDecl) -> Seq<char> {
    match d.role {
        Some(r) => r,
        None => "default"@,
    }
}

/// The role set after the first `i` transition declarations: each declared
/// role in order of first appearance, without duplicates.
pub open spec fn spec_roles(decls: Seq<SpecTransDecl>, i: int) -> Seq<Seq<char>>
    decreases i,
{
    if i <= 0 {
        Seq::empty()
    } else {
        let prev = spec_roles(decls, i - 1);
        let r = role_of(decls[i - 1]);
        if prev.contains(r) {
            prev
        } else {
            prev.push(r)
        }
    }
}

/// The slot offset of the named place.
pub open spec fn place_offset(m: SpecModel, name: Seq<char>) -> int {
    find_place(m.places, name)->Some_0.offset as int
}

/// The first index of a guard entry carrying the given key (the list's
/// length if no entry does).
pub open spec fn guard_key_idx(gs: Seq<(Seq<char>, SpecGuard)>, key: Seq<char>) -> int
    decreases gs.len(),
{
    if gs.len() == 0 {
        0
    } else if gs[0].0 == key {
        0
    } else {
        1 + guard_key_idx(gs.drop_first(), key)
    }
}

/// Map-style insertion into a guard list: an existing key is overwritten in
/// place, a new key is appended.
pub open spec fn insert_guard(
    gs: Seq<(Seq<char>, SpecGuard)>,
    key: Seq<char>,
    g: SpecGuard,
) -> Seq<(Seq<char>, SpecGuard)> {
    let i = guard_key_idx(gs, key);
    if i < gs.len() {
        gs.update(i, (key, g))
    } else {
        gs.push((key, g))
    }
}

/// The guard an inhibitor arc compiles to: `-weight` at the guarded place's
/// offset, zero elsewhere, with the arc's `read` flag.
pub open spec fn arc_guard(m: SpecModel, a: SpecArcDecl) -> SpecGuard {
    SpecGuard {
        delta: zero_row(m.places.len()).update(
            place_offset(m, arc_place_name(a)),
            (0 - arc_weight(a)) as i32,
        ),
        read: arc_read(a),
    }
}

/// The delta vector of the transition labelled `label` after the first `i`
/// arcs: a non-inhibitor arc addressed to it writes `-weight` at the source
/// place's offset if it consumes, `+weight` at the target place's offset
/// otherwise.
pub open spec fn spec_delta(m: SpecModel, label: Seq<char>, i: int) -> Seq<i32>
    decreases i,
{
    if i <= 0 {
        zero_row(m.places.len())
    } else {
        let prev = spec_delta(m, label, i - 1);
        let a = m.arcs[i - 1];
        if arc_trans_name(a) == label && !arc_inhibit(a) {
            if arc_consume(a) {
                prev.update(place_offset(m, a.source), (0 - arc_weight(a)) as i32)
            } else {
                prev.update(place_offset(m, a.target), arc_weight(a) as i32)
            }
        } else {
            prev
        }
    }
}

/// The guard list of the transition labelled `label` after the first `i`
/// arcs: each inhibitor arc addressed to it is inserted keyed by the arc's
/// target name.
pub open spec fn spec_guards(m: SpecModel, label: Seq<char>, i: int) -> Seq<(Seq<char>, SpecGuard)>
    decreases i,
{
    if i <= 0 {
        Seq::empty()
    } else {
        let prev = spec_guards(m, label, i - 1);
        let a = m.arcs[i - 1];
        if arc_trans_name(a) == label && arc_inhibit(a) {
            insert_guard(prev, a.target, arc_guard(m, a))
        } else {
            prev
        }
    }
}

/// The fully compiled form of one transition declaration.
pub open spec fn compiled_trans(m: SpecModel, d: SpecTransDecl) -> SpecTrans {
    SpecTrans {
        label: d.name,
        role: role_of(d),
        delta: spec_delta(m, d.name, m.arcs.len() as int),
        guards: spec_guards(m, d.name, m.arcs.len() as int),
        allow_reentry: false,
    }
}

/// A declared place's initial count, defaulting to 0.
pub open spec fn place_initial(p: SpecPlace) -> i32 {
    match p.initial {
        Some(v) => v,
        None => 0i32,
    }
}

/// The initial-marking slot a place compiles to: the declared count for a
/// general Petri net, the count clamped to 0/1 for the safe-net forms.
pub open spec fn init_slot(mt: ModelType, iv: i32) -> i32 {
    match mt {
        ModelType::PetriNet => iv,
        ModelType::Elementary => if iv == 0 {
            0i32
        } else {
            1i32
        },
        ModelType::Workflow => if iv == 0 {
            0i32
        } else {
            1i32
        },
    }
}

/// The capacity slot a place compiles to: the declared capacity (0 when
/// absent, meaning unbounded) for a general Petri net, 1 for the safe-net
/// forms.
pub open spec fn cap_slot(mt: ModelType, p: SpecPlace) -> i32 {
    match mt {
        ModelType::PetriNet => match p.capacity {
            Some(c) => c,
            None => 0i32,
        },
        ModelType::Elementary => 1i32,
        ModelType::Workflow => 1i32,
    }
}

/// The initial marking after the first `i` place declarations.
pub open spec fn spec_initial(mt: ModelType, m: SpecModel, i: int) -> Seq<i32>
    decreases i,
{
    if i <= 0 {
        zero_row(m.places.len())
    } else {
        spec_initial(mt, m, i - 1).update(
            m.places[i - 1].offset as int,
            init_slot(mt, place_initial(m.places[i - 1])),
        )
    }
}

/// The capacity vector after the first `i` place declarations.
pub open spec fn spec_capacity(mt: ModelType, m: SpecModel, i: int) -> Seq<i32>
    decreases i,
{
    if i <= 0 {
        zero_row(m.places.len())
    } else {
        spec_capacity(mt, m, i - 1).update(
            m.places[i - 1].offset as int,
            cap_slot(mt, m.places[i - 1]),
        )
    }
}

/// The ordered place-name list after the first `i` place declarations.
pub open spec fn spec_names(m: SpecModel, i: int) -> Seq<Seq<char>>
    decreases i,
{
    if i <= 0 {
        Seq::new(m.places.len(), |j: int| Seq::<char>::empty())
    } else {
        spec_names(m, i - 1).update(m.places[i - 1].offset as int, m.places[i - 1].name)
    }
}

/// Creates an all-zero vector of the given length.
fn zeros(n: usize) -> (r: Vec<i32>)
    ensures
        r@ == zero_row(n as nat),
{
    let mut r: Vec<i32> = Vec::new();
    let mut i: usize = 0;
    while i < n
        invariant
            i <= n,
            r@.len() == i,
            forall|j: int| 0 <= j < i ==> #[trigger] r@[j] == 0i32,
        decreases n - i,
    {
        r.push(0);
        i = i + 1;
    }
    proof {
        assert(r@ =~= zero_row(n as nat));
    }
    r
}

/// Selects the model type a model-type string names.
fn model_type_from_string(model_type: &str) -> (r: ModelType)
    ensures
        r == model_type_of(model_type@),
{
    if str_eq(model_type, "elementary") {
        ModelType::Elementary
    } else if str_eq(model_type, "workflow") {
        ModelType::Workflow
    } else {
        ModelType::PetriNet
    }
}

proof fn lemma_find_place_skip(ps: Seq<SpecPlace>, name: Seq<char>, i: int)
    requires
        0 <= i <= ps.len(),
        forall|j: int| 0 <= j < i ==> (#[trigger] ps[j].name) != name,
    ensures
        find_place(ps, name) == find_place(ps.skip(i), name),
    decreases i,
{
    if i == 0 {
        assert(ps.skip(0) =~= ps);
    } else {
        lemma_find_place_skip(ps, name, i - 1);
        assert(ps.skip(i - 1).drop_first() =~= ps.skip(i));
        assert(ps.skip(i - 1)[0] == ps[i - 1]);
    }
}

/// Finds the index of the (unique) declared place carrying the given name.
fn find_place_at(places: &Vec<Place>, name: &str) -> (r: usize)
    requires
        find_place(places_view(places@), name@) is Some,
    ensures
        r < places@.len(),
        places_view(places@)[r as int] == find_place(places_view(places@), name@)->Some_0,
{
    let n: usize = places.len();
    let mut i: usize = 0;
    while i < n
        invariant
            n == places@.len(),
            i <= n,
            find_place(places_view(places@), name@) is Some,
            forall|j: int| 0 <= j < i ==> (#[trigger] places_view(places@)[j].name) != name@,
        decreases n - i,
    {
        if str_eq(places[i].name.as_str(), name) {
            proof {
                lemma_find_place_skip(places_view(places@), name@, i as int);
                assert(places_view(places@).skip(i as int)[0] == places_view(places@)[i as int]);
            }
            return i;
        }
        i = i + 1;
    }
    proof {
        lemma_find_place_skip(places_view(places@), name@, n as int);
        assert(places_view(places@).skip(n as int) =~= Seq::<SpecPlace>::empty());
    }
    vstd::pervasive::unreached()
}

} // verus!

verus! {

proof fn lemma_guard_key_skip(gs: Seq<(Seq<char>, SpecGuard)>, key: Seq<char>, i: int)
    requires
        0 <= i <= gs.len(),
        forall|j: int| 0 <= j < i ==> (#[trigger] gs[j].0) != key,
    ensures
        guard_key_idx(gs, key) == i + guard_key_idx(gs.skip(i), key),
    decreases i,
{
    if i == 0 {
        assert(gs.skip(0) =~= gs);
    } else {
        lemma_guard_key_skip(gs, key, i - 1);
        assert(gs.skip(i - 1).drop_first() =~= gs.skip(i));
        assert(gs.skip(i - 1)[0] == gs[i - 1]);
    }
}

proof fn lemma_guard_key_idx_none(gs: Seq<(Seq<char>, SpecGuard)>, key: Seq<char>)
    requires
        forall|j: int| 0 <= j < gs.len() ==> (#[trigger] gs[j].0) != key,
    ensures
        guard_key_idx(gs, key) == gs.len(),
{
    lemma_guard_key_skip(gs, key, gs.len() as int);
    assert(gs.skip(gs.len() as int) =~= Seq::<(Seq<char>, SpecGuard)>::empty());
}

/// Map-style insertion into a transition's guard list: an existing key is
/// overwritten in place, a new key is appended.
fn insert_guard_exec(guards: &mut Vec<(String, Guard)>, key: String, g: Guard)
    ensures
        guards_view(final(guards)@) == insert_guard(guards_view(old(guards)@), key@, g@),
{
    let n: usize = guards.len();
    let mut i: usize = 0;
    while i < n
        invariant
            n == guards@.len(),
            guards@ == old(guards)@,
            i <= n,
            forall|j: int| 0 <= j < i ==> (#[trigger] guards_view(guards@)[j].0) != key@,
        decreases n - i,
    {
        if str_eq(guards[i].0.as_str(), key.as_str()) {
            proof {
                lemma_guard_key_skip(guards_view(guards@), key@, i as int);
                assert(guards_view(guards@).skip(i as int)[0] == guards_view(guards@)[i as int]);
                assert(guard_key_idx(guards_view(guards@), key@) == i as int);
            }
            let ghost old_view = guards_view(guards@);
            guards.set(i, (key, g));
            proof {
                assert(guards_view(guards@) =~= old_view.update(i as int, (key@, g@)));
            }
            return;
        }
        i = i + 1;
    }
    proof {
        lemma_guard_key_idx_none(guards_view(guards@), key@);
    }
    let ghost old_view = guards_view(guards@);
    guards.push((key, g));
    proof {
        assert(guards_view(guards@) =~= old_view.push((key@, g@)));
    }
}

impl StateMachine {
    /// Compiles a declared model into its vectorized executable form: the
    /// role set, one delta vector and guard list per transition (folded from
    /// the arcs in declaration order), and the initial marking, capacity
    /// vector and ordered place-name list (filled by place offset, with the
    /// safe-net forms forcing capacity 1 and a 0/1 initial marking).
    pub fn from_model(model: &PetriNet) -> (r: StateMachine)
        requires
            model_wf(model@),
        ensures
            r@.model_type == model_type_of(model@.model_type),
            r@.initial == spec_initial(model_type_of(model@.model_type), model@, model@.places.len() as int),
            r@.capacity == spec_capacity(model_type_of(model@.model_type), model@, model@.places.len() as int),
            r@.places == spec_names(model@, model@.places.len() as int),
            r@.transitions.len() == model@.transitions.len(),
            forall|k: int|
                0 <= k < model@.transitions.len() ==> (#[trigger] r@.transitions[k])
                    == compiled_trans(model@, model@.transitions[k]),
            r@.roles == spec_roles(model@.transitions, model@.transitions.len() as int),
    {
        let mt = model_type_from_string(model.model_type.as_str());
        let size: usize = model.places.len();
        let nt: usize = model.transitions.len();
        let na: usize = model.arcs.len();

        let mut roles: Vec<String> = Vec::new();
        let mut ti: usize = 0;
        while ti < nt
            invariant
                nt == model.transitions@.len(),
                ti <= nt,
                strings_view(roles@) == spec_roles(model@.transitions, ti as int),
            decreases nt - ti,
        {
            let role_s: String = match &model.transitions[ti].role {
                Some(r) => r.clone(),
                None => "default".to_owned(),
            };
            proof {
                assert(model@.transitions[ti as int] == model.transitions@[ti as int]@);
                assert(role_s@ == role_of(model@.transitions[ti as int]));
            }
            let mut found = false;
            let nr: usize = roles.len();
            let mut j: usize = 0;
            while j < nr
                invariant
                    nr == roles@.len(),
                    j <= nr,
                    !found ==> forall|k: int|
                        0 <= k < j ==> (#[trigger] strings_view(roles@)[k]) != role_s@,
                    found ==> strings_view(roles@).contains(role_s@),
                decreases nr - j,
            {
                if str_eq(roles[j].as_str(), role_s.as_str()) {
                    found = true;
                    proof {
                        assert(strings_view(roles@)[j as int] == role_s@);
                    }
                }
                j = j + 1;
            }
            if !found {
                let ghost old_view = strings_view(roles@);
                proof {
                    assert(!old_view.contains(role_s@));
                }
                roles.push(role_s);
                proof {
                    assert(strings_view(roles@) =~= old_view.push(
                        role_of(model@.transitions[ti as int]),
                    ));
                }
            }
            ti = ti + 1;
        }

        let mut transitions: Vec<Transition> = Vec::new();
        let mut j: usize = 0;
        while j < nt
            invariant
                model_wf(model@),
                nt == model.transitions@.len(),
                na == model.arcs@.len(),
                size == model.places@.len(),
                j <= nt,
                transitions@.len() == j,
                forall|k: int|
                    0 <= k < j ==> (#[trigger] transitions_view(transitions@)[k]) == compiled_trans(
                        model@,
                        model@.transitions[k],
                    ),
            decreases nt - j,
        {
            let d = &model.transitions[j];
            let label: String = d.name.clone();
            let role: String = match &d.role {
                Some(r) => r.clone(),
                None => "default".to_owned(),
            };
            proof {
                assert(model@.transitions[j as int] == model.transitions@[j as int]@);
                assert(label@ == model@.transitions[j as int].name);
                assert(role@ == role_of(model@.transitions[j as int]));
            }
            let mut delta: Vec<i32> = zeros(size);
            let mut guards: Vec<(String, Guard)> = Vec::new();
            let mut ai: usize = 0;
            while ai < na
                invariant
                    model_wf(model@),
                    na == model.arcs@.len(),
                    size == model.places@.len(),
                    ai <= na,
                    j < model.transitions@.len(),
                    label@ == model@.transitions[j as int].name,
                    delta@.len() == size,
                    delta@ == spec_delta(model@, label@, ai as int),
                    guards_view(guards@) == spec_guards(model@, label@, ai as int),
                decreases na - ai,
            {
                let a = &model.arcs[ai];
                let weight: i32 = match a.weight {
                    Some(w) => w,
                    None => 1,
                };
                let consume: bool = match a.consume {
                    Some(b) => b,
                    None => false,
                };
                let produce: bool = match a.produce {
                    Some(b) => b,
                    None => false,
                };
                let inhibit: bool = match a.inhibit {
                    Some(b) => b,
                    None => false,
                };
                let read: bool = match a.read {
                    Some(b) => b,
                    None => false,
                };
                proof {
                    assert(model@.arcs[ai as int] == a@);
                    assert(arc_wf(model@, model@.arcs[ai as int]));
                    assert(weight as int == arc_weight(a@));
                    assert(consume == arc_consume(a@));
                    assert(produce == arc_produce(a@));
                    assert(inhibit == arc_inhibit(a@));
                    assert(read == arc_read(a@));
                }
                let tname: &String = if read || produce {
                    &a.source
                } else {
                    &a.target
                };
                if str_eq(tname.as_str(), label.as_str()) {
                    if inhibit {
                        let pname: &String = if read || produce {
                            &a.target
                        } else {
                            &a.source
                        };
                        proof {
                            assert(pname@ == arc_place_name(a@));
                        }
                        let pi: usize = find_place_at(&model.places, pname.as_str());
                        proof {
                            assert(place_wf(model@, model@.places[pi as int]));
                        }
                        let off: usize = model.places[pi].offset as usize;
                        let mut gdelta: Vec<i32> = zeros(size);
                        gdelta.set(off, 0 - weight);
                        proof {
                            assert(off as int == place_offset(model@, arc_place_name(a@)));
                            assert(gdelta@ == arc_guard(model@, a@).delta);
                        }
                        let gkey: String = a.target.clone();
                        insert_guard_exec(&mut guards, gkey, Guard { delta: gdelta, read });
                        proof {
                            assert(guards_view(guards@) == spec_guards(
                                model@,
                                label@,
                                ai as int + 1,
                            ));
                        }
                    } else if consume {
                        let si: usize = find_place_at(&model.places, a.source.as_str());
                        proof {
                            assert(place_wf(model@, model@.places[si as int]));
                        }
                        let off: usize = model.places[si].offset as usize;
                        delta.set(off, 0 - weight);
                        proof {
                            assert(off as int == place_offset(model@, a@.source));
                            assert(delta@ == spec_delta(model@, label@, ai as int + 1));
                        }
                    } else {
                        let pi2: usize = find_place_at(&model.places, a.target.as_str());
                        proof {
                            assert(place_wf(model@, model@.places[pi2 as int]));
                        }
                        let off: usize = model.places[pi2].offset as usize;
                        delta.set(off, weight);
                        proof {
                            assert(off as int == place_offset(model@, a@.target));
                            assert(delta@ == spec_delta(model@, label@, ai as int + 1));
                        }
                    }
                }
                ai = ai + 1;
            }
            let t = Transition { label, role, delta, guards, allow_reentry: false };
            proof {
                assert(t@ == compiled_trans(model@, model@.transitions[j as int]));
            }
            let ghost old_ts = transitions@;
            transitions.push(t);
            proof {
                assert forall|k: int| 0 <= k < transitions@.len() implies (#[trigger] transitions_view(
                    transitions@,
                )[k]) == compiled_trans(model@, model@.transitions[k]) by {
                    if k < old_ts.len() {
                        assert(transitions@[k] == old_ts[k]);
                        assert(transitions_view(old_ts)[k] == compiled_trans(
                            model@,
                            model@.transitions[k],
                        ));
                    } else {
                        assert(transitions@[k] == transitions@[transitions@.len() - 1]);
                    }
                }
            }
            j = j + 1;
        }

        let mut initial: Vec<i32> = zeros(size);
        let mut capacity: Vec<i32> = zeros(size);
        let mut place_names: Vec<String> = Vec::new();
        let mut k: usize = 0;
        while k < size
            invariant
                k <= size,
                place_names@.len() == k,
                forall|q: int| 0 <= q < k ==> (#[trigger] place_names@[q]@) == Seq::<char>::empty(),
            decreases size - k,
        {
            place_names.push(String::new());
            k = k + 1;
        }
        proof {
            assert(strings_view(place_names@) =~= spec_names(model@, 0));
        }
        let mut k2: usize = 0;
        while k2 < size
            invariant
                model_wf(model@),
                size == model.places@.len(),
                k2 <= size,
                initial@ == spec_initial(mt, model@, k2 as int),
                capacity@ == spec_capacity(mt, model@, k2 as int),
                strings_view(place_names@) == spec_names(model@, k2 as int),
                initial@.len() == size,
                capacity@.len() == size,
                place_names@.len() == size,
            decreases size - k2,
        {
            let p = &model.places[k2];
            proof {
                assert(model@.places[k2 as int] == model.places@[k2 as int]@);
                assert(place_wf(model@, model@.places[k2 as int]));
            }
            let iv: i32 = match p.initial {
                Some(v) => v,
                None => 0,
            };
            let init_v: i32 = match mt {
                ModelType::PetriNet => iv,
                ModelType::Elementary => if iv == 0 {
                    0
                } else {
                    1
                },
                ModelType::Workflow => if iv == 0 {
                    0
                } else {
                    1
                },
            };
            let cap_v: i32 = match mt {
                ModelType::PetriNet => match p.capacity {
                    Some(c) => c,
                    None => 0,
                },
                ModelType::Elementary => 1,
                ModelType::Workflow => 1,
            };
            let off: usize = p.offset as usize;
            initial.set(off, init_v);
            capacity.set(off, cap_v);
            place_names.set(off, p.name.clone());
            proof {
                assert(iv == place_initial(model@.places[k2 as int]));
                assert(init_v == init_slot(mt, place_initial(model@.places[k2 as int])));
                assert(cap_v == cap_slot(mt, model@.places[k2 as int]));
                assert(initial@ == spec_initial(mt, model@, k2 as int + 1));
                assert(capacity@ == spec_capacity(mt, model@, k2 as int + 1));
                assert(strings_view(place_names@) =~= spec_names(model@, k2 as int + 1));
            }
            k2 = k2 + 1;
        }

        StateMachine { model_type: mt, initial, capacity, places: place_names, transitions, roles }
    }

    /// Compiles a declared model; the entry point callers use to build a
    /// machine in one step.
    pub fn new(model: &PetriNet) -> (r: StateMachine)
        requires
            model_wf(model@),
        ensures
            r@.model_type == model_type_of(model@.model_type),
            r@.initial == spec_initial(model_type_of(model@.model_type), model@, model@.places.len() as int),
            r@.capacity == spec_capacity(model_type_of(model@.model_type), model@, model@.places.len() as int),
            r@.places == spec_names(model@, model@.places.len() as int),
            r@.transitions.len() == model@.transitions.len(),
            forall|k: int|
                0 <= k < model@.transitions.len() ==> (#[trigger] r@.transitions[k])
                    == compiled_trans(model@, model@.transitions[k]),
            r@.roles == spec_roles(model@.transitions, model@.transitions.len() as int),
    {
        Self::from_model(model)
    }
}

} // verus!

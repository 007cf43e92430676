//! TD(lambda) prediction and control over the tabular containers.
//!
//! The online step is deterministic given the sampled transition: decay
//! every eligibility trace by lambda and bump the visited cell by one,
//! form the TD error `reward + V(next) - V(current)`, then sweep the
//! whole table, moving every cell by `alpha(cell) * error * trace(cell)`
//! with `alpha(cell) = 1 / (10 + visits(cell))`.  Each step is stated
//! exactly as a spec-level function of the tables before it; a step
//! whose exact arithmetic does not fit is reported and changes nothing.

use vstd::prelude::*;

use crate::env::Action;
use crate::env::Deck;
use crate::env::State;
use crate::env::lemma_stick_bounds;
use crate::env::step_drawn;
use crate::learn::Cell;
use crate::learn::HasQ;
use crate::learn::cell_wf;
use crate::learn::cells_wf;
use crate::learn::epsilon_greedy;
use crate::rat::Rat;
use crate::rat::fits;
use crate::rat::rat_add;
use crate::rat::rat_eq;
use crate::rat::rat_lt;
use crate::rat::rat_mul;
use crate::rat::rat_neg;
use crate::rat::rat_of;
use crate::table::Q;
use crate::table::V;
use crate::table::in_table;
use crate::table::q_index;
use crate::table::v_index;

verus! {

pub open spec fn rats_wf(e: Seq<Rat>) -> bool {
    forall|i: int| 0 <= i < e.len() ==> (#[trigger] e[i]).wf()
}

/// One eligibility-trace step: every trace decays by `lam`, then the
/// cell at `ix` grows by one.  `None` where an exact fraction would
/// leave the representable range.
pub open spec fn trace_step(e: Seq<Rat>, lam: (int, int), ix: int) -> Option<Seq<Rat>> {
    if forall|i: int| 0 <= i < e.len() ==> fits(rat_mul(lam, (#[trigger] e[i])@)) {
        let e1 = Seq::new(e.len(), |i: int| rat_of(rat_mul(lam, e[i]@)));
        let bumped = rat_add(e1[ix]@, (1, 1));
        if fits(bumped) {
            Some(e1.update(ix, rat_of(bumped)))
        } else {
            None
        }
    } else {
        None
    }
}

/// `lam` to the `k`th power, as an exact fraction.
pub open spec fn rat_pow(p: (int, int), k: nat) -> (int, int)
    decreases k,
{
    if k == 0 {
        (1, 1)
    } else {
        rat_mul(p, rat_pow(p, (k - 1) as nat))
    }
}

proof fn lemma_rat_pow_den(p: (int, int), k: nat)
    requires
        p.1 >= 1,
    ensures
        rat_pow(p, k).1 >= 1,
    decreases k,
{
    if k > 0 {
        lemma_rat_pow_den(p, (k - 1) as nat);
        crate::rat::lemma_mul_eqv(p, rat_pow(p, (k - 1) as nat));
    }
}

/// Trace steps folded over the visited cells of successive
/// transitions.
pub open spec fn trace_steps(e: Seq<Rat>, lam: (int, int), ixs: Seq<int>) -> Option<Seq<Rat>>
    decreases ixs.len(),
{
    if ixs.len() == 0 {
        Some(e)
    } else {
        match trace_step(e, lam, ixs[0]) {
            Some(e2) => trace_steps(e2, lam, ixs.drop_first()),
            None => None,
        }
    }
}

/// A trace step leaves every unvisited cell exactly decayed by `lam`,
/// and keeps every trace in range.
proof fn lemma_trace_step_other(e: Seq<Rat>, lam: (int, int), ix: int, e2: Seq<Rat>, c: int)
    requires
        trace_step(e, lam, ix) == Some(e2),
        0 <= c < e.len(),
        0 <= ix < e.len(),
        c != ix,
    ensures
        e2.len() == e.len(),
        e2[c]@ == rat_mul(lam, e[c]@),
        fits(rat_mul(lam, e[c]@)),
        rats_wf(e2),
{
    assert(fits(rat_mul(lam, e[c]@)));
    let e1 = Seq::new(e.len(), |i: int| rat_of(rat_mul(lam, e[i]@)));
    assert(e2 == e1.update(ix, rat_of(rat_add(e1[ix]@, (1, 1)))));
    assert(e2[c] == rat_of(rat_mul(lam, e[c]@)));
    assert forall|i: int| 0 <= i < e2.len() implies (#[trigger] e2[i]).wf() by {
        if i != ix {
            assert(e2[i] == rat_of(rat_mul(lam, e[i]@)));
            assert(fits(rat_mul(lam, e[i]@)));
        } else {
            assert(fits(rat_add(e1[ix]@, (1, 1))));
        }
    }
}

/// Exponential decay of an untouched trace: after `k` steps none of
/// which visit cell `c`, that cell's trace is exactly its old value
/// multiplied by `lam^k`.
pub proof fn lemma_trace_decay(e: Seq<Rat>, lam: (int, int), ixs: Seq<int>, c: int)
    requires
        rats_wf(e),
        1 <= lam.1,
        0 <= c < e.len(),
        forall|j: int| 0 <= j < ixs.len() ==> 0 <= #[trigger] ixs[j] < e.len() && ixs[j] != c,
    ensures
        trace_steps(e, lam, ixs) matches Some(e2) ==> e2.len() == e.len() && rat_eq(
            e2[c]@,
            rat_mul(rat_pow(lam, ixs.len()), e[c]@),
        ),
    decreases ixs.len(),
{
    if ixs.len() == 0 {
        let x = e[c]@;
        assert(e[c].wf());
        assert(rat_eq(x, rat_mul((1, 1), x))) by (nonlinear_arith)
            requires x.1 >= 1;
    } else {
        match trace_step(e, lam, ixs[0]) {
            Some(e2) => {
                lemma_trace_step_other(e, lam, ixs[0], e2, c);
                assert(forall|j: int| 0 <= j < ixs.drop_first().len()
                    ==> 0 <= #[trigger] ixs.drop_first()[j] < e2.len() && ixs.drop_first()[j] != c);
                lemma_trace_decay(e2, lam, ixs.drop_first(), c);
                match trace_steps(e2, lam, ixs.drop_first()) {
                    Some(ef) => {
                        let k1 = ixs.drop_first().len();
                        let pow1 = rat_pow(lam, k1);
                        let ec = e[c]@;
                        lemma_rat_pow_den(lam, k1);
                        assert(e[c].wf());
                        // the one decayed step, then the remaining k-1
                        assert(rat_eq(ef[c]@, rat_mul(pow1, rat_mul(lam, ec))));
                        crate::rat::lemma_mul_assoc_eqv(pow1, lam, ec);
                        assert(rat_mul(pow1, lam) == rat_mul(lam, pow1)) by (nonlinear_arith);
                        crate::rat::lemma_mul_eqv(pow1, rat_mul(lam, ec));
                        crate::rat::lemma_mul_eqv(lam, ec);
                        crate::rat::lemma_mul_eqv(pow1, lam);
                        crate::rat::lemma_mul_eqv(rat_mul(pow1, lam), ec);
                        crate::rat::lemma_rat_eq_trans(
                            ef[c]@,
                            rat_mul(pow1, rat_mul(lam, ec)),
                            rat_mul(rat_mul(lam, pow1), ec),
                        );
                        assert(rat_pow(lam, ixs.len()) == rat_mul(lam, pow1));
                    },
                    None => {},
                }
            },
            None => {},
        }
    }
}

/// Decay the traces and bump the visited cell, building the new table.
fn trace_step_apply(e: &Vec<Rat>, lam: Rat, ix: usize) -> (r: Option<Vec<Rat>>)
    requires
        rats_wf(e@),
        lam.wf(),
        ix < e@.len(),
    ensures
        r is Some <==> trace_step(e@, lam@, ix as int) is Some,
        r matches Some(e2) ==> Some(e2@) == trace_step(e@, lam@, ix as int) && rats_wf(e2@)
            && e2@.len() == e@.len(),
{
    let mut out: Vec<Rat> = Vec::new();
    let mut i: usize = 0;
    while i < e.len()
        invariant
            rats_wf(e@),
            lam.wf(),
            i <= e@.len(),
            out@.len() == i,
            forall|j: int| 0 <= j < i ==> fits(rat_mul(lam@, (#[trigger] e@[j])@))
                && out@[j] == rat_of(rat_mul(lam@, e@[j]@)),
            forall|j: int| 0 <= j < i ==> (#[trigger] out@[j]).wf(),
        decreases e@.len() - i,
    {
        match lam.mul(e[i]) {
            Some(d) => {
                out.push(d);
            },
            None => {
                return None;
            },
        }
        i = i + 1;
    }
    proof {
        assert(out@ =~= Seq::new(e@.len() as nat, |i: int| rat_of(rat_mul(lam@, e@[i]@))));
    }
    match out[ix].add(Rat::one()) {
        Some(b) => {
            let mut out2 = out;
            out2.set(ix, b);
            proof {
                assert(Some(out2@) == trace_step(e@, lam@, ix as int));
            }
            Some(out2)
        },
        None => None,
    }
}

/// The full-table value sweep: every cell moves toward the TD error by
/// its own step size, `val' = val + (1 / (10 + n)) * delta * trace`.
/// Visit counts do not change here.
pub open spec fn value_sweep(v: Seq<Cell>, e: Seq<Rat>, delta: (int, int)) -> Option<Seq<Cell>> {
    if forall|i: int| 0 <= i < v.len() ==> sweep_cell_fits(#[trigger] v[i], e[i], delta) {
        Some(Seq::new(v.len(), |i: int| sweep_cell(v[i], e[i], delta)))
    } else {
        None
    }
}

/// The exact fractions one swept cell goes through all fit.
pub open spec fn sweep_cell_fits(c: Cell, t: Rat, delta: (int, int)) -> bool {
    let de = rat_mul(delta, t@);
    let term = rat_mul((1, 10 + c.n), de);
    let nv = rat_add(c.val@, term);
    &&& fits(de)
    &&& fits(term)
    &&& fits(nv)
}

/// One swept cell (meaningful when its fractions fit).
pub open spec fn sweep_cell(c: Cell, t: Rat, delta: (int, int)) -> Cell {
    let de = rat_mul(delta, t@);
    let term = rat_mul((1, 10 + c.n), de);
    let nv = rat_add(c.val@, term);
    Cell { val: rat_of(nv), n: c.n }
}

/// Sweep a whole cell table against its trace table.
fn value_sweep_apply(v: &Vec<Cell>, e: &Vec<Rat>, delta: Rat) -> (r: Option<Vec<Cell>>)
    requires
        cells_wf(v@),
        rats_wf(e@),
        delta.wf(),
        e@.len() == v@.len(),
    ensures
        r is Some <==> value_sweep(v@, e@, delta@) is Some,
        r matches Some(v2) ==> Some(v2@) == value_sweep(v@, e@, delta@) && cells_wf(v2@)
            && v2@.len() == v@.len(),
{
    let mut out: Vec<Cell> = Vec::new();
    let mut i: usize = 0;
    while i < v.len()
        invariant
            cells_wf(v@),
            rats_wf(e@),
            delta.wf(),
            e@.len() == v@.len(),
            i <= v@.len(),
            out@.len() == i,
            forall|j: int| 0 <= j < i ==> sweep_cell_fits(#[trigger] v@[j], e@[j], delta@)
                && out@[j] == sweep_cell(v@[j], e@[j], delta@),
            forall|j: int| 0 <= j < i ==> cell_wf(#[trigger] out@[j]),
        decreases v@.len() - i,
    {
        let c = v[i];
        let alpha = match Rat::new(1, 10 + c.n as i64) {
            Some(a) => a,
            None => {
                // the denominator is at least ten, so this cannot happen
                proof {
                    assert(10 + c.n as i64 != 0);
                }
                return None;
            },
        };
        let de = match delta.mul(e[i]) {
            Some(x) => x,
            None => {
                return None;
            },
        };
        let term = match alpha.mul(de) {
            Some(x) => x,
            None => {
                return None;
            },
        };
        let nv = match c.val.add(term) {
            Some(x) => x,
            None => {
                return None;
            },
        };
        out.push(Cell { val: nv, n: c.n });
        i = i + 1;
    }
    proof {
        assert(out@ =~= Seq::new(v@.len() as nat, |i: int| sweep_cell(v@[i], e@[i], delta@)));
    }
    Some(out)
}

/// One TD(lambda) prediction step on the value and trace tables, for
/// the sampled transition `s -> ns` with the given reward: traces decay
/// and the visited state's trace grows by one; every value moves by its
/// step size times the TD error times its trace; the visited state's
/// visit count grows by one.
pub open spec fn td_step(
    v: Seq<Cell>,
    e: Seq<Rat>,
    lam: (int, int),
    s: State,
    ns: State,
    reward: int,
) -> Option<(Seq<Cell>, Seq<Rat>)> {
    if !in_table(s) || !in_table(ns) {
        None
    } else {
        match trace_step(e, lam, v_index(s)) {
            Some(e2) => {
                let inner = rat_add((reward, 1), v[v_index(ns)].val@);
                let delta = rat_add(inner, rat_neg(v[v_index(s)].val@));
                if fits(inner) && fits(delta) {
                    match value_sweep(v, e2, delta) {
                        Some(v2) => {
                            let c = v2[v_index(s)];
                            if c.n == i32::MAX {
                                None
                            } else {
                                Some(
                                    (
                                        v2.update(v_index(s), Cell { val: c.val, n: (c.n + 1) as i32 }),
                                        e2,
                                    ),
                                )
                            }
                        },
                        None => None,
                    }
                } else {
                    None
                }
            },
            None => None,
        }
    }
}

/// Apply one TD(lambda) prediction step.  `true` exactly when the exact
/// step fits; on `false` nothing changed.
pub fn td_step_apply(
    v: &mut V<Cell>,
    e: &mut V<Rat>,
    lam: Rat,
    s: State,
    ns: State,
    reward: i32,
) -> (ok: bool)
    requires
        old(v).wf(),
        cells_wf(old(v)@),
        old(e)@.len() == old(v)@.len(),
        rats_wf(old(e)@),
        lam.wf(),
        in_table(s),
        in_table(ns),
    ensures
        final(v).wf(),
        cells_wf(final(v)@),
        final(e)@.len() == final(v)@.len(),
        rats_wf(final(e)@),
        ok <==> td_step(old(v)@, old(e)@, lam@, s, ns, reward as int) is Some,
        ok ==> Some((final(v)@, final(e)@)) == td_step(old(v)@, old(e)@, lam@, s, ns, reward as int),
        !ok ==> final(v)@ == old(v)@ && final(e)@ == old(e)@,
{
    proof {
        crate::table::lemma_v_index_bounds(s);
        crate::table::lemma_v_index_bounds(ns);
    }
    let ix = V::<Cell>::index(&s);
    let e2 = match trace_step_apply(&e.0, lam, ix) {
        Some(e2) => e2,
        None => {
            return false;
        },
    };
    let vnext = v.get(&ns).val;
    let vcur = v.get(&s).val;
    let inner = match Rat::from_int(reward as i64).add(vnext) {
        Some(x) => x,
        None => {
            return false;
        },
    };
    let delta = match inner.add(vcur.neg()) {
        Some(x) => x,
        None => {
            return false;
        },
    };
    let v2 = match value_sweep_apply(&v.0, &e2, delta) {
        Some(v2) => v2,
        None => {
            return false;
        },
    };
    let mut v2 = V(v2);
    let c = v2.get(&s);
    if c.n == i32::MAX {
        return false;
    }
    v2.set(&s, Cell { val: c.val, n: c.n + 1 });
    *v = v2;
    *e = V(e2);
    true
}

/// TD(lambda) prediction state: a value table, its eligibility traces,
/// and an episode counter.
#[derive(Clone)]
pub struct TDState {
    pub v: V<Cell>,
    pub eligibility_traces: V<Rat>,
    pub episodes: i32,
}

impl TDState {
    pub open spec fn wf(&self) -> bool {
        &&& self.v.wf()
        &&& cells_wf(self.v@)
        &&& self.eligibility_traces@.len() == self.v@.len()
        &&& rats_wf(self.eligibility_traces@)
        &&& 0 <= self.episodes
    }

    /// A fresh learner: all estimates and traces zero, no episodes run.
    pub fn init() -> (r: TDState)
        ensures
            r.wf(),
            r.episodes == 0,
            forall|i: int| 0 <= i < r.v@.len()
                ==> (#[trigger] r.v@[i]).val@ == (0int, 1int) && r.v@[i].n == 0,
    {
        TDState { v: V::init(Cell::zero()), eligibility_traces: V::init(Rat::zero()), episodes: 0 }
    }

    /// The value estimate for a state.
    pub fn get_v(&self, state: &State) -> (r: Rat)
        requires
            self.wf(),
            in_table(*state),
        ensures
            r == self.v@[v_index(*state)].val,
            r.wf(),
    {
        self.v.get(state).val
    }
}

impl crate::learn::HasV for TDState {
    open spec fn hv_wf(&self) -> bool {
        self.wf()
    }

    fn get_v(&self, state: &State) -> (r: Option<Rat>) {
        Some(TDState::get_v(self, state))
    }
}

/// Run one episode under `policy`, updating the value table online
/// after every environment step by the exact TD(lambda) rule `td_step`
/// (traces freshly zeroed at the start).
///
/// On `true` a whole episode ran and the episode counter grew by one
/// (saturating).  On `false` the card budget or the representation gave
/// out mid-episode; the steps already taken stand, as they would
/// online, and the counter is unchanged.
pub fn td_lambda_prediction<P: Fn(&State) -> Action>(
    lambda: Rat,
    policy: &P,
    td_state: &mut TDState,
) -> (ok: bool)
    requires
        old(td_state).wf(),
        lambda.wf(),
        forall|s: &State| s.playable() ==> call_requires(*policy, (s,)),
    ensures
        final(td_state).wf(),
        ok ==> final(td_state).episodes
            == (if old(td_state).episodes == i32::MAX { i32::MAX as int } else { old(td_state).episodes + 1 }),
        !ok ==> final(td_state).episodes == old(td_state).episodes,
{
    td_state.eligibility_traces = V::init(Rat::zero());
    let mut deck = Deck::fresh(192);
    let c1 = deck.take();
    let c2 = deck.take();
    let mut state = State { dealer: c1.value, player: c2.value };
    loop
        invariant
            td_state.wf(),
            td_state.episodes == old(td_state).episodes,
            lambda.wf(),
            deck.wf(),
            state.playable(),
            forall|s: &State| s.playable() ==> call_requires(*policy, (s,)),
        decreases deck.remaining().len(),
    {
        let action = policy(&state);
        let ghost rem0 = deck.remaining();
        match step_drawn(state, action, &mut deck) {
            None => {
                return false;
            },
            Some(sample) => {
                let ns = sample.state;
                proof {
                    if action == Action::Stick {
                        lemma_stick_bounds(state.player as int, state.dealer as int, rem0);
                    }
                }
                let stepped = td_step_apply(
                    &mut td_state.v,
                    &mut td_state.eligibility_traces,
                    lambda,
                    state,
                    ns,
                    sample.reward,
                );
                if !stepped {
                    return false;
                }
                if sample.terminal {
                    if td_state.episodes < i32::MAX {
                        td_state.episodes = td_state.episodes + 1;
                    }
                    return true;
                }
                state = ns;
            },
        }
    }
}

/// One TD(lambda) control (SARSA) step: traces decay and the taken
/// `(state, action)` cell's trace grows by one; the TD error compares
/// the taken pair against the pair chosen for the next state; the whole
/// action-value table is swept; the taken pair's visit count grows; and
/// the state's value becomes its better action value, with its own
/// visit count grown.
pub open spec fn td_control_step(
    v: Seq<Cell>,
    q: Seq<Cell>,
    e: Seq<Rat>,
    lam: (int, int),
    s: State,
    a: Action,
    ns: State,
    na: Action,
    reward: int,
) -> Option<(Seq<Cell>, Seq<Cell>, Seq<Rat>)> {
    if !in_table(s) || !in_table(ns) {
        None
    } else {
        match trace_step(e, lam, q_index(s, a)) {
            Some(e2) => {
                let inner = rat_add((reward, 1), q[q_index(ns, na)].val@);
                let delta = rat_add(inner, rat_neg(q[q_index(s, a)].val@));
                if fits(inner) && fits(delta) {
                    match value_sweep(q, e2, delta) {
                        Some(q2) => {
                            let qc = q2[q_index(s, a)];
                            if qc.n == i32::MAX {
                                None
                            } else {
                                let q3 = q2.update(q_index(s, a), Cell { val: qc.val, n: (qc.n + 1) as i32 });
                                let qh = q3[q_index(s, Action::Hit)].val;
                                let qs = q3[q_index(s, Action::Stick)].val;
                                let best = if rat_lt(qs@, qh@) {
                                    qh
                                } else {
                                    qs
                                };
                                let vc = v[v_index(s)];
                                if vc.n == i32::MAX {
                                    None
                                } else {
                                    Some(
                                        (
                                            v.update(v_index(s), Cell { val: best, n: (vc.n + 1) as i32 }),
                                            q3,
                                            e2,
                                        ),
                                    )
                                }
                            }
                        },
                        None => None,
                    }
                } else {
                    None
                }
            },
            None => None,
        }
    }
}

/// Apply one TD(lambda) control step.  `true` exactly when the exact
/// step fits; on `false` nothing changed.
pub fn td_control_step_apply(
    v: &mut V<Cell>,
    q: &mut Q<Cell>,
    e: &mut Q<Rat>,
    lam: Rat,
    s: State,
    a: Action,
    ns: State,
    na: Action,
    reward: i32,
) -> (ok: bool)
    requires
        old(v).wf(),
        cells_wf(old(v)@),
        old(q).wf(),
        cells_wf(old(q)@),
        old(e)@.len() == old(q)@.len(),
        rats_wf(old(e)@),
        lam.wf(),
        in_table(s),
        in_table(ns),
    ensures
        final(v).wf(),
        cells_wf(final(v)@),
        final(q).wf(),
        cells_wf(final(q)@),
        final(e)@.len() == final(q)@.len(),
        rats_wf(final(e)@),
        ok <==> td_control_step(old(v)@, old(q)@, old(e)@, lam@, s, a, ns, na, reward as int) is Some,
        ok ==> Some((final(v)@, final(q)@, final(e)@))
            == td_control_step(old(v)@, old(q)@, old(e)@, lam@, s, a, ns, na, reward as int),
        !ok ==> final(v)@ == old(v)@ && final(q)@ == old(q)@ && final(e)@ == old(e)@,
{
    proof {
        crate::table::lemma_v_index_bounds(s);
        crate::table::lemma_v_index_bounds(ns);
    }
    let ix = Q::<Cell>::index(&s, &a);
    let e2 = match trace_step_apply(&e.0, lam, ix) {
        Some(e2) => e2,
        None => {
            return false;
        },
    };
    let qnext = q.get(&ns, &na).val;
    let qcur = q.get(&s, &a).val;
    let inner = match Rat::from_int(reward as i64).add(qnext) {
        Some(x) => x,
        None => {
            return false;
        },
    };
    let delta = match inner.add(qcur.neg()) {
        Some(x) => x,
        None => {
            return false;
        },
    };
    let q2 = match value_sweep_apply(&q.0, &e2, delta) {
        Some(q2) => q2,
        None => {
            return false;
        },
    };
    let mut q2 = Q(q2);
    let qc = q2.get(&s, &a);
    if qc.n == i32::MAX {
        return false;
    }
    q2.set(&s, &a, Cell { val: qc.val, n: qc.n + 1 });
    let q_hit = q2.get(&s, &Action::Hit).val;
    let q_stick = q2.get(&s, &Action::Stick).val;
    let best = q_hit.max(q_stick);
    let vc = v.get(&s);
    if vc.n == i32::MAX {
        return false;
    }
    v.set(&s, Cell { val: best, n: vc.n + 1 });
    *q = q2;
    *e = Q(e2);
    true
}

/// The running sum of squared differences between stored estimates and
/// a reference table, over the first `k` cells.
pub open spec fn sq_err_fold(q: Seq<Cell>, o: Seq<Rat>, k: int) -> Option<(int, int)>
    decreases k,
{
    if k <= 0 {
        Some((0, 1))
    } else {
        match sq_err_fold(q, o, k - 1) {
            Some(acc) => {
                let d = rat_add(q[k - 1].val@, rat_neg(o[k - 1]@));
                let sq = rat_mul(d, d);
                let s = rat_add(acc, sq);
                if fits(d) && fits(sq) && fits(s) {
                    Some(s)
                } else {
                    None
                }
            },
            None => None,
        }
    }
}

impl Q<Cell> {
    /// The summed squared error of the stored action values against a
    /// reference table of optimal values, exact, or `None` where the
    /// exact sum leaves the representable range.
    pub fn rms_error(&self, optimal: &Q<Rat>) -> (r: Option<Rat>)
        requires
            self.wf(),
            cells_wf(self@),
            optimal@.len() == self@.len(),
            rats_wf(optimal@),
        ensures
            r is Some <==> sq_err_fold(self@, optimal@, self@.len() as int) is Some,
            r matches Some(x) ==> x.wf() && sq_err_fold(self@, optimal@, self@.len() as int)
                == Some(x@),
    {
        let mut acc = Rat::zero();
        let mut k: usize = 0;
        while k < self.0.len()
            invariant
                self.wf(),
                cells_wf(self@),
                optimal@.len() == self@.len(),
                rats_wf(optimal@),
                k <= self@.len(),
                acc.wf(),
                sq_err_fold(self@, optimal@, k as int) == Some(acc@),
            decreases self@.len() - k,
        {
            let d = match self.0[k].val.add(optimal.0[k].neg()) {
                Some(x) => x,
                None => {
                    proof {
                        assert(sq_err_fold(self@, optimal@, k + 1) is None);
                        lemma_sq_err_none(self@, optimal@, k + 1, self@.len() as int);
                    }
                    return None;
                },
            };
            let sq = match d.mul(d) {
                Some(x) => x,
                None => {
                    proof {
                        assert(sq_err_fold(self@, optimal@, k + 1) is None);
                        lemma_sq_err_none(self@, optimal@, k + 1, self@.len() as int);
                    }
                    return None;
                },
            };
            acc = match acc.add(sq) {
                Some(x) => x,
                None => {
                    proof {
                        assert(sq_err_fold(self@, optimal@, k + 1) is None);
                        lemma_sq_err_none(self@, optimal@, k + 1, self@.len() as int);
                    }
                    return None;
                },
            };
            k = k + 1;
        }
        Some(acc)
    }
}

/// A failed prefix of the squared-error sum fails every longer prefix.
proof fn lemma_sq_err_none(q: Seq<Cell>, o: Seq<Rat>, k: int, n: int)
    requires
        sq_err_fold(q, o, k) is None,
        k <= n,
    ensures
        sq_err_fold(q, o, n) is None,
    decreases n - k,
{
    if k < n {
        lemma_sq_err_none(q, o, k + 1, n);
    }
}

/// TD(lambda) control state: action values, derived state values, the
/// traces, an episode counter, the latest error metric, and the
/// reference table the metric compares against (all zeros until the
/// caller supplies one).
#[derive(Clone)]
pub struct TDControlState {
    pub v: V<Cell>,
    pub q: Q<Cell>,
    pub eligibility_traces: Q<Rat>,
    pub episodes: i32,
    pub rms_error: Rat,
    pub optimal: Q<Rat>,
}

impl TDControlState {
    pub open spec fn wf(&self) -> bool {
        &&& self.v.wf()
        &&& cells_wf(self.v@)
        &&& self.q.wf()
        &&& cells_wf(self.q@)
        &&& self.eligibility_traces@.len() == self.q@.len()
        &&& rats_wf(self.eligibility_traces@)
        &&& 0 <= self.episodes
        &&& self.rms_error.wf()
        &&& self.optimal@.len() == self.q@.len()
        &&& rats_wf(self.optimal@)
    }

    /// A fresh learner: everything zero, no episodes run.
    pub fn init() -> (r: TDControlState)
        ensures
            r.wf(),
            r.episodes == 0,
    {
        TDControlState {
            v: V::init(Cell::zero()),
            q: Q::init(Cell::zero()),
            eligibility_traces: Q::init(Rat::zero()),
            episodes: 0,
            rms_error: Rat::zero(),
            optimal: Q::init(Rat::zero()),
        }
    }

    /// The greedy action: `Hit` exactly when its action value is the
    /// strictly larger.
    pub fn policy(&self, state: &State) -> (r: Action)
        requires
            self.wf(),
            in_table(*state),
        ensures
            r == (if rat_lt(
                self.q@[q_index(*state, Action::Stick)].val@,
                self.q@[q_index(*state, Action::Hit)].val@,
            ) {
                Action::Hit
            } else {
                Action::Stick
            }),
    {
        let q_hit = self.q.get(state, &Action::Hit).val;
        let q_stick = self.q.get(state, &Action::Stick).val;
        if q_stick.lt(&q_hit) {
            Action::Hit
        } else {
            Action::Stick
        }
    }

    /// The value estimate for a state.
    pub fn get_v(&self, state: &State) -> (r: Rat)
        requires
            self.wf(),
            in_table(*state),
        ensures
            r == self.v@[v_index(*state)].val,
            r.wf(),
    {
        self.v.get(state).val
    }
}

impl crate::learn::HasV for TDControlState {
    open spec fn hv_wf(&self) -> bool {
        self.wf()
    }

    fn get_v(&self, state: &State) -> (r: Option<Rat>) {
        Some(TDControlState::get_v(self, state))
    }
}

/// The exploration rate for a cell visited `n` times:
/// `1 / (10 + n / 10000)`, exactly `10000 / (100000 + n)`.
fn control_eps(n: i32) -> (r: Rat)
    requires
        0 <= n,
    ensures
        r.wf(),
        r@ == (10000int, 100000 + n as int),
{
    match Rat::new(10000, 100000 + n as i64) {
        Some(e) => e,
        None => {
            // the denominator is positive, so this cannot happen
            proof {
                assert(100000 + n as i64 != 0);
            }
            Rat::zero()
        },
    }
}

/// Run one episode of TD(lambda) control (SARSA): actions are chosen
/// epsilon-greedily from the action values with the exploration rate
/// decaying in the visit count, and after every environment step the
/// tables move by the exact `td_control_step` rule (traces freshly
/// zeroed at the start).  Every thousandth completed episode refreshes
/// the stored error metric against the reference table, where that sum
/// is exactly representable.
///
/// On `true` a whole episode ran and the episode counter grew by one
/// (saturating).  On `false` the card budget or the representation gave
/// out mid-episode; the steps already taken stand and the counter is
/// unchanged.
pub fn td_lambda_control(lambda: Rat, td_state: &mut TDControlState) -> (ok: bool)
    requires
        old(td_state).wf(),
        lambda.wf(),
    ensures
        final(td_state).wf(),
        ok ==> final(td_state).episodes
            == (if old(td_state).episodes == i32::MAX { i32::MAX as int } else { old(td_state).episodes + 1 }),
        !ok ==> final(td_state).episodes == old(td_state).episodes,
{
    td_state.eligibility_traces = Q::init(Rat::zero());
    let mut deck = Deck::fresh(192);
    let c1 = deck.take();
    let c2 = deck.take();
    let mut state = State { dealer: c1.value, player: c2.value };
    let eps = control_eps(td_state.v.get(&state).n);
    let mut action = epsilon_greedy(eps, &td_state.q, &state);
    loop
        invariant
            td_state.wf(),
            td_state.episodes == old(td_state).episodes,
            lambda.wf(),
            deck.wf(),
            state.playable(),
        decreases deck.remaining().len(),
    {
        let ghost rem0 = deck.remaining();
        match step_drawn(state, action, &mut deck) {
            None => {
                return false;
            },
            Some(sample) => {
                let ns = sample.state;
                proof {
                    if action == Action::Stick {
                        lemma_stick_bounds(state.player as int, state.dealer as int, rem0);
                    }
                }
                let eps = control_eps(td_state.v.get(&ns).n);
                let next_action = epsilon_greedy(eps, &td_state.q, &ns);
                let stepped = td_control_step_apply(
                    &mut td_state.v,
                    &mut td_state.q,
                    &mut td_state.eligibility_traces,
                    lambda,
                    state,
                    action,
                    ns,
                    next_action,
                    sample.reward,
                );
                if !stepped {
                    return false;
                }
                if sample.terminal {
                    if td_state.episodes < i32::MAX {
                        td_state.episodes = td_state.episodes + 1;
                    }
                    if td_state.episodes % 1000 == 0 {
                        match td_state.q.rms_error(&td_state.optimal) {
                            Some(err) => {
                                td_state.rms_error = err;
                            },
                            None => {},
                        }
                    }
                    return true;
                }
                state = ns;
                action = next_action;
            },
        }
    }
}

} // verus!

//! The Easy21 learners.
//!
//! Every update rule is stated exactly over rational arithmetic: a
//! learner's table after a step is a spec-level fold of the step's
//! inputs over the table before it.  Episode generation draws random
//! cards, so the per-episode entry points promise what holds of every
//! draw and leave the exact evolution to the deterministic cores.

use vstd::prelude::*;

use crate::env::Action;
use crate::env::State;
use crate::env::Deck;
use crate::env::episode;
use crate::env::random_below;
use crate::rat::Rat;
use crate::rat::fits;
use crate::rat::rat_add;
use crate::rat::rat_div;
use crate::rat::rat_eq;
use crate::rat::rat_lt;
use crate::rat::rat_neg;
use crate::table::Q;
use crate::table::V;
use crate::table::in_table;
use crate::table::q_index;
use crate::table::v_index;

verus! {

/// One tabular cell: the running value estimate and its visit count.
#[derive(Clone, Copy, Debug)]
pub struct Cell {
    pub val: Rat,
    pub n: i32,
}

pub open spec fn cell_wf(c: Cell) -> bool {
    &&& c.val.wf()
    &&& 0 <= c.n
}

pub open spec fn cells_wf(t: Seq<Cell>) -> bool {
    forall|i: int| 0 <= i < t.len() ==> cell_wf(#[trigger] t[i])
}

impl Cell {
    /// The fresh cell: estimate zero, never visited.
    pub fn zero() -> (r: Cell)
        ensures
            cell_wf(r),
            r.val@ == (0int, 1int),
            r.n == 0,
    {
        Cell { val: Rat::zero(), n: 0 }
    }
}

/// The incremental-mean update of one cell toward `reward`:
/// `n' = n + 1`, `val' = val + (reward - val) / n'`.  `None` where a
/// count or an exact fraction leaves the representable range.
pub open spec fn mc_cell_next(c: Cell, reward: int) -> Option<Cell> {
    if c.n == i32::MAX {
        None
    } else {
        let n2 = c.n + 1;
        let diff = rat_add((reward, 1), rat_neg(c.val@));
        let q = rat_div(diff, (n2, 1));
        let nv = rat_add(c.val@, q);
        if fits(diff) && fits(q) && fits(nv) {
            Some(Cell { val: Rat { num: nv.0 as i128, den: nv.1 as i128 }, n: n2 as i32 })
        } else {
            None
        }
    }
}

/// Apply the incremental-mean update to one cell.
pub fn mc_cell_update(c: Cell, reward: i32) -> (r: Option<Cell>)
    requires
        cell_wf(c),
    ensures
        r == mc_cell_next(c, reward as int),
        r matches Some(c2) ==> cell_wf(c2),
{
    if c.n == i32::MAX {
        return None;
    }
    let n2 = c.n + 1;
    let rr = Rat::from_int(reward as i64);
    let diff = match rr.add(c.val.neg()) {
        Some(d) => d,
        None => {
            return None;
        },
    };
    let q = match diff.div(Rat::from_int(n2 as i64)) {
        Some(q) => q,
        None => {
            return None;
        },
    };
    match c.val.add(q) {
        Some(nv) => Some(Cell { val: nv, n: n2 }),
        None => None,
    }
}

/// The incremental-mean update folded over a list of visited states,
/// front to back, all toward the same terminal reward.
pub open spec fn mc_fold(t: Seq<Cell>, visited: Seq<State>, reward: int) -> Option<Seq<Cell>>
    decreases visited.len(),
{
    if visited.len() == 0 {
        Some(t)
    } else if !in_table(visited[0]) {
        None
    } else {
        match mc_cell_next(t[v_index(visited[0])], reward) {
            Some(c2) => mc_fold(t.update(v_index(visited[0]), c2), visited.drop_first(), reward),
            None => None,
        }
    }
}

pub open spec fn states_of(sa: Seq<(State, Action)>) -> Seq<State> {
    sa.map_values(|p: (State, Action)| p.0)
}

/// Fold the incremental-mean update over every visited state, in place.
/// `true` exactly when the whole fold fits; on `false` the updates made
/// before the failing one stand, as they would online.
pub fn mc_apply(v: &mut V<Cell>, visited: &Vec<(State, Action)>, reward: i32) -> (ok: bool)
    requires
        old(v).wf(),
        cells_wf(old(v)@),
        forall|i: int| 0 <= i < visited@.len() ==> (#[trigger] visited@[i]).0.playable(),
    ensures
        final(v).wf(),
        cells_wf(final(v)@),
        ok <==> mc_fold(old(v)@, states_of(visited@), reward as int) is Some,
        ok ==> Some(final(v)@) == mc_fold(old(v)@, states_of(visited@), reward as int),
{
    let ghost t0 = old(v)@;
    let ghost all = states_of(visited@);
    let mut i: usize = 0;
    proof {
        assert(all.skip(0) =~= all);
    }
    while i < visited.len()
        invariant
            v.wf(),
            cells_wf(v@),
            i <= visited@.len(),
            t0 == old(v)@,
            all == states_of(visited@),
            all.len() == visited@.len(),
            forall|j: int| 0 <= j < visited@.len() ==> (#[trigger] visited@[j]).0.playable(),
            mc_fold(t0, all, reward as int) == mc_fold(v@, all.skip(i as int), reward as int),
        decreases visited@.len() - i,
    {
        let (state, _action) = visited[i];
        let ghost suffix = all.skip(i as int);
        proof {
            assert(suffix[0] == visited@[i as int].0);
            assert(suffix.drop_first() =~= all.skip(i + 1));
        }
        let c = v.get(&state);
        match mc_cell_update(c, reward) {
            Some(c2) => {
                v.set(&state, c2);
                proof {
                    assert(forall|k: int| 0 <= k < v@.len() ==> cell_wf(#[trigger] v@[k]));
                }
            },
            None => {
                proof {
                    assert(in_table(state));
                    assert(suffix.len() > 0);
                    assert(mc_fold(v@, suffix, reward as int) is None);
                }
                return false;
            },
        }
        i = i + 1;
    }
    proof {
        assert(all.skip(visited@.len() as int) =~= Seq::<State>::empty());
    }
    true
}

/// Monte Carlo prediction state: a value table and an episode counter.
#[derive(Clone)]
pub struct MCState {
    pub v: V<Cell>,
    pub episodes: i32,
}

impl MCState {
    pub open spec fn wf(&self) -> bool {
        &&& self.v.wf()
        &&& cells_wf(self.v@)
        &&& 0 <= self.episodes
    }

    /// A fresh learner: all estimates zero, no episodes run.
    pub fn init() -> (r: MCState)
        ensures
            r.wf(),
            r.episodes == 0,
            forall|i: int| 0 <= i < r.v@.len()
                ==> (#[trigger] r.v@[i]).val@ == (0int, 1int) && r.v@[i].n == 0,
    {
        MCState { v: V::init(Cell::zero()), episodes: 0 }
    }

    /// The value estimate for a state.
    pub fn get_v(&self, state: &State) -> (r: Rat)
        requires
            self.wf(),
            in_table(*state),
        ensures
            r == self.v@[v_index(*state)].val,
            r.wf(),
    {
        self.v.get(state).val
    }
}

impl HasV for MCState {
    open spec fn hv_wf(&self) -> bool {
        self.wf()
    }

    fn get_v(&self, state: &State) -> (r: Option<Rat>) {
        Some(MCState::get_v(self, state))
    }
}

/// Run one episode under `policy` and move every visited state's
/// estimate toward the terminal reward by the incremental mean.
///
/// Whatever the draws: on `true` the new table is the exact fold of the
/// incremental-mean update over some playable trajectory and terminal
/// reward, and the episode counter grew by one (it saturates at
/// `i32::MAX`).  `false` reports an episode the card budget or the
/// representation could not finish.
pub fn monte_carlo_prediction<P: Fn(&State) -> Action>(policy: &P, mc_state: &mut MCState) -> (ok: bool)
    requires
        old(mc_state).wf(),
        forall|s: &State| s.playable() ==> call_requires(*policy, (s,)),
    ensures
        final(mc_state).wf(),
        ok ==> exists|visited: Seq<State>, reward: int|
            {
                &&& -1 <= reward <= 1
                &&& visited.len() >= 1
                &&& (forall|i: int| 0 <= i < visited.len() ==> (#[trigger] visited[i]).playable())
                &&& Some(final(mc_state).v@) == mc_fold(old(mc_state).v@, visited, reward)
            },
        ok ==> final(mc_state).episodes
            == (if old(mc_state).episodes == i32::MAX { i32::MAX as int } else { old(mc_state).episodes + 1 }),
        !ok ==> *final(mc_state) == *old(mc_state),
{
    let mut deck = Deck::fresh(128);
    match episode(&mut deck, policy) {
        None => false,
        Some((state_actions, reward)) => {
            let ghost v0 = mc_state.v@;
            let mut table = mc_state.v.duplicate();
            let ok = mc_apply(&mut table, &state_actions, reward);
            if ok {
                mc_state.v = table;
                if mc_state.episodes < i32::MAX {
                    mc_state.episodes = mc_state.episodes + 1;
                }
                proof {
                    let visited = states_of(state_actions@);
                    let ghost rew = reward as int;
                    assert(forall|i: int| 0 <= i < visited.len()
                        ==> (#[trigger] visited[i]).playable()) by {
                        assert(forall|i: int| 0 <= i < state_actions@.len()
                            ==> (#[trigger] state_actions@[i]).0.playable());
                    }
                    assert(Some(mc_state.v@) == mc_fold(v0, visited, rew));
                }
                true
            } else {
                false
            }
        },
    }
}

/// The incremental-mean update folded over a sequence of rewards, all
/// observed at one cell.
pub open spec fn mc_cell_observe(c: Cell, rewards: Seq<int>) -> Option<Cell>
    decreases rewards.len(),
{
    if rewards.len() == 0 {
        Some(c)
    } else {
        match mc_cell_next(c, rewards[0]) {
            Some(c2) => mc_cell_observe(c2, rewards.drop_first()),
            None => None,
        }
    }
}

pub open spec fn sum_of(rewards: Seq<int>) -> int
    decreases rewards.len(),
{
    if rewards.len() == 0 {
        0
    } else {
        rewards[0] + sum_of(rewards.drop_first())
    }
}

/// The heart of the incremental mean: if the stored fraction times the
/// count equals the running sum times the denominator, one more update
/// keeps it so with the new reward added and the count grown.
#[verifier::rlimit(100)]
proof fn lemma_mc_algebra(
    v: int,
    d: int,
    r: int,
    n: int,
    s: int,
    d0: int,
    d1: int,
    q0: int,
    q1: int,
    nv0: int,
    nv1: int,
)
    requires
        d >= 1,
        d1 >= 1,
        q1 >= 1,
        nv1 >= 1,
        n >= 0,
        d0 * d == (r * d - v) * d1,
        q0 * (d1 * (n + 1)) == d0 * q1,
        nv0 * (d * q1) == (v * q1 + q0 * d) * nv1,
        v * n == s * d,
    ensures
        nv0 * (n + 1) == (s + r) * nv1,
{
    let k = d * (q1 * d1);
    assert(nv0 * ((n + 1) * k) == (nv0 * (d * q1)) * ((n + 1) * d1)) by (nonlinear_arith)
        requires k == d * (q1 * d1);
    assert((nv0 * (d * q1)) * ((n + 1) * d1) == ((v * q1 + q0 * d) * nv1) * ((n + 1) * d1))
        by (nonlinear_arith)
        requires nv0 * (d * q1) == (v * q1 + q0 * d) * nv1;
    assert(((v * q1 + q0 * d) * nv1) * ((n + 1) * d1) == nv1 * ((v * q1) * ((n + 1) * d1)) + nv1
        * ((q0 * d) * ((n + 1) * d1))) by (nonlinear_arith);
    assert((v * q1) * ((n + 1) * d1) == (q1 * d1) * (v * (n + 1))) by (nonlinear_arith);
    assert((q0 * d) * ((n + 1) * d1) == d * (q0 * (d1 * (n + 1)))) by (nonlinear_arith);
    assert(nv1 * ((v * q1) * ((n + 1) * d1)) + nv1 * ((q0 * d) * ((n + 1) * d1)) == nv1 * ((q1 * d1)
        * (v * (n + 1)) + d * (q0 * (d1 * (n + 1))))) by (nonlinear_arith)
        requires
            (v * q1) * ((n + 1) * d1) == (q1 * d1) * (v * (n + 1)),
            (q0 * d) * ((n + 1) * d1) == d * (q0 * (d1 * (n + 1)));
    assert(nv1 * ((q1 * d1) * (v * (n + 1)) + d * (q0 * (d1 * (n + 1)))) == nv1 * ((q1 * d1) * (v
        * (n + 1)) + d * (d0 * q1))) by (nonlinear_arith)
        requires q0 * (d1 * (n + 1)) == d0 * q1;
    assert(d * (d0 * q1) == q1 * (d0 * d)) by (nonlinear_arith);
    assert(q1 * (d0 * d) == q1 * ((r * d - v) * d1)) by (nonlinear_arith)
        requires d0 * d == (r * d - v) * d1;
    assert(q1 * ((r * d - v) * d1) == (q1 * d1) * (r * d - v)) by (nonlinear_arith);
    assert(nv1 * ((q1 * d1) * (v * (n + 1)) + (q1 * d1) * (r * d - v)) == nv1 * ((q1 * d1) * (v * n
        + r * d))) by (nonlinear_arith);
    assert(v * n + r * d == s * d + r * d) by {
        assert(v * n == s * d);
    }
    assert(nv1 * ((q1 * d1) * (s * d + r * d)) == ((s + r) * nv1) * k) by (nonlinear_arith)
        requires k == d * (q1 * d1);
    assert(nv0 * ((n + 1) * k) == ((s + r) * nv1) * k);
    assert((nv0 * (n + 1)) * k == nv0 * ((n + 1) * k)) by (nonlinear_arith);
    assert(k >= 1) by (nonlinear_arith)
        requires d >= 1 && q1 >= 1 && d1 >= 1 && k == d * (q1 * d1);
    assert(nv0 * (n + 1) == (s + r) * nv1) by (nonlinear_arith)
        requires (nv0 * (n + 1)) * k == ((s + r) * nv1) * k && k >= 1;
}

/// One incremental-mean update moves the stored fraction from the mean
/// relation over `(s, n)` to the relation over `(s + reward, n + 1)`.
proof fn lemma_mc_cell_step(c: Cell, reward: int, c2: Cell, s: int)
    requires
        cell_wf(c),
        mc_cell_next(c, reward) == Some(c2),
        c.val@.0 * (c.n as int) == s * c.val@.1,
    ensures
        c2.n == c.n + 1,
        cell_wf(c2),
        c2.val@.0 * (c2.n as int) == (s + reward) * c2.val@.1,
{
    let cv = c.val@;
    let n = c.n as int;
    let n2 = n + 1;
    let diff = rat_add((reward, 1), rat_neg(cv));
    let q = rat_div(diff, (n2, 1));
    let nv = rat_add(cv, q);
    assert(c2.val@ == nv && c2.n == n2);
    crate::rat::lemma_add_eqv((reward, 1), rat_neg(cv));
    assert(rat_eq(diff, (reward * cv.1 + (-cv.0) * 1, 1 * cv.1)));
    assert(diff.0 * cv.1 == (reward * cv.1 - cv.0) * diff.1) by (nonlinear_arith)
        requires rat_eq(diff, (reward * cv.1 + (-cv.0) * 1, 1 * cv.1));
    crate::rat::lemma_div_pos_eqv(diff, (n2, 1));
    assert(rat_eq(q, (diff.0 * 1, diff.1 * n2)));
    assert(q.0 * (diff.1 * n2) == diff.0 * q.1) by (nonlinear_arith)
        requires rat_eq(q, (diff.0 * 1, diff.1 * n2));
    crate::rat::lemma_add_eqv(cv, q);
    assert(rat_eq(nv, (cv.0 * q.1 + q.0 * cv.1, cv.1 * q.1)));
    assert(nv.0 * (cv.1 * q.1) == (cv.0 * q.1 + q.0 * cv.1) * nv.1);
    lemma_mc_algebra(
        cv.0,
        cv.1,
        reward,
        n,
        s,
        diff.0,
        diff.1,
        q.0,
        q.1,
        nv.0,
        nv.1,
    );
}

/// The incremental mean is exact: observing rewards one at a time from
/// a cell whose fraction already means `s` over `c.n` visits leaves a
/// fraction meaning the grown sum over the grown count.
proof fn lemma_mc_observe_general(c: Cell, rewards: Seq<int>, s: int)
    requires
        cell_wf(c),
        c.val@.0 * (c.n as int) == s * c.val@.1,
    ensures
        mc_cell_observe(c, rewards) matches Some(c2) ==> {
            &&& c2.n == c.n + rewards.len()
            &&& cell_wf(c2)
            &&& c2.val@.0 * (c2.n as int) == (s + sum_of(rewards)) * c2.val@.1
        },
    decreases rewards.len(),
{
    if rewards.len() == 0 {
    } else {
        match mc_cell_next(c, rewards[0]) {
            Some(c1) => {
                lemma_mc_cell_step(c, rewards[0], c1, s);
                lemma_mc_observe_general(c1, rewards.drop_first(), s + rewards[0]);
            },
            None => {},
        }
    }
}

/// The stored estimate equals the arithmetic mean: after observing
/// rewards `r1..rn` at a fresh cell, the cell holds a fraction whose
/// value is exactly `(r1 + ... + rn) / n`, and its count is `n` — so
/// the estimate depends only on the rewards' sum, not their order.
pub proof fn lemma_incremental_mean(c0: Cell, rewards: Seq<int>)
    requires
        c0.val@ == (0int, 1int),
        c0.n == 0,
    ensures
        mc_cell_observe(c0, rewards) matches Some(c) ==> {
            &&& c.n == rewards.len()
            &&& cell_wf(c)
            &&& rewards.len() >= 1 ==> rat_eq(c.val@, (sum_of(rewards), rewards.len() as int))
        },
{
    lemma_mc_observe_general(c0, rewards, 0);
    match mc_cell_observe(c0, rewards) {
        Some(c) => {
            if rewards.len() >= 1 {
                assert(c.val@.0 * (c.n as int) == sum_of(rewards) * c.val@.1);
            }
        },
        None => {},
    }
}

/// One episode's fold at a single visited state is exactly one
/// incremental-mean update of that state's cell.
pub proof fn lemma_mc_fold_single(t: Seq<Cell>, visited: Seq<State>, reward: int)
    requires
        visited.len() == 1,
        in_table(visited[0]),
    ensures
        mc_fold(t, visited, reward) == match mc_cell_next(t[v_index(visited[0])], reward) {
            Some(c2) => Some(t.update(v_index(visited[0]), c2)),
            None => None::<Seq<Cell>>,
        },
{
    match mc_cell_next(t[v_index(visited[0])], reward) {
        Some(c2) => {
            let rest = visited.drop_first();
            assert(rest.len() == 0);
            assert(mc_fold(t.update(v_index(visited[0]), c2), rest, reward)
                == Some(t.update(v_index(visited[0]), c2)));
        },
        None => {},
    }
}

/// A learner that can estimate a state's value.  An estimate may be
/// `None` where its exact computation does not fit the representation.
pub trait HasV {
    spec fn hv_wf(&self) -> bool;

    fn get_v(&self, state: &State) -> (r: Option<Rat>)
        requires
            self.hv_wf(),
            in_table(*state),
        ensures
            r matches Some(x) ==> x.wf(),
    ;
}

/// A learner that can estimate a `(state, action)` value.
pub trait HasQ {
    spec fn hq_wf(&self) -> bool;

    fn get_q(&self, state: &State, action: &Action) -> (r: Option<Rat>)
        requires
            self.hq_wf(),
            in_table(*state),
        ensures
            r matches Some(x) ==> x.wf(),
    ;
}

impl HasQ for Q<Cell> {
    open spec fn hq_wf(&self) -> bool {
        &&& self.wf()
        &&& cells_wf(self@)
    }

    fn get_q(&self, state: &State, action: &Action) -> (r: Option<Rat>)
        ensures
            r == Some(self@[q_index(*state, *action)].val),
    {
        Some(self.get(state, action).val)
    }
}

/// `true` with probability `num/den` (never for a non-positive `num`,
/// always once `num` reaches `den`).
fn bernoulli(p: Rat) -> (r: bool)
    requires
        p.wf(),
{
    let u = random_below(p.den as u64);
    (u as i128) < p.num
}

/// Pick the greedy action with probability `1 - eps/2`, the other with
/// probability `eps/2`; an estimate that cannot be computed exactly
/// counts as the smaller.
pub fn epsilon_greedy<QT: HasQ>(eps: Rat, q: &QT, state: &State) -> (r: Action)
    requires
        eps.wf(),
        q.hq_wf(),
        in_table(*state),
{
    let q_hit = q.get_q(state, &Action::Hit);
    let q_stick = q.get_q(state, &Action::Stick);
    let hit_greedy = match (q_hit, q_stick) {
        (Some(h), Some(s)) => s.lt(&h),
        (Some(_), None) => true,
        _ => false,
    };
    let half = match eps.div(Rat::from_int(2)) {
        Some(h) => h,
        None => Rat::zero(),
    };
    let threshold = if hit_greedy {
        half
    } else {
        match Rat::one().sub(half) {
            Some(t) => t,
            None => Rat::one(),
        }
    };
    if bernoulli(threshold) {
        Action::Stick
    } else {
        Action::Hit
    }
}

/// One control visit: fold the incremental-mean update into the
/// `(state, action)` cell, then set the state's value estimate to the
/// better of its two action values (its own visit count also grows).
pub open spec fn mcc_visit(v: Seq<Cell>, q: Seq<Cell>, s: State, a: Action, reward: int) -> Option<
    (Seq<Cell>, Seq<Cell>),
> {
    match mc_cell_next(q[q_index(s, a)], reward) {
        Some(qc) => {
            let q2 = q.update(q_index(s, a), qc);
            let qh = q2[q_index(s, Action::Hit)].val;
            let qs = q2[q_index(s, Action::Stick)].val;
            let best = if rat_lt(qs@, qh@) {
                qh
            } else {
                qs
            };
            let vc = v[v_index(s)];
            if vc.n == i32::MAX {
                None
            } else {
                Some((v.update(v_index(s), Cell { val: best, n: (vc.n + 1) as i32 }), q2))
            }
        },
        None => None,
    }
}

/// `mcc_visit` folded over the visited `(state, action)` pairs.
pub open spec fn mcc_fold(
    v: Seq<Cell>,
    q: Seq<Cell>,
    visited: Seq<(State, Action)>,
    reward: int,
) -> Option<(Seq<Cell>, Seq<Cell>)>
    decreases visited.len(),
{
    if visited.len() == 0 {
        Some((v, q))
    } else if !in_table(visited[0].0) {
        None
    } else {
        match mcc_visit(v, q, visited[0].0, visited[0].1, reward) {
            Some((v2, q2)) => mcc_fold(v2, q2, visited.drop_first(), reward),
            None => None,
        }
    }
}

/// Apply the control fold in place.  `true` exactly when the whole fold
/// fits; on `false` the updates made before the failing one stand.
pub fn mcc_apply(
    v: &mut V<Cell>,
    q: &mut Q<Cell>,
    visited: &Vec<(State, Action)>,
    reward: i32,
) -> (ok: bool)
    requires
        old(v).wf(),
        cells_wf(old(v)@),
        old(q).wf(),
        cells_wf(old(q)@),
        forall|i: int| 0 <= i < visited@.len() ==> (#[trigger] visited@[i]).0.playable(),
    ensures
        final(v).wf(),
        cells_wf(final(v)@),
        final(q).wf(),
        cells_wf(final(q)@),
        ok <==> mcc_fold(old(v)@, old(q)@, visited@, reward as int) is Some,
        ok ==> Some((final(v)@, final(q)@)) == mcc_fold(old(v)@, old(q)@, visited@, reward as int),
{
    let ghost v0 = old(v)@;
    let ghost q0 = old(q)@;
    let ghost all = visited@;
    let mut i: usize = 0;
    proof {
        assert(all.skip(0) =~= all);
    }
    while i < visited.len()
        invariant
            v.wf(),
            cells_wf(v@),
            q.wf(),
            cells_wf(q@),
            i <= visited@.len(),
            v0 == old(v)@,
            q0 == old(q)@,
            all == visited@,
            forall|j: int| 0 <= j < visited@.len() ==> (#[trigger] visited@[j]).0.playable(),
            mcc_fold(v0, q0, all, reward as int) == mcc_fold(v@, q@, all.skip(i as int), reward as int),
        decreases visited@.len() - i,
    {
        let (state, action) = visited[i];
        let ghost suffix = all.skip(i as int);
        proof {
            assert(suffix[0] == visited@[i as int]);
            assert(suffix.drop_first() =~= all.skip(i + 1));
            assert(in_table(state));
        }
        let qc = q.get(&state, &action);
        let ghost q_pre = q@;
        match mc_cell_update(qc, reward) {
            Some(qc2) => {
                q.set(&state, &action, qc2);
                let q_hit = q.get(&state, &Action::Hit).val;
                let q_stick = q.get(&state, &Action::Stick).val;
                let best = q_hit.max(q_stick);
                let vc = v.get(&state);
                if vc.n == i32::MAX {
                    proof {
                        assert(mcc_visit(v@, q_pre, state, action, reward as int) is None);
                        assert(mcc_fold(v@, q_pre, suffix, reward as int) is None);
                    }
                    return false;
                }
                v.set(&state, Cell { val: best, n: vc.n + 1 });
                proof {
                    assert(forall|k: int| 0 <= k < v@.len() ==> cell_wf(#[trigger] v@[k]));
                    assert(forall|k: int| 0 <= k < q@.len() ==> cell_wf(#[trigger] q@[k]));
                }
            },
            None => {
                proof {
                    assert(mcc_fold(v@, q@, suffix, reward as int) is None);
                }
                return false;
            },
        }
        i = i + 1;
    }
    proof {
        assert(all.skip(visited@.len() as int) =~= Seq::<(State, Action)>::empty());
    }
    true
}

/// Monte Carlo control state: action values, derived state values, and
/// an episode counter.
#[derive(Clone)]
pub struct MCControlState {
    pub v: V<Cell>,
    pub q: Q<Cell>,
    pub episodes: i32,
}

impl MCControlState {
    pub open spec fn wf(&self) -> bool {
        &&& self.v.wf()
        &&& cells_wf(self.v@)
        &&& self.q.wf()
        &&& cells_wf(self.q@)
        &&& 0 <= self.episodes
    }

    /// A fresh learner: all estimates zero, no episodes run.
    pub fn init() -> (r: MCControlState)
        ensures
            r.wf(),
            r.episodes == 0,
            forall|i: int| 0 <= i < r.v@.len()
                ==> (#[trigger] r.v@[i]).val@ == (0int, 1int) && r.v@[i].n == 0,
            forall|i: int| 0 <= i < r.q@.len()
                ==> (#[trigger] r.q@[i]).val@ == (0int, 1int) && r.q@[i].n == 0,
    {
        MCControlState { v: V::init(Cell::zero()), q: Q::init(Cell::zero()), episodes: 0 }
    }

    /// The greedy action: `Hit` exactly when its action value is the
    /// strictly larger.
    pub fn policy(&self, state: &State) -> (r: Action)
        requires
            self.wf(),
            in_table(*state),
        ensures
            r == (if rat_lt(
                self.q@[q_index(*state, Action::Stick)].val@,
                self.q@[q_index(*state, Action::Hit)].val@,
            ) {
                Action::Hit
            } else {
                Action::Stick
            }),
    {
        let q_hit = self.q.get(state, &Action::Hit).val;
        let q_stick = self.q.get(state, &Action::Stick).val;
        if q_stick.lt(&q_hit) {
            Action::Hit
        } else {
            Action::Stick
        }
    }

    /// The value estimate for a state.
    pub fn get_v(&self, state: &State) -> (r: Rat)
        requires
            self.wf(),
            in_table(*state),
        ensures
            r == self.v@[v_index(*state)].val,
            r.wf(),
    {
        self.v.get(state).val
    }
}

impl HasV for MCControlState {
    open spec fn hv_wf(&self) -> bool {
        self.wf()
    }

    fn get_v(&self, state: &State) -> (r: Option<Rat>) {
        Some(MCControlState::get_v(self, state))
    }
}

/// One episode under the epsilon-greedy policy of the current action
/// values, with the exploration rate decaying in the visit count:
/// `eps = 100000 / (1000000 + visits)`.
fn greedy_episode(mc_state: &MCControlState, deck: &mut Deck) -> (r: Option<
    (Vec<(State, Action)>, i32),
>)
    requires
        mc_state.wf(),
        old(deck).wf(),
    ensures
        final(deck).wf(),
        r matches Some((sa, reward)) ==> {
            &&& sa@.len() >= 1
            &&& (forall|i: int| 0 <= i < sa@.len() ==> (#[trigger] sa@[i]).0.playable())
            &&& -1 <= reward <= 1
        },
{
    let policy = |s: &State| -> (a: Action)
        requires
            s.playable(),
            mc_state.wf(),
        {
            let visits = mc_state.v.get(s).n;
            let eps = match Rat::new(100000, 1000000 + visits as i64) {
                Some(e) => e,
                None => Rat::zero(),
            };
            epsilon_greedy(eps, &mc_state.q, s)
        };
    episode(deck, &policy)
}

/// Run one episode under the decaying epsilon-greedy policy, fold the
/// incremental-mean update into every visited `(state, action)` cell,
/// and refresh each visited state's value to its better action value.
///
/// Whatever the draws: on `true` the new tables are the exact control
/// fold of some playable trajectory and terminal reward, and the
/// episode counter grew by one (saturating); on `false` nothing
/// changed.
pub fn monte_carlo_control(mc_state: &mut MCControlState) -> (ok: bool)
    requires
        old(mc_state).wf(),
    ensures
        final(mc_state).wf(),
        ok ==> exists|visited: Seq<(State, Action)>, reward: int|
            {
                &&& -1 <= reward <= 1
                &&& visited.len() >= 1
                &&& (forall|i: int| 0 <= i < visited.len() ==> (#[trigger] visited[i]).0.playable())
                &&& Some((final(mc_state).v@, final(mc_state).q@))
                    == mcc_fold(old(mc_state).v@, old(mc_state).q@, visited, reward)
            },
        ok ==> final(mc_state).episodes
            == (if old(mc_state).episodes == i32::MAX { i32::MAX as int } else { old(mc_state).episodes + 1 }),
        !ok ==> *final(mc_state) == *old(mc_state),
{
    let mut deck = Deck::fresh(128);
    match greedy_episode(mc_state, &mut deck) {
        None => false,
        Some((state_actions, reward)) => {
            let ghost v0 = mc_state.v@;
            let ghost q0 = mc_state.q@;
            let mut vt = mc_state.v.duplicate();
            let mut qt = mc_state.q.duplicate();
            let ok = mcc_apply(&mut vt, &mut qt, &state_actions, reward);
            if ok {
                mc_state.v = vt;
                mc_state.q = qt;
                if mc_state.episodes < i32::MAX {
                    mc_state.episodes = mc_state.episodes + 1;
                }
                true
            } else {
                false
            }
        },
    }
}

} // verus!

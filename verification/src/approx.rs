//! TD(lambda) control with linear function approximation.
//!
//! The tabular action values give way to a 36-weight linear model over
//! binary coarse-coded features: three overlapping dealer intervals
//! crossed with six overlapping player intervals crossed with the two
//! actions.  Traces are a 36-vector too, decayed by lambda and grown by
//! the feature vector of the taken pair (accumulating); weights move by
//! a fixed step size `1/10000` times the TD error times the trace, and
//! exploration is fixed at `1/20`.

use vstd::prelude::*;

use crate::env::Action;
use crate::env::Deck;
use crate::env::State;
use crate::env::lemma_stick_bounds;
use crate::env::step_drawn;
use crate::learn::HasQ;
use crate::learn::HasV;
use crate::learn::epsilon_greedy;
use crate::rat::Rat;
use crate::rat::fits;
use crate::rat::rat_add;
use crate::rat::rat_lt;
use crate::rat::rat_mul;
use crate::rat::rat_neg;
use crate::rat::rat_of;
use crate::table::action_index;
use crate::table::in_table;
use crate::td::rats_wf;

verus! {

/// Whether coarse-coded feature `k` is on for `(s, a)`: the features
/// enumerate dealer interval, player interval and action, the dealer
/// intervals being `1..=4`, `4..=7`, `7..=10` and the player intervals
/// `1..=6`, `4..=9`, ..., `16..=21`.
pub open spec fn feature(s: State, a: Action, k: int) -> bool {
    let di = k / 12;
    let pi = (k % 12) / 2;
    let ai = k % 2;
    &&& 3 * di + 1 <= s.dealer <= 3 * di + 4
    &&& 3 * pi + 1 <= s.player <= 3 * pi + 6
    &&& ai == action_index(a)
}

/// The feature vector of `(s, a)` as exact zeros and ones.
pub open spec fn feature_seq(s: State, a: Action) -> Seq<Rat> {
    Seq::new(36, |k: int| rat_of(if feature(s, a, k) { (1int, 1int) } else { (0int, 1int) }))
}

/// A fixed-length weight vector for the linear model.
#[derive(Clone)]
pub struct Vector {
    pub w: Vec<Rat>,
}

impl Vector {
    pub open spec fn wf(&self) -> bool {
        &&& self.w@.len() == 36
        &&& rats_wf(self.w@)
    }

    /// The zero vector.
    pub fn init() -> (r: Vector)
        ensures
            r.wf(),
            forall|i: int| 0 <= i < 36 ==> (#[trigger] r.w@[i])@ == (0int, 1int),
    {
        let mut w: Vec<Rat> = Vec::new();
        let mut i: usize = 0;
        while i < 36
            invariant
                i <= 36,
                w@.len() == i,
                forall|j: int| 0 <= j < i ==> (#[trigger] w@[j])@ == (0int, 1int),
                forall|j: int| 0 <= j < i ==> (#[trigger] w@[j]).wf(),
            decreases 36 - i,
        {
            w.push(Rat::zero());
            i = i + 1;
        }
        Vector { w }
    }

    /// The binary coarse-coded features of `(state, action)`.
    pub fn cuboid_features(state: &State, action: &Action) -> (r: Vector)
        ensures
            r.wf(),
            r.w@ == feature_seq(*state, *action),
    {
        let mut w: Vec<Rat> = Vec::new();
        let mut k: usize = 0;
        while k < 36
            invariant
                k <= 36,
                w@.len() == k,
                forall|j: int| 0 <= j < k ==> w@[j]
                    == rat_of(if feature(*state, *action, j) { (1int, 1int) } else { (0int, 1int) }),
            decreases 36 - k,
        {
            let di = k / 12;
            let pi = (k % 12) / 2;
            let ai = k % 2;
            let dlo = (3 * di + 1) as i32;
            let dhi = (3 * di + 4) as i32;
            let plo = (3 * pi + 1) as i32;
            let phi = (3 * pi + 6) as i32;
            let a_on = match action {
                Action::Hit => ai == 0,
                Action::Stick => ai == 1,
            };
            let on = dlo <= state.dealer && state.dealer <= dhi && plo <= state.player
                && state.player <= phi && a_on;
            if on {
                w.push(Rat::one());
            } else {
                w.push(Rat::zero());
            }
            k = k + 1;
        }
        proof {
            assert(w@ =~= feature_seq(*state, *action));
        }
        Vector { w }
    }

    /// The linear estimate: the dot product of the pair's features with
    /// the weights, or `None` where the exact sum leaves the range.
    pub fn get_q(&self, state: &State, action: &Action) -> (r: Option<Rat>)
        requires
            self.wf(),
        ensures
            r is Some <==> dot_fold(feature_seq(*state, *action), self.w@, 36) is Some,
            r matches Some(x) ==> x.wf() && dot_fold(feature_seq(*state, *action), self.w@, 36)
                == Some(x@),
    {
        let fs = Vector::cuboid_features(state, action);
        dot(&fs.w, &self.w)
    }
}

/// The running dot product of the first `k` coordinates.
pub open spec fn dot_fold(a: Seq<Rat>, b: Seq<Rat>, k: int) -> Option<(int, int)>
    decreases k,
{
    if k <= 0 {
        Some((0, 1))
    } else {
        match dot_fold(a, b, k - 1) {
            Some(acc) => {
                let t = rat_mul(a[k - 1]@, b[k - 1]@);
                let s = rat_add(acc, t);
                if fits(t) && fits(s) {
                    Some(s)
                } else {
                    None
                }
            },
            None => None,
        }
    }
}

/// A failed prefix of the dot product fails every longer prefix.
proof fn lemma_dot_fold_none(a: Seq<Rat>, b: Seq<Rat>, k: int, n: int)
    requires
        dot_fold(a, b, k) is None,
        k <= n,
    ensures
        dot_fold(a, b, n) is None,
    decreases n - k,
{
    if k < n {
        lemma_dot_fold_none(a, b, k + 1, n);
    }
}

/// The exact dot product of two equally long vectors.
fn dot(a: &Vec<Rat>, b: &Vec<Rat>) -> (r: Option<Rat>)
    requires
        rats_wf(a@),
        rats_wf(b@),
        a@.len() == b@.len(),
    ensures
        r is Some <==> dot_fold(a@, b@, a@.len() as int) is Some,
        r matches Some(x) ==> x.wf() && dot_fold(a@, b@, a@.len() as int) == Some(x@),
{
    let mut acc = Rat::zero();
    let mut k: usize = 0;
    while k < a.len()
        invariant
            rats_wf(a@),
            rats_wf(b@),
            a@.len() == b@.len(),
            k <= a@.len(),
            acc.wf(),
            dot_fold(a@, b@, k as int) == Some(acc@),
        decreases a@.len() - k,
    {
        let t = match a[k].mul(b[k]) {
            Some(x) => x,
            None => {
                proof {
                    assert(dot_fold(a@, b@, k + 1) is None);
                    lemma_dot_fold_none(a@, b@, k + 1, a@.len() as int);
                }
                return None;
            },
        };
        acc = match acc.add(t) {
            Some(x) => x,
            None => {
                proof {
                    assert(dot_fold(a@, b@, k + 1) is None);
                    lemma_dot_fold_none(a@, b@, k + 1, a@.len() as int);
                }
                return None;
            },
        };
        k = k + 1;
    }
    Some(acc)
}

impl HasQ for Vector {
    open spec fn hq_wf(&self) -> bool {
        self.wf()
    }

    fn get_q(&self, state: &State, action: &Action) -> (r: Option<Rat>) {
        Vector::get_q(self, state, action)
    }
}

/// The accumulating trace update: every trace decays by `lam` and grows
/// by the taken pair's feature.
pub open spec fn approx_trace_step(e: Seq<Rat>, lam: (int, int), x: Seq<Rat>) -> Option<Seq<Rat>> {
    if forall|i: int| 0 <= i < e.len() ==> fits(rat_mul(lam, (#[trigger] e[i])@))
        && fits(rat_add(rat_mul(lam, e[i]@), x[i]@)) {
        Some(Seq::new(e.len(), |i: int| rat_of(rat_add(rat_mul(lam, e[i]@), x[i]@))))
    } else {
        None
    }
}

/// Apply the accumulating trace update, building the new vector.
fn approx_trace_apply(e: &Vec<Rat>, lam: Rat, x: &Vec<Rat>) -> (r: Option<Vec<Rat>>)
    requires
        rats_wf(e@),
        lam.wf(),
        rats_wf(x@),
        x@.len() == e@.len(),
    ensures
        r is Some <==> approx_trace_step(e@, lam@, x@) is Some,
        r matches Some(e2) ==> Some(e2@) == approx_trace_step(e@, lam@, x@) && rats_wf(e2@)
            && e2@.len() == e@.len(),
{
    let mut out: Vec<Rat> = Vec::new();
    let mut i: usize = 0;
    while i < e.len()
        invariant
            rats_wf(e@),
            lam.wf(),
            rats_wf(x@),
            x@.len() == e@.len(),
            i <= e@.len(),
            out@.len() == i,
            forall|j: int| 0 <= j < i ==> fits(rat_mul(lam@, (#[trigger] e@[j])@))
                && fits(rat_add(rat_mul(lam@, e@[j]@), x@[j]@))
                && out@[j] == rat_of(rat_add(rat_mul(lam@, e@[j]@), x@[j]@)),
            forall|j: int| 0 <= j < i ==> (#[trigger] out@[j]).wf(),
        decreases e@.len() - i,
    {
        let d = match lam.mul(e[i]) {
            Some(d) => d,
            None => {
                return None;
            },
        };
        match d.add(x[i]) {
            Some(t) => {
                out.push(t);
            },
            None => {
                return None;
            },
        }
        i = i + 1;
    }
    proof {
        assert(out@ =~= Seq::new(e@.len() as nat, |i: int| rat_of(rat_add(rat_mul(lam@, e@[i]@), x@[i]@))));
    }
    Some(out)
}

/// The weight sweep with the fixed step size `1/10000`:
/// `w' = w + (1/10000) * delta * trace`, coordinatewise.
pub open spec fn weight_sweep(w: Seq<Rat>, e: Seq<Rat>, delta: (int, int)) -> Option<Seq<Rat>> {
    if forall|i: int| 0 <= i < w.len() ==> weight_cell_fits(#[trigger] w[i], e[i], delta) {
        Some(Seq::new(w.len(), |i: int| weight_cell(w[i], e[i], delta)))
    } else {
        None
    }
}

pub open spec fn weight_cell_fits(wi: Rat, t: Rat, delta: (int, int)) -> bool {
    let de = rat_mul(delta, t@);
    let term = rat_mul((1, 10000), de);
    let nv = rat_add(wi@, term);
    &&& fits(de)
    &&& fits(term)
    &&& fits(nv)
}

pub open spec fn weight_cell(wi: Rat, t: Rat, delta: (int, int)) -> Rat {
    let de = rat_mul(delta, t@);
    let term = rat_mul((1, 10000), de);
    rat_of(rat_add(wi@, term))
}

/// Apply the weight sweep, building the new vector.
fn weight_sweep_apply(w: &Vec<Rat>, e: &Vec<Rat>, delta: Rat) -> (r: Option<Vec<Rat>>)
    requires
        rats_wf(w@),
        rats_wf(e@),
        delta.wf(),
        e@.len() == w@.len(),
    ensures
        r is Some <==> weight_sweep(w@, e@, delta@) is Some,
        r matches Some(w2) ==> Some(w2@) == weight_sweep(w@, e@, delta@) && rats_wf(w2@)
            && w2@.len() == w@.len(),
{
    let alpha = match Rat::new(1, 10000) {
        Some(a) => a,
        None => {
            proof {
                assert(10000i64 != 0);
            }
            Rat::zero()
        },
    };
    let mut out: Vec<Rat> = Vec::new();
    let mut i: usize = 0;
    while i < w.len()
        invariant
            rats_wf(w@),
            rats_wf(e@),
            delta.wf(),
            e@.len() == w@.len(),
            alpha.wf(),
            alpha@ == (1int, 10000int),
            i <= w@.len(),
            out@.len() == i,
            forall|j: int| 0 <= j < i ==> weight_cell_fits(#[trigger] w@[j], e@[j], delta@)
                && out@[j] == weight_cell(w@[j], e@[j], delta@),
            forall|j: int| 0 <= j < i ==> (#[trigger] out@[j]).wf(),
        decreases w@.len() - i,
    {
        let de = match delta.mul(e[i]) {
            Some(x) => x,
            None => {
                proof {
                    assert(!weight_cell_fits(w@[i as int], e@[i as int], delta@));
                }
                return None;
            },
        };
        let term = match alpha.mul(de) {
            Some(x) => x,
            None => {
                proof {
                    assert(!weight_cell_fits(w@[i as int], e@[i as int], delta@));
                }
                return None;
            },
        };
        match w[i].add(term) {
            Some(nv) => {
                out.push(nv);
            },
            None => {
                proof {
                    assert(!weight_cell_fits(w@[i as int], e@[i as int], delta@));
                }
                return None;
            },
        }
        i = i + 1;
    }
    proof {
        assert(out@ =~= Seq::new(w@.len() as nat, |i: int| weight_cell(w@[i], e@[i], delta@)));
    }
    Some(out)
}

/// One approximate control step: the trace accumulates the taken
/// pair's features under decay, the TD error compares the linear
/// estimates of the next pair and the taken pair, and every weight
/// moves by the fixed step size times the error times its trace.
pub open spec fn approx_step(
    w: Seq<Rat>,
    e: Seq<Rat>,
    lam: (int, int),
    s: State,
    a: Action,
    ns: State,
    na: Action,
    reward: int,
) -> Option<(Seq<Rat>, Seq<Rat>)> {
    match approx_trace_step(e, lam, feature_seq(s, a)) {
        Some(e2) => {
            match (dot_fold(feature_seq(ns, na), w, 36), dot_fold(feature_seq(s, a), w, 36)) {
                (Some(qn), Some(qc)) => {
                    let inner = rat_add((reward, 1), qn);
                    let delta = rat_add(inner, rat_neg(qc));
                    if fits(inner) && fits(delta) {
                        match weight_sweep(w, e2, delta) {
                            Some(w2) => Some((w2, e2)),
                            None => None,
                        }
                    } else {
                        None
                    }
                },
                _ => None,
            }
        },
        None => None,
    }
}

/// Apply one approximate control step.  `true` exactly when the exact
/// step fits; on `false` nothing changed.
pub fn approx_step_apply(
    w: &mut Vector,
    e: &mut Vector,
    lam: Rat,
    s: State,
    a: Action,
    ns: State,
    na: Action,
    reward: i32,
) -> (ok: bool)
    requires
        old(w).wf(),
        old(e).wf(),
        lam.wf(),
    ensures
        final(w).wf(),
        final(e).wf(),
        ok <==> approx_step(old(w).w@, old(e).w@, lam@, s, a, ns, na, reward as int) is Some,
        ok ==> Some((final(w).w@, final(e).w@))
            == approx_step(old(w).w@, old(e).w@, lam@, s, a, ns, na, reward as int),
        !ok ==> final(w).w@ == old(w).w@ && final(e).w@ == old(e).w@,
{
    let fs = Vector::cuboid_features(&s, &a);
    let e2 = match approx_trace_apply(&e.w, lam, &fs.w) {
        Some(e2) => e2,
        None => {
            return false;
        },
    };
    let qn = match w.get_q(&ns, &na) {
        Some(x) => x,
        None => {
            return false;
        },
    };
    let qc = match w.get_q(&s, &a) {
        Some(x) => x,
        None => {
            return false;
        },
    };
    let inner = match Rat::from_int(reward as i64).add(qn) {
        Some(x) => x,
        None => {
            return false;
        },
    };
    let delta = match inner.add(qc.neg()) {
        Some(x) => x,
        None => {
            return false;
        },
    };
    let w2 = match weight_sweep_apply(&w.w, &e2, delta) {
        Some(w2) => w2,
        None => {
            return false;
        },
    };
    *w = Vector { w: w2 };
    *e = Vector { w: e2 };
    true
}

/// Approximate TD(lambda) control state: the weights, their traces, an
/// episode counter, and the (unused here, always zero) error metric.
#[derive(Clone)]
pub struct ApproxState {
    pub q: Vector,
    pub eligibility_traces: Vector,
    pub episodes: i32,
    pub rms_error: Rat,
}

impl ApproxState {
    pub open spec fn wf(&self) -> bool {
        &&& self.q.wf()
        &&& self.eligibility_traces.wf()
        &&& 0 <= self.episodes
        &&& self.rms_error.wf()
    }

    /// A fresh learner: zero weights and traces, no episodes run.
    pub fn init() -> (r: ApproxState)
        ensures
            r.wf(),
            r.episodes == 0,
    {
        ApproxState {
            q: Vector::init(),
            eligibility_traces: Vector::init(),
            episodes: 0,
            rms_error: Rat::zero(),
        }
    }

    /// The linear estimate for a pair.
    pub fn get_q(&self, state: &State, action: &Action) -> (r: Option<Rat>)
        requires
            self.wf(),
        ensures
            r is Some <==> dot_fold(feature_seq(*state, *action), self.q.w@, 36) is Some,
            r matches Some(x) ==> x.wf() && dot_fold(feature_seq(*state, *action), self.q.w@, 36)
                == Some(x@),
    {
        self.q.get_q(state, action)
    }

    /// The greedy action: `Hit` exactly when its estimate is the
    /// strictly larger (an estimate that cannot be computed exactly
    /// counts as the smaller).
    pub fn policy(&self, state: &State) -> (r: Action)
        requires
            self.wf(),
        ensures
            r == (match (
                dot_fold(feature_seq(*state, Action::Hit), self.q.w@, 36),
                dot_fold(feature_seq(*state, Action::Stick), self.q.w@, 36),
            ) {
                (Some(h), Some(s)) => if rat_lt(s, h) {
                    Action::Hit
                } else {
                    Action::Stick
                },
                (Some(h), None) => Action::Hit,
                _ => Action::Stick,
            }),
    {
        let q_hit = self.q.get_q(state, &Action::Hit);
        let q_stick = self.q.get_q(state, &Action::Stick);
        match (q_hit, q_stick) {
            (Some(h), Some(s)) => if s.lt(&h) {
                Action::Hit
            } else {
                Action::Stick
            },
            (Some(_), None) => Action::Hit,
            _ => Action::Stick,
        }
    }
}

impl HasV for ApproxState {
    open spec fn hv_wf(&self) -> bool {
        self.wf()
    }

    /// The better of the two linear estimates.
    fn get_v(&self, state: &State) -> (r: Option<Rat>) {
        let q_hit = self.q.get_q(state, &Action::Hit);
        let q_stick = self.q.get_q(state, &Action::Stick);
        match (q_hit, q_stick) {
            (Some(h), Some(s)) => Some(h.max(s)),
            _ => None,
        }
    }
}

impl HasQ for ApproxState {
    open spec fn hq_wf(&self) -> bool {
        self.wf()
    }

    fn get_q(&self, state: &State, action: &Action) -> (r: Option<Rat>) {
        self.q.get_q(state, action)
    }
}

/// Run one episode of approximate TD(lambda) control: actions are
/// chosen epsilon-greedily from the linear model with the fixed
/// exploration rate `1/20`, and after every environment step the
/// weights and traces move by the exact `approx_step` rule (traces
/// freshly zeroed at the start).
///
/// On `true` a whole episode ran and the episode counter grew by one
/// (saturating).  On `false` the card budget or the representation gave
/// out mid-episode; the steps already taken stand and the counter is
/// unchanged.
pub fn approx_td_lambda_control(lambda: Rat, approx_state: &mut ApproxState) -> (ok: bool)
    requires
        old(approx_state).wf(),
        lambda.wf(),
    ensures
        final(approx_state).wf(),
        ok ==> final(approx_state).episodes
            == (if old(approx_state).episodes == i32::MAX {
                i32::MAX as int
            } else {
                old(approx_state).episodes + 1
            }),
        !ok ==> final(approx_state).episodes == old(approx_state).episodes,
{
    approx_state.eligibility_traces = Vector::init();
    let eps = match Rat::new(1, 20) {
        Some(e) => e,
        None => Rat::zero(),
    };
    let mut deck = Deck::fresh(192);
    let c1 = deck.take();
    let c2 = deck.take();
    let mut state = State { dealer: c1.value, player: c2.value };
    let mut action = epsilon_greedy(eps, &approx_state.q, &state);
    loop
        invariant
            approx_state.wf(),
            approx_state.episodes == old(approx_state).episodes,
            lambda.wf(),
            eps.wf(),
            deck.wf(),
            state.playable(),
        decreases deck.remaining().len(),
    {
        let ghost rem0 = deck.remaining();
        match step_drawn(state, action, &mut deck) {
            None => {
                return false;
            },
            Some(sample) => {
                let ns = sample.state;
                proof {
                    if action == Action::Stick {
                        lemma_stick_bounds(state.player as int, state.dealer as int, rem0);
                    }
                }
                let next_action = epsilon_greedy(eps, &approx_state.q, &ns);
                let stepped = approx_step_apply(
                    &mut approx_state.q,
                    &mut approx_state.eligibility_traces,
                    lambda,
                    state,
                    action,
                    ns,
                    next_action,
                    sample.reward,
                );
                if !stepped {
                    return false;
                }
                if sample.terminal {
                    if approx_state.episodes < i32::MAX {
                        approx_state.episodes = approx_state.episodes + 1;
                    }
                    return true;
                }
                state = ns;
                action = next_action;
            },
        }
    }
}

} // verus!

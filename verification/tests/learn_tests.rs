use tape21::approx::ApproxState;
use tape21::approx::Vector;
use tape21::approx::approx_step_apply;
use tape21::approx::approx_td_lambda_control;
use tape21::env::Action;
use tape21::env::State;
use tape21::env::example_policy;
use tape21::learn::Cell;
use tape21::learn::MCControlState;
use tape21::learn::MCState;
use tape21::learn::mc_cell_update;
use tape21::learn::monte_carlo_control;
use tape21::learn::monte_carlo_prediction;
use tape21::rat::Rat;
use tape21::table::Q;
use tape21::table::V;
use tape21::td::TDControlState;
use tape21::td::TDState;
use tape21::td::td_lambda_control;
use tape21::td::td_lambda_prediction;
use tape21::td::td_step_apply;
use tape21::learn::HasV;
use tape21::worker::Req;
use tape21::worker::apply_req;

fn q(n: i64, d: i64) -> Rat {
    Rat::new(n, d).expect("nonzero denominator")
}

#[test]
fn tables_store_and_fetch() {
    let mut v: V<i32> = V::init(0);
    let s = State { dealer: 3, player: 7 };
    assert_eq!(v.get(&s), 0);
    v.set(&s, 42);
    assert_eq!(v.get(&s), 42);
    assert_eq!(v.get(&State { dealer: 3, player: 8 }), 0);

    let mut t: Q<i32> = Q::init(0);
    t.set(&s, &Action::Hit, 7);
    assert_eq!(t.get(&s, &Action::Hit), 7);
    assert_eq!(t.get(&s, &Action::Stick), 0);
}

#[test]
fn incremental_mean_matches_arithmetic_mean() {
    // rewards 1, -1, 1: the stored estimate walks through 1, 0, 1/3
    let mut c = Cell::zero();
    c = mc_cell_update(c, 1).expect("fits");
    assert!(c.val.eq_val(&Rat::from_int(1)));
    c = mc_cell_update(c, -1).expect("fits");
    assert!(c.val.eq_val(&Rat::zero()));
    c = mc_cell_update(c, 1).expect("fits");
    assert!(c.val.eq_val(&q(1, 3)));
    assert_eq!(c.n, 3);

    // the same rewards in another order end at the same mean
    let mut d = Cell::zero();
    for r in [1, 1, -1] {
        d = mc_cell_update(d, r).expect("fits");
    }
    assert!(d.val.eq_val(&c.val));
}

#[test]
fn monte_carlo_prediction_runs() {
    let mut mc = MCState::init();
    let mut done: i32 = 0;
    for _ in 0..20 {
        if monte_carlo_prediction(&example_policy, &mut mc) {
            done += 1;
        }
    }
    assert_eq!(mc.episodes, done);
    assert!(done > 0);
}

#[test]
fn monte_carlo_control_runs() {
    let mut mc = MCControlState::init();
    let mut done: i32 = 0;
    for _ in 0..20 {
        if monte_carlo_control(&mut mc) {
            done += 1;
        }
    }
    assert_eq!(mc.episodes, done);
    assert!(done > 0);
    let s = State { dealer: 5, player: 12 };
    let _ = mc.policy(&s);
    let _ = mc.get_v(&s);
}

#[test]
fn td_step_exact_update() {
    // from all-zero tables, one step with reward 1 leaves the visited
    // state's estimate at exactly 1/10 and its trace at 1
    let mut td = TDState::init();
    let s = State { dealer: 1, player: 1 };
    let ns = State { dealer: 1, player: 2 };
    let ok = td_step_apply(
        &mut td.v,
        &mut td.eligibility_traces,
        q(1, 2),
        s,
        ns,
        1,
    );
    assert!(ok);
    let cell = td.v.get(&s);
    assert!(cell.val.eq_val(&q(1, 10)));
    assert_eq!(cell.n, 1);
    assert!(td.eligibility_traces.get(&s).eq_val(&Rat::one()));
    // an unvisited state keeps estimate zero and visit count zero
    let other = td.v.get(&State { dealer: 9, player: 9 });
    assert!(other.val.is_zero());
    assert_eq!(other.n, 0);
}

#[test]
fn trace_decays_exponentially_without_revisits() {
    // plant a trace of 1 at a state no step visits; two steps of
    // lambda = 1/2 leave exactly 1/4
    let mut td = TDState::init();
    let c = State { dealer: 9, player: 9 };
    td.eligibility_traces.set(&c, Rat::one());
    let s = State { dealer: 1, player: 1 };
    let ns = State { dealer: 1, player: 2 };
    assert!(td_step_apply(&mut td.v, &mut td.eligibility_traces, q(1, 2), s, ns, 0));
    assert!(td.eligibility_traces.get(&c).eq_val(&q(1, 2)));
    assert!(td_step_apply(&mut td.v, &mut td.eligibility_traces, q(1, 2), ns, s, 0));
    assert!(td.eligibility_traces.get(&c).eq_val(&q(1, 4)));
    // the visited state's trace decayed once and grew by one
    assert!(td.eligibility_traces.get(&s).eq_val(&q(1, 2)));
}

#[test]
fn td_prediction_counts_episodes() {
    let mut td = TDState::init();
    let ok = td_lambda_prediction(q(1, 2), &example_policy, &mut td);
    assert_eq!(td.episodes, if ok { 1 } else { 0 });
}

#[test]
fn td_control_counts_episodes() {
    let mut td = TDControlState::init();
    let ok = td_lambda_control(q(3, 5), &mut td);
    assert_eq!(td.episodes, if ok { 1 } else { 0 });
    let s = State { dealer: 5, player: 12 };
    let _ = td.policy(&s);
    let _ = td.get_v(&s);
}

#[test]
fn rms_error_sums_squared_differences() {
    let qt: Q<Cell> = Q::init(Cell::zero());
    let optimal: Q<Rat> = Q::init(Rat::zero());
    let zero = qt.rms_error(&optimal).expect("fits");
    assert!(zero.is_zero());

    let mut qt = qt;
    let s = State { dealer: 4, player: 4 };
    qt.set(&s, &Action::Hit, Cell { val: Rat::from_int(2), n: 1 });
    let err = qt.rms_error(&optimal).expect("fits");
    assert!(err.eq_val(&Rat::from_int(4)));

    let mut optimal = optimal;
    optimal.set(&s, &Action::Hit, q(3, 2));
    let err2 = qt.rms_error(&optimal).expect("fits");
    assert!(err2.eq_val(&q(1, 4)));
}

#[test]
fn test_cuboid_features() {
    let fs = Vector::cuboid_features(&State { player: 4, dealer: 4 }, &Action::Stick);
    let expected: [i64; 36] = [
        0, 1, 0, 1, 0, 0, 0, 0, 0, 0, 0, 0, 0, 1, 0, 1, 0, 0, 0, 0, 0, 0, 0, 0, 0, 0, 0, 0, 0, 0,
        0, 0, 0, 0, 0, 0,
    ];
    assert_eq!(fs.w.len(), 36);
    for (got, want) in fs.w.iter().zip(expected.iter()) {
        assert!(got.eq_val(&Rat::from_int(*want)));
    }
}

#[test]
fn approx_step_exact_update() {
    let mut w = Vector::init();
    let mut e = Vector::init();
    let s = State { dealer: 4, player: 4 };
    let ns = State { dealer: 4, player: 5 };
    // zero weights: the error is zero, so only the traces move
    assert!(approx_step_apply(&mut w, &mut e, q(1, 2), s, Action::Stick, ns, Action::Hit, 0));
    let fs = Vector::cuboid_features(&s, &Action::Stick);
    for k in 0..36 {
        assert!(w.w[k].is_zero());
        assert!(e.w[k].eq_val(&fs.w[k]));
    }
    // a reward of 1 now moves each traced weight by (3/2) / 10000
    assert!(approx_step_apply(&mut w, &mut e, q(1, 2), s, Action::Stick, ns, Action::Hit, 1));
    for k in 0..36 {
        if fs.w[k].is_zero() {
            assert!(w.w[k].is_zero());
            assert!(e.w[k].is_zero());
        } else {
            assert!(e.w[k].eq_val(&q(3, 2)));
            assert!(w.w[k].eq_val(&q(3, 20000)));
        }
    }
}

#[test]
fn approx_control_counts_episodes() {
    let mut a = ApproxState::init();
    let ok = approx_td_lambda_control(q(1, 10), &mut a);
    assert_eq!(a.episodes, if ok { 1 } else { 0 });
    let s = State { dealer: 5, player: 12 };
    let _ = a.policy(&s);
    let _ = a.get_q(&s, &Action::Hit);
}

#[test]
fn worker_requests() {
    let (kept, respond) = apply_req(7, Req::<i32>::GetState);
    assert_eq!(kept, 7);
    assert!(respond);
    let (kept, respond) = apply_req(7, Req::SetState { state: 9 });
    assert_eq!(kept, 9);
    assert!(!respond);
}

#[test]
fn tables_map_update_zip() {
    let mut v: V<i32> = V::init(1);
    v.map(|x| x + 1);
    let s = State { dealer: 2, player: 2 };
    assert_eq!(v.get(&s), 2);
    v.update(&s, |x| x * 10);
    assert_eq!(v.get(&s), 20);
    assert_eq!(v.get(&State { dealer: 2, player: 3 }), 2);
    let ones: V<i32> = V::init(1);
    v.zip_with(&ones, |x, y| x + y);
    assert_eq!(v.get(&s), 21);

    let mut qt: Q<i32> = Q::init(3);
    qt.map(|x| x - 1);
    assert_eq!(qt.get(&s, &Action::Hit), 2);
    qt.update(&s, &Action::Stick, |x| x + 5);
    assert_eq!(qt.get(&s, &Action::Stick), 7);
    let twos: Q<i32> = Q::init(2);
    qt.zip_with(&twos, |x, y| x * y);
    assert_eq!(qt.get(&s, &Action::Hit), 4);
    assert_eq!(qt.get(&s, &Action::Stick), 14);
}

#[test]
fn learners_expose_values_through_the_trait() {
    let mc = MCState::init();
    let s = State { dealer: 5, player: 12 };
    assert!(HasV::get_v(&mc, &s).expect("tabular estimates always exist").is_zero());
    let tdc = TDControlState::init();
    assert!(HasV::get_v(&tdc, &s).expect("tabular estimates always exist").is_zero());
}

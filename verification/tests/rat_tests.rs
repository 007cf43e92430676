use tape21::rat::Rat;

fn q(n: i64, d: i64) -> Rat {
    Rat::new(n, d).expect("nonzero denominator")
}

#[test]
fn exact_addition() {
    let third = q(1, 3);
    let sixth = q(1, 6);
    let sum = third.add(sixth).expect("small fractions fit");
    assert!(sum.eq_val(&q(1, 2)));
}

#[test]
fn exact_multiplication_and_division() {
    let a = q(2, 3);
    let b = q(9, 4);
    let p = a.mul(b).expect("fits");
    assert!(p.eq_val(&q(3, 2)));
    let d = p.div(q(3, 1)).expect("fits");
    assert!(d.eq_val(&q(1, 2)));
    assert!(q(1, 2).div(Rat::zero()).is_none());
}

#[test]
fn comparisons() {
    assert!(q(1, 3).lt(&q(1, 2)));
    assert!(!q(1, 2).lt(&q(1, 2)));
    assert!(q(1, 2).le(&q(1, 2)));
    assert!(q(-3, 4).lt(&Rat::zero()));
    assert!(q(2, 4).eq_val(&q(1, 2)));
    let m = q(1, 3).max(q(1, 2));
    assert!(m.eq_val(&q(1, 2)));
}

#[test]
fn negative_denominator_moves_sign() {
    let r = q(1, -2);
    assert!(r.eq_val(&q(-1, 2)));
    assert!(Rat::new(1, 0).is_none());
}

#[test]
fn addition_reports_overflow() {
    let big = Rat::from_int(i64::MAX);
    assert!(big.add(Rat::one()).is_none());
    assert!(big.add(big.neg()).expect("zero fits").is_zero());
}

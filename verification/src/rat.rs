//! Exact rational scalars.
//!
//! A `Rat` is a fraction of two `i128`s with the denominator positive and
//! both fields bounded so that cross products of two in-range fractions
//! always fit in an `i128`.  Arithmetic is exact: an operation either
//! returns the mathematically correct fraction or, where that fraction's
//! raw numerator or denominator would leave the representable range,
//! `None`.  Fractions are not reduced to lowest terms; equality of values
//! is the cross-multiplication relation `rat_eq`.

use vstd::prelude::*;

verus! {

/// Largest magnitude allowed for a numerator or denominator.
pub const BOUND: i128 = 0x7fff_ffff_ffff_ffff;

/// An exact rational number: `num / den`.
#[derive(Clone, Copy, Debug)]
pub struct Rat {
    pub num: i128,
    pub den: i128,
}

impl View for Rat {
    type V = (int, int);

    open spec fn view(&self) -> (int, int) {
        (self.num as int, self.den as int)
    }
}

/// A fraction pair is in range: positive denominator, both parts bounded.
pub open spec fn fits(p: (int, int)) -> bool {
    &&& 1 <= p.1 <= BOUND as int
    &&& -(BOUND as int) <= p.0 <= BOUND as int
}

/// The two pairs denote the same rational value.
pub open spec fn rat_eq(a: (int, int), b: (int, int)) -> bool {
    a.0 * b.1 == b.0 * a.1
}

/// Value comparison of two pairs with positive denominators.
pub open spec fn rat_lt(a: (int, int), b: (int, int)) -> bool {
    a.0 * b.1 < b.0 * a.1
}

pub open spec fn rat_le(a: (int, int), b: (int, int)) -> bool {
    a.0 * b.1 <= b.0 * a.1
}

/// The `Rat` holding a fraction pair (meaningful when the pair fits).
pub open spec fn rat_of(p: (int, int)) -> Rat {
    Rat { num: p.0 as i128, den: p.1 as i128 }
}

/// A zero numerator collapses to the canonical zero `0/1`.
pub open spec fn norm0(p: (int, int)) -> (int, int) {
    if p.0 == 0 {
        (0, 1)
    } else {
        p
    }
}

/// The sum fraction an addition produces: fractions over a common
/// denominator are added directly, others by cross multiplication,
/// and an exact zero collapses to `0/1`.
pub open spec fn rat_add(a: (int, int), b: (int, int)) -> (int, int) {
    if a.1 == b.1 {
        norm0((a.0 + b.0, a.1))
    } else {
        norm0((a.0 * b.1 + b.0 * a.1, a.1 * b.1))
    }
}

/// The product fraction a multiplication produces.
pub open spec fn rat_mul(a: (int, int), b: (int, int)) -> (int, int) {
    norm0((a.0 * b.0, a.1 * b.1))
}

/// The fraction denoting the negation.
pub open spec fn rat_neg(a: (int, int)) -> (int, int) {
    (-a.0, a.1)
}

/// The fraction a division produces (the divisor's sign moves to the
/// numerator so the denominator stays positive).  Meaningful only for
/// a nonzero divisor.
pub open spec fn rat_div(a: (int, int), b: (int, int)) -> (int, int) {
    if b.0 < 0 {
        norm0((-(a.0 * b.1), a.1 * -b.0))
    } else {
        norm0((a.0 * b.1, a.1 * b.0))
    }
}

impl Rat {
    /// The fraction is in range with a positive denominator.
    pub open spec fn wf(&self) -> bool {
        fits(self@)
    }

    /// The integer `n` as a rational.
    pub fn from_int(n: i64) -> (r: Rat)
        requires
            n != i64::MIN,
        ensures
            r.wf(),
            r@ == (n as int, 1int),
    {
        Rat { num: n as i128, den: 1 }
    }

    /// The fraction `num / den`, or `None` for a zero denominator.
    /// A negative denominator's sign moves to the numerator.
    pub fn new(num: i64, den: i64) -> (r: Option<Rat>)
        requires
            num != i64::MIN,
            den != i64::MIN,
        ensures
            den == 0 <==> r is None,
            r matches Some(q) ==> q.wf() && den != 0 && rat_eq(q@, (num as int, den as int))
                && q@ == (if den < 0 { ((-(num as int), -(den as int))) } else { ((num as int, den as int)) }),
    {
        if den == 0 {
            None
        } else if den < 0 {
            let q = Rat { num: -(num as i128), den: -(den as i128) };
            proof {
                assert((-(num as int)) * (den as int) == (num as int) * (-(den as int)))
                    by (nonlinear_arith);
            }
            Some(q)
        } else {
            Some(Rat { num: num as i128, den: den as i128 })
        }
    }

    /// The canonical zero.
    pub fn zero() -> (r: Rat)
        ensures
            r.wf(),
            r@ == (0int, 1int),
    {
        Rat { num: 0, den: 1 }
    }

    /// The rational one.
    pub fn one() -> (r: Rat)
        ensures
            r.wf(),
            r@ == (1int, 1int),
    {
        Rat { num: 1, den: 1 }
    }

    pub open spec fn is_zero_spec(&self) -> bool {
        self@.0 == 0
    }

    /// Whether the value is zero.
    pub fn is_zero(&self) -> (r: bool)
        requires
            self.wf(),
        ensures
            r == self.is_zero_spec(),
    {
        self.num == 0
    }

    /// Exact addition: the sum fraction, or `None` where it leaves the range.
    pub fn add(self, other: Rat) -> (r: Option<Rat>)
        requires
            self.wf(),
            other.wf(),
        ensures
            r matches Some(q) ==> q.wf() && q@ == rat_add(self@, other@),
            r is None <==> !fits(rat_add(self@, other@)),
    {
        if self.den == other.den {
            let n = self.num + other.num;
            if n == 0 {
                Some(Rat { num: 0, den: 1 })
            } else if -BOUND <= n && n <= BOUND {
                Some(Rat { num: n, den: self.den })
            } else {
                None
            }
        } else {
            proof {
                lemma_cross_products_fit(self@, other@);
            }
            let n = self.num * other.den + other.num * self.den;
            let d = self.den * other.den;
            if n == 0 {
                Some(Rat { num: 0, den: 1 })
            } else if -BOUND <= n && n <= BOUND && d <= BOUND {
                Some(Rat { num: n, den: d })
            } else {
                None
            }
        }
    }

    /// Exact negation.
    pub fn neg(self) -> (r: Rat)
        requires
            self.wf(),
        ensures
            r.wf(),
            r@ == rat_neg(self@),
    {
        Rat { num: -self.num, den: self.den }
    }

    /// Exact subtraction, as addition of the negation.
    pub fn sub(self, other: Rat) -> (r: Option<Rat>)
        requires
            self.wf(),
            other.wf(),
        ensures
            r matches Some(q) ==> q.wf() && q@ == rat_add(self@, rat_neg(other@)),
            r is None <==> !fits(rat_add(self@, rat_neg(other@))),
    {
        self.add(other.neg())
    }

    /// Exact multiplication: the product fraction, or `None` out of range.
    pub fn mul(self, other: Rat) -> (r: Option<Rat>)
        requires
            self.wf(),
            other.wf(),
        ensures
            r matches Some(q) ==> q.wf() && q@ == rat_mul(self@, other@),
            r is None <==> !fits(rat_mul(self@, other@)),
    {
        proof {
            lemma_cross_products_fit(self@, other@);
        }
        let n = self.num * other.num;
        let d = self.den * other.den;
        if n == 0 {
            Some(Rat { num: 0, den: 1 })
        } else if -BOUND <= n && n <= BOUND && d <= BOUND {
            Some(Rat { num: n, den: d })
        } else {
            None
        }
    }

    /// Exact division: `None` for a zero divisor or a result out of range.
    pub fn div(self, other: Rat) -> (r: Option<Rat>)
        requires
            self.wf(),
            other.wf(),
        ensures
            r matches Some(q) ==> q.wf() && other@.0 != 0 && q@ == rat_div(self@, other@),
            r is None <==> other@.0 == 0 || !fits(rat_div(self@, other@)),
    {
        if other.num == 0 {
            None
        } else {
            let (on, od) = if other.num < 0 {
                (-other.den, -other.num)
            } else {
                (other.den, other.num)
            };
            proof {
                assert(-(BOUND as int) * (BOUND as int) <= self.num * on <= (BOUND as int) * (BOUND as int)
                    && 1 <= self.den * od <= (BOUND as int) * (BOUND as int)) by (nonlinear_arith)
                    requires
                        -(BOUND as int) <= self.num <= BOUND as int,
                        -(BOUND as int) <= on <= BOUND as int,
                        1 <= self.den <= BOUND as int,
                        1 <= od <= BOUND as int;
            }
            let n = self.num * on;
            let d = self.den * od;
            proof {
                assert((self.num as int) * (-(other.den as int)) == -((self.num as int) * (other.den as int)))
                    by (nonlinear_arith);
            }
            if n == 0 {
                Some(Rat { num: 0, den: 1 })
            } else if -BOUND <= n && n <= BOUND && d <= BOUND {
                Some(Rat { num: n, den: d })
            } else {
                None
            }
        }
    }

    /// Value comparison: strictly less.
    pub fn lt(&self, other: &Rat) -> (r: bool)
        requires
            self.wf(),
            other.wf(),
        ensures
            r == rat_lt(self@, other@),
    {
        proof {
            lemma_cross_products_fit(self@, other@);
        }
        self.num * other.den < other.num * self.den
    }

    /// Value comparison: less or equal.
    pub fn le(&self, other: &Rat) -> (r: bool)
        requires
            self.wf(),
            other.wf(),
        ensures
            r == rat_le(self@, other@),
    {
        proof {
            lemma_cross_products_fit(self@, other@);
        }
        self.num * other.den <= other.num * self.den
    }

    /// Value equality (cross multiplication; fractions are not reduced).
    pub fn eq_val(&self, other: &Rat) -> (r: bool)
        requires
            self.wf(),
            other.wf(),
        ensures
            r == rat_eq(self@, other@),
    {
        proof {
            lemma_cross_products_fit(self@, other@);
        }
        self.num * other.den == other.num * self.den
    }

    /// The larger of the two values (the second on a tie).
    pub fn max(self, other: Rat) -> (r: Rat)
        requires
            self.wf(),
            other.wf(),
        ensures
            r.wf(),
            r == (if rat_lt(other@, self@) { self } else { other }),
    {
        if other.lt(&self) {
            self
        } else {
            other
        }
    }
}

/// Value equality of fractions with positive denominators is
/// transitive.
pub proof fn lemma_rat_eq_trans(a: (int, int), b: (int, int), c: (int, int))
    requires
        b.1 >= 1,
        rat_eq(a, b),
        rat_eq(b, c),
    ensures
        rat_eq(a, c),
{
    assert(rat_eq(a, c)) by (nonlinear_arith)
        requires b.1 >= 1 && rat_eq(a, b) && rat_eq(b, c);
}

/// The sum fraction denotes the cross-multiplied sum, whichever branch
/// produced it, and keeps a positive denominator.
pub proof fn lemma_add_eqv(a: (int, int), b: (int, int))
    requires
        a.1 >= 1,
        b.1 >= 1,
    ensures
        rat_add(a, b).1 >= 1,
        rat_eq(rat_add(a, b), (a.0 * b.1 + b.0 * a.1, a.1 * b.1)),
{
    if a.1 == b.1 {
        assert(rat_eq(norm0((a.0 + b.0, a.1)), (a.0 * b.1 + b.0 * a.1, a.1 * b.1)))
            by (nonlinear_arith)
            requires a.1 >= 1 && a.1 == b.1;
    } else {
        assert(rat_eq(norm0((a.0 * b.1 + b.0 * a.1, a.1 * b.1)), (a.0 * b.1 + b.0 * a.1, a.1 * b.1))
            && (a.1 * b.1 >= 1)) by (nonlinear_arith)
            requires a.1 >= 1 && b.1 >= 1;
    }
}

/// The product fraction denotes the product of numerators over the
/// product of denominators.
pub proof fn lemma_mul_eqv(a: (int, int), b: (int, int))
    requires
        a.1 >= 1,
        b.1 >= 1,
    ensures
        rat_mul(a, b).1 >= 1,
        rat_eq(rat_mul(a, b), (a.0 * b.0, a.1 * b.1)),
{
    assert(rat_eq(norm0((a.0 * b.0, a.1 * b.1)), (a.0 * b.0, a.1 * b.1)) && a.1 * b.1 >= 1)
        by (nonlinear_arith)
        requires a.1 >= 1 && b.1 >= 1;
}

/// Dividing by a positive fraction multiplies by its reciprocal.
pub proof fn lemma_div_pos_eqv(a: (int, int), b: (int, int))
    requires
        a.1 >= 1,
        b.1 >= 1,
        b.0 >= 1,
    ensures
        rat_div(a, b).1 >= 1,
        rat_eq(rat_div(a, b), (a.0 * b.1, a.1 * b.0)),
{
    assert(rat_eq(norm0((a.0 * b.1, a.1 * b.0)), (a.0 * b.1, a.1 * b.0)) && a.1 * b.0 >= 1)
        by (nonlinear_arith)
        requires a.1 >= 1 && b.1 >= 1 && b.0 >= 1;
}

/// Value equality is symmetric.
pub proof fn lemma_rat_eq_sym(a: (int, int), b: (int, int))
    requires
        rat_eq(a, b),
    ensures
        rat_eq(b, a),
{
}

/// Grouping of a product of three fractions does not change its value.
pub proof fn lemma_mul_assoc_eqv(a: (int, int), b: (int, int), c: (int, int))
    requires
        a.1 >= 1,
        b.1 >= 1,
        c.1 >= 1,
    ensures
        rat_eq(rat_mul(a, rat_mul(b, c)), rat_mul(rat_mul(a, b), c)),
{
    let bc = rat_mul(b, c);
    let ab = rat_mul(a, b);
    let l = rat_mul(a, bc);
    let r = rat_mul(ab, c);
    lemma_mul_eqv(b, c);
    lemma_mul_eqv(a, b);
    lemma_mul_eqv(a, bc);
    lemma_mul_eqv(ab, c);
    let lraw = (a.0 * bc.0, a.1 * bc.1);
    let rraw = (ab.0 * c.0, ab.1 * c.1);
    let mid = (a.0 * (b.0 * c.0), a.1 * (b.1 * c.1));
    assert((a.0 * bc.0) * (a.1 * (b.1 * c.1)) == (a.0 * a.1) * (bc.0 * (b.1 * c.1)))
        by (nonlinear_arith);
    assert((a.0 * (b.0 * c.0)) * (a.1 * bc.1) == (a.0 * a.1) * ((b.0 * c.0) * bc.1))
        by (nonlinear_arith);
    assert((a.0 * a.1) * (bc.0 * (b.1 * c.1)) == (a.0 * a.1) * ((b.0 * c.0) * bc.1))
        by (nonlinear_arith)
        requires bc.0 * (b.1 * c.1) == (b.0 * c.0) * bc.1;
    assert(rat_eq(lraw, mid));
    assert((ab.0 * c.0) * (a.1 * (b.1 * c.1)) == (c.0 * c.1) * (ab.0 * (a.1 * b.1)))
        by (nonlinear_arith);
    assert((a.0 * (b.0 * c.0)) * (ab.1 * c.1) == (c.0 * c.1) * ((a.0 * b.0) * ab.1))
        by (nonlinear_arith);
    assert((c.0 * c.1) * (ab.0 * (a.1 * b.1)) == (c.0 * c.1) * ((a.0 * b.0) * ab.1))
        by (nonlinear_arith)
        requires ab.0 * (a.1 * b.1) == (a.0 * b.0) * ab.1;
    assert(rat_eq(rraw, mid));
    assert(a.1 * bc.1 >= 1 && ab.1 * c.1 >= 1 && a.1 * (b.1 * c.1) >= 1) by (nonlinear_arith)
        requires a.1 >= 1 && b.1 >= 1 && c.1 >= 1 && bc.1 >= 1 && ab.1 >= 1;
    lemma_rat_eq_trans(l, lraw, mid);
    lemma_rat_eq_sym(rraw, mid);
    lemma_rat_eq_sym(r, rraw);
    lemma_rat_eq_trans(mid, rraw, r);
    lemma_rat_eq_sym(mid, rraw);
    lemma_rat_eq_trans(l, mid, r);
}

/// Cross products of two in-range fractions stay well inside `i128`.
proof fn lemma_cross_products_fit(a: (int, int), b: (int, int))
    requires
        fits(a),
        fits(b),
    ensures
        -(BOUND as int) * (BOUND as int) <= a.0 * b.1 <= (BOUND as int) * (BOUND as int),
        -(BOUND as int) * (BOUND as int) <= b.0 * a.1 <= (BOUND as int) * (BOUND as int),
        -(BOUND as int) * (BOUND as int) <= a.0 * b.0 <= (BOUND as int) * (BOUND as int),
        1 <= a.1 * b.1 <= (BOUND as int) * (BOUND as int),
        (BOUND as int) * (BOUND as int) < i128::MAX,
        2 * ((BOUND as int) * (BOUND as int)) < i128::MAX,
{
    assert(-(BOUND as int) * (BOUND as int) <= a.0 * b.1 <= (BOUND as int) * (BOUND as int)
        && -(BOUND as int) * (BOUND as int) <= b.0 * a.1 <= (BOUND as int) * (BOUND as int)
        && -(BOUND as int) * (BOUND as int) <= a.0 * b.0 <= (BOUND as int) * (BOUND as int)
        && 1 <= a.1 * b.1 <= (BOUND as int) * (BOUND as int)) by (nonlinear_arith)
        requires fits(a) && fits(b);
}

} // verus!

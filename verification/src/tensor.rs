//! Exact rational tensors for the tape.
//!
//! A `Tensor` is a row-major value of any rank; the tape uses rank 0
//! (the loss), rank 1 (activations) and rank 2 (weight matrices).  Every
//! operation states its result exactly over the spec model `TensorV`;
//! a shape mismatch or an exact fraction out of range is an error, never
//! a wrong value.
//!
//! The logistic sigmoid is transcendental and has no exact rational
//! value, so `Sigma` computes the algebraic sigmoid
//! `x / (2 * (1 + |x|)) + 1/2` — the same shape, range `(0, 1)`, value
//! `1/2` at zero — whose derivative `1 / (2 * (1 + |x|)^2)` is exact
//! too.

use vstd::prelude::*;

use crate::rat::Rat;
use crate::rat::fits;
use crate::rat::rat_add;
use crate::rat::rat_div;
use crate::rat::rat_mul;
use crate::rat::rat_neg;
use crate::rat::rat_of;

verus! {

/// Why a tape computation could not produce a value.
#[derive(Clone, Copy, PartialEq, Eq, Structural, Debug)]
pub enum TapeError {
    /// Two operands' shapes do not fit the operation.
    Shape,
    /// An exact fraction left the representable range.
    Overflow,
}

/// The mathematical value of a tensor: its shape and its fractions.
pub struct TensorV {
    pub shape: Seq<int>,
    pub data: Seq<(int, int)>,
}

/// The number of elements a shape holds.
pub open spec fn prod(s: Seq<int>) -> int
    decreases s.len(),
{
    if s.len() == 0 {
        1
    } else {
        s[0] * prod(s.drop_first())
    }
}

pub proof fn lemma_prod_one(n: int)
    ensures
        prod(seq![n]) == n,
{
    let s = seq![n];
    assert(s.drop_first() =~= Seq::<int>::empty());
    assert(prod(Seq::<int>::empty()) == 1);
    assert(prod(s) == n * prod(Seq::<int>::empty()));
}

pub proof fn lemma_prod_two(r: int, c: int)
    ensures
        prod(seq![r, c]) == r * c,
{
    let s = seq![r, c];
    assert(s.drop_first() =~= seq![c]);
    lemma_prod_one(c);
    assert(prod(s) == r * prod(seq![c]));
}

/// A row-major tensor of exact rationals.
#[derive(Clone, Debug)]
pub struct Tensor {
    pub shape: Vec<usize>,
    pub data: Vec<Rat>,
}

impl View for Tensor {
    type V = TensorV;

    open spec fn view(&self) -> TensorV {
        TensorV {
            shape: self.shape@.map_values(|x: usize| x as int),
            data: self.data@.map_values(|r: Rat| r@),
        }
    }
}

pub open spec fn datum_wf(p: (int, int)) -> bool {
    fits(p)
}

pub open spec fn tensor_v_wf(t: TensorV) -> bool {
    &&& t.data.len() == prod(t.shape)
    &&& forall|i: int| 0 <= i < t.shape.len() ==> 0 <= #[trigger] t.shape[i]
    &&& forall|i: int| 0 <= i < t.data.len() ==> datum_wf(#[trigger] t.data[i])
}

/// The empty tensor value: one dimension of length zero, no data.
pub open spec fn t_empty() -> TensorV {
    TensorV { shape: seq![0int], data: Seq::<(int, int)>::empty() }
}

impl Tensor {
    pub open spec fn wf(&self) -> bool {
        tensor_v_wf(self@)
    }

    /// The empty tensor a fresh node holds: one dimension of length
    /// zero, no data.
    pub fn empty() -> (r: Tensor)
        ensures
            r.wf(),
            r@ == t_empty(),
            r@.shape == seq![0int],
            r@.data == Seq::<(int, int)>::empty(),
    {
        let r = Tensor { shape: vec![0], data: Vec::new() };
        proof {
            assert(r@.shape =~= seq![0int]);
            assert(r@.data =~= Seq::<(int, int)>::empty());
            lemma_prod_one(0);
        }
        r
    }

    /// A rank-1 tensor of the given fractions.
    pub fn vector(data: Vec<Rat>) -> (r: Tensor)
        requires
            forall|i: int| 0 <= i < data@.len() ==> (#[trigger] data@[i]).wf(),
        ensures
            r.wf(),
            r@.shape == seq![data@.len() as int],
            r@.data == data@.map_values(|x: Rat| x@),
    {
        let n = data.len();
        let r = Tensor { shape: vec![n], data };
        proof {
            assert(r@.shape =~= seq![n as int]);
            lemma_prod_one(n as int);
        }
        r
    }

    /// A rank-2 tensor of the given fractions, row-major.
    pub fn matrix(rows: usize, cols: usize, data: Vec<Rat>) -> (r: Option<Tensor>)
        requires
            forall|i: int| 0 <= i < data@.len() ==> (#[trigger] data@[i]).wf(),
        ensures
            r is Some <==> data@.len() == rows * cols,
            r matches Some(t) ==> t.wf() && t@.shape == seq![rows as int, cols as int]
                && t@.data == data@.map_values(|x: Rat| x@),
    {
        proof {
            assert(rows * cols <= usize::MAX || rows * cols > usize::MAX) by (nonlinear_arith);
        }
        let ghost sz = (rows * cols) as int;
        if rows != 0 && data.len() / rows != cols {
            proof {
                assert(data@.len() != rows * cols) by (nonlinear_arith)
                    requires rows != 0 && (data@.len() as int) / (rows as int) != cols as int;
            }
            return None;
        }
        if rows != 0 && data.len() % rows != 0 {
            proof {
                assert(data@.len() != rows * cols) by (nonlinear_arith)
                    requires rows != 0 && (data@.len() as int) % (rows as int) != 0;
            }
            return None;
        }
        if rows == 0 && data.len() != 0 {
            proof {
                assert((0int) * (cols as int) == 0) by (nonlinear_arith);
            }
            return None;
        }
        proof {
            assert(data@.len() == rows * cols) by (nonlinear_arith)
                requires
                    rows == 0 ==> data@.len() == 0,
                    rows != 0 ==> (data@.len() as int) / (rows as int) == cols as int
                        && (data@.len() as int) % (rows as int) == 0;
        }
        let t = Tensor { shape: vec![rows, cols], data };
        proof {
            assert(t@.shape =~= seq![rows as int, cols as int]);
            lemma_prod_two(rows as int, cols as int);
        }
        Some(t)
    }

    /// A rank-0 tensor holding one fraction.
    pub fn scalar(x: Rat) -> (r: Tensor)
        requires
            x.wf(),
        ensures
            r.wf(),
            r@.shape == Seq::<int>::empty(),
            r@.data == seq![x@],
    {
        let r = Tensor { shape: Vec::new(), data: vec![x] };
        proof {
            assert(r@.shape =~= Seq::<int>::empty());
            assert(r@.data =~= seq![x@]);
            assert(prod(Seq::<int>::empty()) == 1);
        }
        r
    }

    /// An exact copy.
    pub fn dup(&self) -> (r: Tensor)
        ensures
            r@ == self@,
    {
        let shape = copy_shape(&self.shape);
        let mut data: Vec<Rat> = Vec::new();
        let mut i: usize = 0;
        while i < self.data.len()
            invariant
                i <= self.data@.len(),
                data@.len() == i,
                forall|j: int| 0 <= j < i ==> data@[j] == self.data@[j],
            decreases self.data@.len() - i,
        {
            data.push(self.data[i]);
            i = i + 1;
        }
        let r = Tensor { shape, data };
        proof {
            assert(data@ =~= self.data@);
            assert(r@.shape =~= self@.shape);
            assert(r@.data =~= self@.data);
        }
        r
    }

    /// A tensor of zeros in this tensor's shape.
    pub fn zeros_like(&self) -> (r: Tensor)
        requires
            self.wf(),
        ensures
            r.wf(),
            r@ == t_fill(self@.shape, (0int, 1int)),
    {
        fill_like(self, Rat::zero())
    }

    /// A tensor of ones in this tensor's shape.
    pub fn ones_like(&self) -> (r: Tensor)
        requires
            self.wf(),
        ensures
            r.wf(),
            r@ == t_fill(self@.shape, (1int, 1int)),
    {
        fill_like(self, Rat::one())
    }
}

/// The tensor of the given shape holding `x` everywhere.
pub open spec fn t_fill(shape: Seq<int>, x: (int, int)) -> TensorV {
    TensorV { shape, data: Seq::new(prod(shape) as nat, |i: int| x) }
}

fn fill_like(t: &Tensor, x: Rat) -> (r: Tensor)
    requires
        t.wf(),
        x.wf(),
    ensures
        r.wf(),
        r@ == t_fill(t@.shape, x@),
{
    let mut data: Vec<Rat> = Vec::new();
    let mut i: usize = 0;
    while i < t.data.len()
        invariant
            x.wf(),
            i <= t.data@.len(),
            data@.len() == i,
            forall|j: int| 0 <= j < i ==> data@[j] == x,
        decreases t.data@.len() - i,
    {
        data.push(x);
        i = i + 1;
    }
    let mut shape: Vec<usize> = Vec::new();
    let mut i: usize = 0;
    while i < t.shape.len()
        invariant
            i <= t.shape@.len(),
            shape@.len() == i,
            forall|j: int| 0 <= j < i ==> shape@[j] == t.shape@[j],
        decreases t.shape@.len() - i,
    {
        shape.push(t.shape[i]);
        i = i + 1;
    }
    let r = Tensor { shape, data };
    proof {
        assert(r@.shape =~= t@.shape);
        assert(r@.data =~= Seq::new(prod(t@.shape) as nat, |i: int| x@));
    }
    r
}

/// Elementwise exact addition of two same-shaped tensors.
pub open spec fn t_add(a: TensorV, b: TensorV) -> Result<TensorV, TapeError> {
    if a.shape != b.shape {
        Err(TapeError::Shape)
    } else if forall|i: int| 0 <= i < a.data.len() ==> fits(rat_add(#[trigger] a.data[i], b.data[i])) {
        Ok(TensorV { shape: a.shape, data: Seq::new(a.data.len(), |i: int| rat_add(a.data[i], b.data[i])) })
    } else {
        Err(TapeError::Overflow)
    }
}

/// Whether two shapes are the same.
fn same_shape(a: &Tensor, b: &Tensor) -> (r: bool)
    ensures
        r == (a@.shape == b@.shape),
{
    if a.shape.len() != b.shape.len() {
        proof {
            assert(a@.shape.len() != b@.shape.len());
        }
        return false;
    }
    let mut i: usize = 0;
    while i < a.shape.len()
        invariant
            a.shape@.len() == b.shape@.len(),
            i <= a.shape@.len(),
            forall|j: int| 0 <= j < i ==> a.shape@[j] == b.shape@[j],
        decreases a.shape@.len() - i,
    {
        if a.shape[i] != b.shape[i] {
            proof {
                assert(a@.shape[i as int] != b@.shape[i as int]);
            }
            return false;
        }
        i = i + 1;
    }
    proof {
        assert(a@.shape =~= b@.shape);
    }
    true
}

/// Add two same-shaped tensors, exactly.
pub fn tensor_add(a: &Tensor, b: &Tensor) -> (r: Result<Tensor, TapeError>)
    requires
        a.wf(),
        b.wf(),
    ensures
        r matches Ok(t) ==> t_add(a@, b@) == Ok::<TensorV, TapeError>(t@) && t.wf(),
        r matches Err(e) ==> t_add(a@, b@) == Err::<TensorV, TapeError>(e),
{
    if !same_shape(a, b) {
        return Err(TapeError::Shape);
    }
    proof {
        assert(a@.data.len() == b@.data.len());
    }
    let mut data: Vec<Rat> = Vec::new();
    let mut i: usize = 0;
    while i < a.data.len()
        invariant
            a.wf(),
            b.wf(),
            a@.shape == b@.shape,
            a@.data.len() == b@.data.len(),
            i <= a.data@.len(),
            data@.len() == i,
            forall|j: int| 0 <= j < i ==> fits(rat_add(#[trigger] a@.data[j], b@.data[j])),
            forall|j: int| 0 <= j < i ==> (#[trigger] data@[j])@ == rat_add(a@.data[j], b@.data[j]),
            forall|j: int| 0 <= j < i ==> (#[trigger] data@[j]).wf(),
        decreases a.data@.len() - i,
    {
        proof {
            assert(a@.data[i as int] == a.data@[i as int]@ && b@.data[i as int] == b.data@[i as int]@);
            assert(datum_wf(a@.data[i as int]) && datum_wf(b@.data[i as int]));
        }
        match a.data[i].add(b.data[i]) {
            Some(x) => {
                proof {
                    assert(x@ == rat_add(a@.data[i as int], b@.data[i as int]));
                    assert(fits(rat_add(a@.data[i as int], b@.data[i as int])));
                }
                data.push(x);
            },
            None => {
                proof {
                    assert(!fits(rat_add(a@.data[i as int], b@.data[i as int])));
                }
                return Err(TapeError::Overflow);
            },
        }
        i = i + 1;
    }
    let mut shape: Vec<usize> = Vec::new();
    let mut i: usize = 0;
    while i < a.shape.len()
        invariant
            i <= a.shape@.len(),
            shape@.len() == i,
            forall|j: int| 0 <= j < i ==> shape@[j] == a.shape@[j],
        decreases a.shape@.len() - i,
    {
        shape.push(a.shape[i]);
        i = i + 1;
    }
    let t = Tensor { shape, data };
    proof {
        assert forall|j: int| 0 <= j < a@.data.len() implies fits(
            rat_add(#[trigger] a@.data[j], b@.data[j]),
        ) by {
            assert(data@[j]@ == rat_add(a@.data[j], b@.data[j]));
        }
        assert(t@.shape =~= a@.shape);
        assert(t@.data =~= Seq::new(a@.data.len(), |i: int| rat_add(a@.data[i], b@.data[i])));
    }
    Ok(t)
}

pub open spec fn data_wf(s: Seq<Rat>) -> bool {
    forall|i: int| 0 <= i < s.len() ==> (#[trigger] s[i]).wf()
}

/// Elementwise exact multiplication of two same-shaped tensors.
pub open spec fn t_mul_elem(a: TensorV, b: TensorV) -> Result<TensorV, TapeError> {
    if a.shape != b.shape {
        Err(TapeError::Shape)
    } else if forall|i: int| 0 <= i < a.data.len() ==> fits(rat_mul(#[trigger] a.data[i], b.data[i])) {
        Ok(TensorV { shape: a.shape, data: Seq::new(a.data.len(), |i: int| rat_mul(a.data[i], b.data[i])) })
    } else {
        Err(TapeError::Overflow)
    }
}

/// Multiply two same-shaped tensors elementwise, exactly.
pub fn tensor_mul_elem(a: &Tensor, b: &Tensor) -> (r: Result<Tensor, TapeError>)
    requires
        a.wf(),
        b.wf(),
    ensures
        r matches Ok(t) ==> t_mul_elem(a@, b@) == Ok::<TensorV, TapeError>(t@) && t.wf(),
        r matches Err(e) ==> t_mul_elem(a@, b@) == Err::<TensorV, TapeError>(e),
{
    if !same_shape(a, b) {
        return Err(TapeError::Shape);
    }
    let mut data: Vec<Rat> = Vec::new();
    let mut i: usize = 0;
    while i < a.data.len()
        invariant
            a.wf(),
            b.wf(),
            a@.shape == b@.shape,
            a@.data.len() == b@.data.len(),
            i <= a.data@.len(),
            data@.len() == i,
            forall|j: int| 0 <= j < i ==> fits(rat_mul(#[trigger] a@.data[j], b@.data[j])),
            forall|j: int| 0 <= j < i ==> (#[trigger] data@[j])@ == rat_mul(a@.data[j], b@.data[j]),
            forall|j: int| 0 <= j < i ==> (#[trigger] data@[j]).wf(),
        decreases a.data@.len() - i,
    {
        proof {
            assert(a@.data[i as int] == a.data@[i as int]@ && b@.data[i as int] == b.data@[i as int]@);
            assert(datum_wf(a@.data[i as int]) && datum_wf(b@.data[i as int]));
        }
        match a.data[i].mul(b.data[i]) {
            Some(x) => {
                proof {
                    assert(x@ == rat_mul(a@.data[i as int], b@.data[i as int]));
                }
                data.push(x);
            },
            None => {
                proof {
                    assert(!fits(rat_mul(a@.data[i as int], b@.data[i as int])));
                }
                return Err(TapeError::Overflow);
            },
        }
        i = i + 1;
    }
    let shape = copy_shape(&a.shape);
    let t = Tensor { shape, data };
    proof {
        assert forall|j: int| 0 <= j < a@.data.len() implies fits(
            rat_mul(#[trigger] a@.data[j], b@.data[j]),
        ) by {
            assert(data@[j]@ == rat_mul(a@.data[j], b@.data[j]));
        }
        assert(t@.shape =~= a@.shape);
        assert(t@.data =~= Seq::new(a@.data.len(), |i: int| rat_mul(a@.data[i], b@.data[i])));
    }
    Ok(t)
}

fn copy_shape(s: &Vec<usize>) -> (r: Vec<usize>)
    ensures
        r@ == s@,
{
    let mut shape: Vec<usize> = Vec::new();
    let mut i: usize = 0;
    while i < s.len()
        invariant
            i <= s@.len(),
            shape@.len() == i,
            forall|j: int| 0 <= j < i ==> shape@[j] == s@[j],
        decreases s@.len() - i,
    {
        shape.push(s[i]);
        i = i + 1;
    }
    proof {
        assert(shape@ =~= s@);
    }
    shape
}

/// The rectifier of one fraction: the fraction where positive, zero
/// elsewhere.
pub open spec fn relu_p(p: (int, int)) -> (int, int) {
    if p.0 > 0 {
        p
    } else {
        (0, 1)
    }
}

/// Its slope: one where positive, zero elsewhere.
pub open spec fn relu_deriv_p(p: (int, int)) -> (int, int) {
    if p.0 > 0 {
        (1, 1)
    } else {
        (0, 1)
    }
}

/// The algebraic sigmoid of one fraction:
/// `x / (2 * (1 + |x|)) + 1/2`.
pub open spec fn sigma_p(p: (int, int)) -> (int, int) {
    rat_add((1, 2), rat_div(p, sigma_den(p)))
}

/// The sigmoid's positive denominator fraction, `2 * (1 + |x|)`.
pub open spec fn sigma_den(p: (int, int)) -> (int, int) {
    rat_mul((2, 1), rat_add((1, 1), (if p.0 < 0 { -p.0 } else { p.0 }, p.1)))
}

pub open spec fn sigma_fits(p: (int, int)) -> bool {
    let ax = (if p.0 < 0 { -p.0 } else { p.0 }, p.1);
    &&& fits(rat_add((1, 1), ax))
    &&& fits(sigma_den(p))
    &&& fits(rat_div(p, sigma_den(p)))
    &&& fits(sigma_p(p))
}

/// The sigmoid's slope at one fraction: `1 / (2 * (1 + |x|)^2)`.
pub open spec fn sigma_deriv_p(p: (int, int)) -> (int, int) {
    rat_div((1, 1), rat_mul((2, 1), rat_mul(one_plus_abs(p), one_plus_abs(p))))
}

pub open spec fn one_plus_abs(p: (int, int)) -> (int, int) {
    rat_add((1, 1), (if p.0 < 0 { -p.0 } else { p.0 }, p.1))
}

pub open spec fn sigma_deriv_fits(p: (int, int)) -> bool {
    &&& fits(one_plus_abs(p))
    &&& fits(rat_mul(one_plus_abs(p), one_plus_abs(p)))
    &&& fits(rat_mul((2, 1), rat_mul(one_plus_abs(p), one_plus_abs(p))))
    &&& fits(sigma_deriv_p(p))
}

/// The sigmoid of one in-range fraction, or `None` out of range.
fn sigma_rat(x: Rat) -> (r: Option<Rat>)
    requires
        x.wf(),
    ensures
        r is Some <==> sigma_fits(x@),
        r matches Some(y) ==> y.wf() && y@ == sigma_p(x@),
{
    let ax = if x.num < 0 {
        x.neg()
    } else {
        x
    };
    let two = Rat::from_int(2);
    let s = match Rat::one().add(ax) {
        Some(s) => s,
        None => {
            return None;
        },
    };
    let d = match two.mul(s) {
        Some(d) => d,
        None => {
            return None;
        },
    };
    proof {
        assert(d@ == sigma_den(x@));
        assert(d@.0 > 0) by (nonlinear_arith)
            requires
                d@ == sigma_den(x@),
                x@.1 >= 1,
                fits(rat_add((1int, 1int), ((if x@.0 < 0 { -x@.0 } else { x@.0 }), x@.1)));
    }
    let t = match x.div(d) {
        Some(t) => t,
        None => {
            return None;
        },
    };
    let half = match Rat::new(1, 2) {
        Some(h) => h,
        None => {
            return None;
        },
    };
    match half.add(t) {
        Some(y) => Some(y),
        None => None,
    }
}

/// The sigmoid's slope at one in-range fraction.
fn sigma_deriv_rat(x: Rat) -> (r: Option<Rat>)
    requires
        x.wf(),
    ensures
        r is Some <==> sigma_deriv_fits(x@),
        r matches Some(y) ==> y.wf() && y@ == sigma_deriv_p(x@),
{
    let ax = if x.num < 0 {
        x.neg()
    } else {
        x
    };
    let s = match Rat::one().add(ax) {
        Some(s) => s,
        None => {
            return None;
        },
    };
    let sq = match s.mul(s) {
        Some(sq) => sq,
        None => {
            return None;
        },
    };
    let dd = match Rat::from_int(2).mul(sq) {
        Some(dd) => dd,
        None => {
            return None;
        },
    };
    proof {
        assert(dd@ == rat_mul((2int, 1int), rat_mul(one_plus_abs(x@), one_plus_abs(x@))));
        assert(dd@.0 > 0) by (nonlinear_arith)
            requires
                dd@ == rat_mul(
                    (2int, 1int),
                    rat_mul(one_plus_abs(x@), one_plus_abs(x@)),
                ),
                x@.1 >= 1,
                fits(one_plus_abs(x@)),
                fits(rat_mul(one_plus_abs(x@), one_plus_abs(x@)));
    }
    match Rat::one().div(dd) {
        Some(y) => Some(y),
        None => None,
    }
}

/// The rectifier applied elementwise (always exact).
pub open spec fn t_relu(a: TensorV) -> TensorV {
    TensorV { shape: a.shape, data: Seq::new(a.data.len(), |i: int| relu_p(a.data[i])) }
}

/// Apply the rectifier elementwise.
pub fn tensor_relu(a: &Tensor) -> (r: Tensor)
    requires
        a.wf(),
    ensures
        r.wf(),
        r@ == t_relu(a@),
{
    let mut data: Vec<Rat> = Vec::new();
    let mut i: usize = 0;
    while i < a.data.len()
        invariant
            a.wf(),
            i <= a.data@.len(),
            data@.len() == i,
            forall|j: int| 0 <= j < i ==> (#[trigger] data@[j])@ == relu_p(a@.data[j]),
            forall|j: int| 0 <= j < i ==> (#[trigger] data@[j]).wf(),
        decreases a.data@.len() - i,
    {
        proof {
            assert(a@.data[i as int] == a.data@[i as int]@);
            assert(datum_wf(a@.data[i as int]));
        }
        let x = a.data[i];
        if x.num > 0 {
            data.push(x);
        } else {
            data.push(Rat::zero());
        }
        i = i + 1;
    }
    let shape = copy_shape(&a.shape);
    let t = Tensor { shape, data };
    proof {
        assert(t@.shape =~= a@.shape);
        assert(t@.data =~= Seq::new(a@.data.len(), |i: int| relu_p(a@.data[i])));
    }
    t
}

/// The rectifier's slope applied elementwise (always exact).
pub open spec fn t_relu_deriv(a: TensorV) -> TensorV {
    TensorV { shape: a.shape, data: Seq::new(a.data.len(), |i: int| relu_deriv_p(a.data[i])) }
}

/// The rectifier's slope, elementwise.
pub fn tensor_relu_deriv(a: &Tensor) -> (r: Tensor)
    requires
        a.wf(),
    ensures
        r.wf(),
        r@ == t_relu_deriv(a@),
{
    let mut data: Vec<Rat> = Vec::new();
    let mut i: usize = 0;
    while i < a.data.len()
        invariant
            a.wf(),
            i <= a.data@.len(),
            data@.len() == i,
            forall|j: int| 0 <= j < i ==> (#[trigger] data@[j])@ == relu_deriv_p(a@.data[j]),
            forall|j: int| 0 <= j < i ==> (#[trigger] data@[j]).wf(),
        decreases a.data@.len() - i,
    {
        proof {
            assert(a@.data[i as int] == a.data@[i as int]@);
        }
        let x = a.data[i];
        if x.num > 0 {
            data.push(Rat::one());
        } else {
            data.push(Rat::zero());
        }
        i = i + 1;
    }
    let shape = copy_shape(&a.shape);
    let t = Tensor { shape, data };
    proof {
        assert(t@.shape =~= a@.shape);
        assert(t@.data =~= Seq::new(a@.data.len(), |i: int| relu_deriv_p(a@.data[i])));
    }
    t
}

/// The sigmoid applied elementwise.
pub open spec fn t_sigma(a: TensorV) -> Result<TensorV, TapeError> {
    if forall|i: int| 0 <= i < a.data.len() ==> sigma_fits(#[trigger] a.data[i]) {
        Ok(TensorV { shape: a.shape, data: Seq::new(a.data.len(), |i: int| sigma_p(a.data[i])) })
    } else {
        Err(TapeError::Overflow)
    }
}

/// Apply the sigmoid elementwise, exactly.
pub fn tensor_sigma(a: &Tensor) -> (r: Result<Tensor, TapeError>)
    requires
        a.wf(),
    ensures
        r matches Ok(t) ==> t_sigma(a@) == Ok::<TensorV, TapeError>(t@) && t.wf(),
        r matches Err(e) ==> t_sigma(a@) == Err::<TensorV, TapeError>(e),
{
    let mut data: Vec<Rat> = Vec::new();
    let mut i: usize = 0;
    while i < a.data.len()
        invariant
            a.wf(),
            i <= a.data@.len(),
            data@.len() == i,
            forall|j: int| 0 <= j < i ==> sigma_fits(#[trigger] a@.data[j]),
            forall|j: int| 0 <= j < i ==> (#[trigger] data@[j])@ == sigma_p(a@.data[j]),
            forall|j: int| 0 <= j < i ==> (#[trigger] data@[j]).wf(),
        decreases a.data@.len() - i,
    {
        proof {
            assert(a@.data[i as int] == a.data@[i as int]@);
            assert(datum_wf(a@.data[i as int]));
        }
        match sigma_rat(a.data[i]) {
            Some(y) => {
                data.push(y);
            },
            None => {
                proof {
                    assert(!sigma_fits(a@.data[i as int]));
                }
                return Err(TapeError::Overflow);
            },
        }
        i = i + 1;
    }
    let shape = copy_shape(&a.shape);
    let t = Tensor { shape, data };
    proof {
        assert forall|j: int| 0 <= j < a@.data.len() implies sigma_fits(#[trigger] a@.data[j]) by {
            assert(data@[j]@ == sigma_p(a@.data[j]));
        }
        assert(t@.shape =~= a@.shape);
        assert(t@.data =~= Seq::new(a@.data.len(), |i: int| sigma_p(a@.data[i])));
    }
    Ok(t)
}

/// The sigmoid's slope applied elementwise.
pub open spec fn t_sigma_deriv(a: TensorV) -> Result<TensorV, TapeError> {
    if forall|i: int| 0 <= i < a.data.len() ==> sigma_deriv_fits(#[trigger] a.data[i]) {
        Ok(TensorV { shape: a.shape, data: Seq::new(a.data.len(), |i: int| sigma_deriv_p(a.data[i])) })
    } else {
        Err(TapeError::Overflow)
    }
}

/// The sigmoid's slope, elementwise, exactly.
pub fn tensor_sigma_deriv(a: &Tensor) -> (r: Result<Tensor, TapeError>)
    requires
        a.wf(),
    ensures
        r matches Ok(t) ==> t_sigma_deriv(a@) == Ok::<TensorV, TapeError>(t@) && t.wf(),
        r matches Err(e) ==> t_sigma_deriv(a@) == Err::<TensorV, TapeError>(e),
{
    let mut data: Vec<Rat> = Vec::new();
    let mut i: usize = 0;
    while i < a.data.len()
        invariant
            a.wf(),
            i <= a.data@.len(),
            data@.len() == i,
            forall|j: int| 0 <= j < i ==> sigma_deriv_fits(#[trigger] a@.data[j]),
            forall|j: int| 0 <= j < i ==> (#[trigger] data@[j])@ == sigma_deriv_p(a@.data[j]),
            forall|j: int| 0 <= j < i ==> (#[trigger] data@[j]).wf(),
        decreases a.data@.len() - i,
    {
        proof {
            assert(a@.data[i as int] == a.data@[i as int]@);
            assert(datum_wf(a@.data[i as int]));
        }
        match sigma_deriv_rat(a.data[i]) {
            Some(y) => {
                data.push(y);
            },
            None => {
                proof {
                    assert(!sigma_deriv_fits(a@.data[i as int]));
                }
                return Err(TapeError::Overflow);
            },
        }
        i = i + 1;
    }
    let shape = copy_shape(&a.shape);
    let t = Tensor { shape, data };
    proof {
        assert forall|j: int| 0 <= j < a@.data.len() implies sigma_deriv_fits(
            #[trigger] a@.data[j],
        ) by {
            assert(data@[j]@ == sigma_deriv_p(a@.data[j]));
        }
        assert(t@.shape =~= a@.shape);
        assert(t@.data =~= Seq::new(a@.data.len(), |i: int| sigma_deriv_p(a@.data[i])));
    }
    Ok(t)
}

/// The running strided dot product: the sum over the first `k` terms of
/// `md[start + j * stride] * vd[j]`.
pub open spec fn strided_dot(
    md: Seq<(int, int)>,
    start: int,
    stride: int,
    vd: Seq<(int, int)>,
    k: int,
) -> Option<(int, int)>
    decreases k,
{
    if k <= 0 {
        Some((0, 1))
    } else {
        match strided_dot(md, start, stride, vd, k - 1) {
            Some(acc) => {
                let t = rat_mul(md[start + (k - 1) * stride], vd[k - 1]);
                let s = rat_add(acc, t);
                if fits(t) && fits(s) {
                    Some(s)
                } else {
                    None
                }
            },
            None => None,
        }
    }
}

/// A failed prefix of a strided dot product fails every longer prefix.
proof fn lemma_strided_dot_none(md: Seq<(int, int)>, start: int, stride: int, vd: Seq<(int, int)>, k: int, n: int)
    requires
        strided_dot(md, start, stride, vd, k) is None,
        k <= n,
    ensures
        strided_dot(md, start, stride, vd, n) is None,
    decreases n - k,
{
    if k < n {
        lemma_strided_dot_none(md, start, stride, vd, k + 1, n);
    }
}

/// The exact dot product of `vd.len()` entries of `m` starting at
/// `start` with stride `stride` against `v`.
fn strided_dot_apply(m: &Vec<Rat>, start: usize, stride: usize, v: &Vec<Rat>) -> (r: Option<Rat>)
    requires
        data_wf(m@),
        data_wf(v@),
        v@.len() >= 1 ==> start + (v@.len() - 1) * stride < m@.len(),
    ensures
        r is Some <==> strided_dot(
            m@.map_values(|x: Rat| x@),
            start as int,
            stride as int,
            v@.map_values(|x: Rat| x@),
            v@.len() as int,
        ) is Some,
        r matches Some(x) ==> x.wf() && strided_dot(
            m@.map_values(|x: Rat| x@),
            start as int,
            stride as int,
            v@.map_values(|x: Rat| x@),
            v@.len() as int,
        ) == Some(x@),
{
    let ghost mdv = m@.map_values(|x: Rat| x@);
    let ghost vdv = v@.map_values(|x: Rat| x@);
    let ml = m.len();
    let mut acc = Rat::zero();
    let mut k: usize = 0;
    while k < v.len()
        invariant
            data_wf(m@),
            data_wf(v@),
            mdv == m@.map_values(|x: Rat| x@),
            vdv == v@.map_values(|x: Rat| x@),
            v@.len() >= 1 ==> start + (v@.len() - 1) * stride < m@.len(),
            m@.len() <= usize::MAX,
            k <= v@.len(),
            acc.wf(),
            strided_dot(mdv, start as int, stride as int, vdv, k as int) == Some(acc@),
        decreases v@.len() - k,
    {
        proof {
            assert(k * stride <= (v@.len() - 1) * stride) by (nonlinear_arith)
                requires 0 <= k <= v@.len() - 1 && stride >= 0;
        }
        let ix = start + k * stride;
        proof {
            assert(mdv[ix as int] == m@[ix as int]@ && vdv[k as int] == v@[k as int]@);
        }
        let t = match m[ix].mul(v[k]) {
            Some(x) => x,
            None => {
                proof {
                    assert(strided_dot(mdv, start as int, stride as int, vdv, k + 1) is None);
                    lemma_strided_dot_none(mdv, start as int, stride as int, vdv, k + 1, v@.len() as int);
                }
                return None;
            },
        };
        acc = match acc.add(t) {
            Some(x) => x,
            None => {
                proof {
                    assert(strided_dot(mdv, start as int, stride as int, vdv, k + 1) is None);
                    lemma_strided_dot_none(mdv, start as int, stride as int, vdv, k + 1, v@.len() as int);
                }
                return None;
            },
        };
        k = k + 1;
    }
    Some(acc)
}

/// The matrix-vector product of a rank-2 and a rank-1 tensor: row `i`
/// of the result is the dot product of matrix row `i` with the vector.
pub open spec fn t_matvec(m: TensorV, v: TensorV) -> Result<TensorV, TapeError> {
    if m.shape.len() != 2 || v.shape.len() != 1 || v.shape[0] != m.shape[1] {
        Err(TapeError::Shape)
    } else {
        let r = m.shape[0];
        let c = m.shape[1];
        if forall|i: int| 0 <= i < r ==> strided_dot(m.data, #[trigger] (i * c), 1, v.data, c) is Some {
            Ok(
                TensorV {
                    shape: seq![r],
                    data: Seq::new(r as nat, |i: int| strided_dot(m.data, i * c, 1, v.data, c)->Some_0),
                },
            )
        } else {
            Err(TapeError::Overflow)
        }
    }
}

/// Multiply a rank-2 tensor by a rank-1 tensor, exactly.
pub fn tensor_matvec(m: &Tensor, v: &Tensor) -> (r: Result<Tensor, TapeError>)
    requires
        m.wf(),
        v.wf(),
    ensures
        r matches Ok(t) ==> t_matvec(m@, v@) == Ok::<TensorV, TapeError>(t@) && t.wf(),
        r matches Err(e) ==> t_matvec(m@, v@) == Err::<TensorV, TapeError>(e),
{
    if m.shape.len() != 2 || v.shape.len() != 1 {
        return Err(TapeError::Shape);
    }
    let rows = m.shape[0];
    let cols = m.shape[1];
    if v.shape[0] != cols {
        return Err(TapeError::Shape);
    }
    proof {
        assert(m@.shape =~= seq![rows as int, cols as int]);
        assert(v@.shape =~= seq![v.shape@[0] as int]);
        lemma_prod_two(rows as int, cols as int);
        lemma_prod_one(cols as int);
    }
    let ghost mdv = m@.data;
    let ghost vdv = v@.data;
    let mdlen = m.data.len();
    let mut data: Vec<Rat> = Vec::new();
    let mut i: usize = 0;
    while i < rows
        invariant
            m.wf(),
            v.wf(),
            m@.shape == seq![rows as int, cols as int],
            v@.shape == seq![cols as int],
            m@.data.len() == rows * cols,
            m@.data.len() <= usize::MAX,
            v@.data.len() == cols,
            mdv == m@.data,
            vdv == v@.data,
            i <= rows,
            data@.len() == i,
            forall|j: int| 0 <= j < i ==> strided_dot(mdv, #[trigger] (j * (cols as int)), 1, vdv, cols as int) is Some,
            forall|j: int| 0 <= j < i ==> (#[trigger] data@[j])@ == strided_dot(
                mdv,
                j * (cols as int),
                1,
                vdv,
                cols as int,
            )->Some_0,
            forall|j: int| 0 <= j < i ==> (#[trigger] data@[j]).wf(),
        decreases rows - i,
    {
        proof {
            assert((i + 1) * (cols as int) <= (rows as int) * (cols as int)
                && i * (cols as int) + (cols as int) == (i + 1) * (cols as int)
                && i * (cols as int) >= 0) by (nonlinear_arith)
                requires 0 <= (i as int) < rows as int && cols as int >= 0;
            assert(mdv == m.data@.map_values(|x: Rat| x@));
            assert(vdv == v.data@.map_values(|x: Rat| x@));
            assert(data_wf(m.data@)) by {
                assert(forall|j: int| 0 <= j < m.data@.len()
                    ==> datum_wf(m@.data[j]) && m@.data[j] == (#[trigger] m.data@[j])@);
            }
            assert(data_wf(v.data@)) by {
                assert(forall|j: int| 0 <= j < v.data@.len()
                    ==> datum_wf(v@.data[j]) && v@.data[j] == (#[trigger] v.data@[j])@);
            }
        }
        let off = i * cols;
        match strided_dot_apply(&m.data, off, 1, &v.data) {
            Some(x) => {
                data.push(x);
            },
            None => {
                proof {
                    assert(strided_dot(mdv, (i as int) * (cols as int), 1, vdv, cols as int) is None);
                }
                return Err(TapeError::Overflow);
            },
        }
        i = i + 1;
    }
    let t = Tensor { shape: vec![rows], data };
    proof {
        lemma_prod_one(rows as int);
        assert(t@.shape =~= seq![rows as int]);
        assert forall|j: int| 0 <= j < rows as int implies strided_dot(
            mdv,
            #[trigger] (j * (cols as int)),
            1,
            vdv,
            cols as int,
        ) is Some by {
            assert(data@[j]@ == strided_dot(mdv, j * (cols as int), 1, vdv, cols as int)->Some_0);
        }
        assert(t@.data =~= Seq::new(
            rows as nat,
            |j: int| strided_dot(mdv, j * (cols as int), 1, vdv, cols as int)->Some_0,
        ));
    }
    Ok(t)
}

/// The transposed matrix-vector product: entry `j` of the result is the
/// dot product of matrix column `j` with the vector.
pub open spec fn t_matvec_t(m: TensorV, w: TensorV) -> Result<TensorV, TapeError> {
    if m.shape.len() != 2 || w.shape.len() != 1 || w.shape[0] != m.shape[0] {
        Err(TapeError::Shape)
    } else {
        let r = m.shape[0];
        let c = m.shape[1];
        if forall|j: int| 0 <= j < c ==> strided_dot(m.data, #[trigger] (j * 1), c, w.data, r) is Some {
            Ok(
                TensorV {
                    shape: seq![c],
                    data: Seq::new(c as nat, |j: int| strided_dot(m.data, j * 1, c, w.data, r)->Some_0),
                },
            )
        } else {
            Err(TapeError::Overflow)
        }
    }
}

/// Multiply a rank-2 tensor's transpose by a rank-1 tensor, exactly.
pub fn tensor_matvec_t(m: &Tensor, w: &Tensor) -> (r: Result<Tensor, TapeError>)
    requires
        m.wf(),
        w.wf(),
    ensures
        r matches Ok(t) ==> t_matvec_t(m@, w@) == Ok::<TensorV, TapeError>(t@) && t.wf(),
        r matches Err(e) ==> t_matvec_t(m@, w@) == Err::<TensorV, TapeError>(e),
{
    if m.shape.len() != 2 || w.shape.len() != 1 {
        return Err(TapeError::Shape);
    }
    let rows = m.shape[0];
    let cols = m.shape[1];
    if w.shape[0] != rows {
        return Err(TapeError::Shape);
    }
    proof {
        assert(m@.shape =~= seq![rows as int, cols as int]);
        assert(w@.shape =~= seq![w.shape@[0] as int]);
        lemma_prod_two(rows as int, cols as int);
        lemma_prod_one(rows as int);
    }
    let ghost mdv = m@.data;
    let ghost wdv = w@.data;
    let mdlen = m.data.len();
    let mut data: Vec<Rat> = Vec::new();
    let mut j: usize = 0;
    while j < cols
        invariant
            m.wf(),
            w.wf(),
            m@.shape == seq![rows as int, cols as int],
            w@.shape == seq![rows as int],
            m@.data.len() == rows * cols,
            m@.data.len() <= usize::MAX,
            w@.data.len() == rows,
            mdv == m@.data,
            wdv == w@.data,
            j <= cols,
            data@.len() == j,
            forall|k: int| 0 <= k < j ==> strided_dot(mdv, #[trigger] (k * 1), cols as int, wdv, rows as int) is Some,
            forall|k: int| 0 <= k < j ==> (#[trigger] data@[k])@ == strided_dot(
                mdv,
                k * 1,
                cols as int,
                wdv,
                rows as int,
            )->Some_0,
            forall|k: int| 0 <= k < j ==> (#[trigger] data@[k]).wf(),
        decreases cols - j,
    {
        proof {
            assert(rows as int >= 1 ==> (j as int) + ((rows as int) - 1) * (cols as int)
                < (rows as int) * (cols as int)) by (nonlinear_arith)
                requires 0 <= (j as int) < cols as int;
            assert(mdv == m.data@.map_values(|x: Rat| x@));
            assert(wdv == w.data@.map_values(|x: Rat| x@));
            assert(data_wf(m.data@)) by {
                assert(forall|k: int| 0 <= k < m.data@.len()
                    ==> datum_wf(m@.data[k]) && m@.data[k] == (#[trigger] m.data@[k])@);
            }
            assert(data_wf(w.data@)) by {
                assert(forall|k: int| 0 <= k < w.data@.len()
                    ==> datum_wf(w@.data[k]) && w@.data[k] == (#[trigger] w.data@[k])@);
            }
        }
        match strided_dot_apply(&m.data, j, cols, &w.data) {
            Some(x) => {
                proof {
                    assert(j * 1 == j as int) by (nonlinear_arith);
                }
                data.push(x);
            },
            None => {
                proof {
                    assert(j * 1 == j as int) by (nonlinear_arith);
                    assert(strided_dot(mdv, (j as int) * 1, cols as int, wdv, rows as int) is None);
                }
                return Err(TapeError::Overflow);
            },
        }
        j = j + 1;
    }
    let t = Tensor { shape: vec![cols], data };
    proof {
        lemma_prod_one(cols as int);
        assert(t@.shape =~= seq![cols as int]);
        assert forall|k: int| 0 <= k < cols as int implies strided_dot(
            mdv,
            #[trigger] (k * 1),
            cols as int,
            wdv,
            rows as int,
        ) is Some by {
            assert(data@[k]@ == strided_dot(mdv, k * 1, cols as int, wdv, rows as int)->Some_0);
        }
        assert(t@.data =~= Seq::new(
            cols as nat,
            |k: int| strided_dot(mdv, k * 1, cols as int, wdv, rows as int)->Some_0,
        ));
    }
    Ok(t)
}

/// The outer product of two rank-1 tensors: a rank-2 tensor whose entry
/// `(i, j)` is `a[i] * b[j]`.
pub open spec fn t_outer(a: TensorV, b: TensorV) -> Result<TensorV, TapeError> {
    if a.shape.len() != 1 || b.shape.len() != 1 {
        Err(TapeError::Shape)
    } else {
        let n = a.shape[0];
        let m = b.shape[0];
        if n * m > usize::MAX {
            Err(TapeError::Overflow)
        } else if forall|k: int| 0 <= k < n * m ==> fits(rat_mul(a.data[#[trigger] (k / m)], b.data[k % m])) {
            Ok(
                TensorV {
                    shape: seq![n, m],
                    data: Seq::new((n * m) as nat, |k: int| rat_mul(a.data[k / m], b.data[k % m])),
                },
            )
        } else {
            Err(TapeError::Overflow)
        }
    }
}

/// The outer product of two rank-1 tensors, exactly.
pub fn tensor_outer(a: &Tensor, b: &Tensor) -> (r: Result<Tensor, TapeError>)
    requires
        a.wf(),
        b.wf(),
    ensures
        r matches Ok(t) ==> t_outer(a@, b@) == Ok::<TensorV, TapeError>(t@) && t.wf(),
        r matches Err(e) ==> t_outer(a@, b@) == Err::<TensorV, TapeError>(e),
{
    if a.shape.len() != 1 || b.shape.len() != 1 {
        return Err(TapeError::Shape);
    }
    let n = a.shape[0];
    let m = b.shape[0];
    proof {
        assert(a@.shape =~= seq![n as int]);
        assert(b@.shape =~= seq![m as int]);
        lemma_prod_one(n as int);
        lemma_prod_one(m as int);
    }
    if m != 0 && n > usize::MAX / m {
        proof {
            assert((n as int) * (m as int) > usize::MAX) by (nonlinear_arith)
                requires m as int >= 1 && n as int > (usize::MAX as int) / (m as int);
        }
        return Err(TapeError::Overflow);
    }
    if m == 0 || n == 0 {
        let t = Tensor { shape: vec![n, m], data: Vec::new() };
        proof {
            assert((n as int) * (m as int) == 0) by (nonlinear_arith)
                requires n == 0 || m == 0;
            lemma_prod_two(n as int, m as int);
            assert(t@.shape =~= seq![n as int, m as int]);
            assert(t@.data =~= Seq::new(((n as int) * (m as int)) as nat, |k: int| rat_mul(a@.data[k / (m as int)], b@.data[k % (m as int)])));
        }
        return Ok(t);
    }
    proof {
        assert((n as int) * (m as int) <= usize::MAX) by (nonlinear_arith)
            requires m as int >= 1 && n as int <= (usize::MAX as int) / (m as int);
    }
    let total = n * m;
    let mut data: Vec<Rat> = Vec::new();
    let mut k: usize = 0;
    while k < total
        invariant
            a.wf(),
            b.wf(),
            a@.shape == seq![n as int],
            b@.shape == seq![m as int],
            a@.data.len() == n,
            b@.data.len() == m,
            m >= 1,
            total == n * m,
            k <= total,
            data@.len() == k,
            forall|j: int| 0 <= j < k ==> fits(rat_mul(a@.data[#[trigger] (j / (m as int))], b@.data[j % (m as int)])),
            forall|j: int| 0 <= j < k ==> (#[trigger] data@[j])@ == rat_mul(
                a@.data[j / (m as int)],
                b@.data[j % (m as int)],
            ),
            forall|j: int| 0 <= j < k ==> (#[trigger] data@[j]).wf(),
        decreases total - k,
    {
        let i = k / m;
        let j = k % m;
        proof {
            assert(0 <= (k as int) / (m as int) < n as int && 0 <= (k as int) % (m as int) < m as int)
                by (nonlinear_arith)
                requires m as int >= 1 && 0 <= (k as int) < (n as int) * (m as int);
            assert(a@.data[i as int] == a.data@[i as int]@ && b@.data[j as int] == b.data@[j as int]@);
            assert(datum_wf(a@.data[i as int]) && datum_wf(b@.data[j as int]));
        }
        match a.data[i].mul(b.data[j]) {
            Some(x) => {
                data.push(x);
            },
            None => {
                proof {
                    assert(!fits(rat_mul(a@.data[(k as int) / (m as int)], b@.data[(k as int) % (m as int)])));
                }
                return Err(TapeError::Overflow);
            },
        }
        k = k + 1;
    }
    let t = Tensor { shape: vec![n, m], data };
    proof {
        lemma_prod_two(n as int, m as int);
        assert(t@.shape =~= seq![n as int, m as int]);
        assert forall|j: int| 0 <= j < (n as int) * (m as int) implies fits(
            rat_mul(a@.data[#[trigger] (j / (m as int))], b@.data[j % (m as int)]),
        ) by {
            assert(data@[j]@ == rat_mul(a@.data[j / (m as int)], b@.data[j % (m as int)]));
        }
        assert(t@.data =~= Seq::new(
            ((n as int) * (m as int)) as nat,
            |j: int| rat_mul(a@.data[j / (m as int)], b@.data[j % (m as int)]),
        ));
    }
    Ok(t)
}

/// A scalar times a tensor, elementwise.
pub open spec fn t_scale(s: (int, int), a: TensorV) -> Result<TensorV, TapeError> {
    if forall|i: int| 0 <= i < a.data.len() ==> fits(rat_mul(s, #[trigger] a.data[i])) {
        Ok(TensorV { shape: a.shape, data: Seq::new(a.data.len(), |i: int| rat_mul(s, a.data[i])) })
    } else {
        Err(TapeError::Overflow)
    }
}

/// Scale a tensor by a fraction, exactly.
pub fn tensor_scale(s: Rat, a: &Tensor) -> (r: Result<Tensor, TapeError>)
    requires
        s.wf(),
        a.wf(),
    ensures
        r matches Ok(t) ==> t_scale(s@, a@) == Ok::<TensorV, TapeError>(t@) && t.wf(),
        r matches Err(e) ==> t_scale(s@, a@) == Err::<TensorV, TapeError>(e),
{
    let mut data: Vec<Rat> = Vec::new();
    let mut i: usize = 0;
    while i < a.data.len()
        invariant
            s.wf(),
            a.wf(),
            i <= a.data@.len(),
            data@.len() == i,
            forall|j: int| 0 <= j < i ==> fits(rat_mul(s@, #[trigger] a@.data[j])),
            forall|j: int| 0 <= j < i ==> (#[trigger] data@[j])@ == rat_mul(s@, a@.data[j]),
            forall|j: int| 0 <= j < i ==> (#[trigger] data@[j]).wf(),
        decreases a.data@.len() - i,
    {
        proof {
            assert(a@.data[i as int] == a.data@[i as int]@);
            assert(datum_wf(a@.data[i as int]));
        }
        match s.mul(a.data[i]) {
            Some(x) => {
                data.push(x);
            },
            None => {
                proof {
                    assert(!fits(rat_mul(s@, a@.data[i as int])));
                }
                return Err(TapeError::Overflow);
            },
        }
        i = i + 1;
    }
    let shape = copy_shape(&a.shape);
    let t = Tensor { shape, data };
    proof {
        assert forall|j: int| 0 <= j < a@.data.len() implies fits(rat_mul(s@, #[trigger] a@.data[j])) by {
            assert(data@[j]@ == rat_mul(s@, a@.data[j]));
        }
        assert(t@.shape =~= a@.shape);
        assert(t@.data =~= Seq::new(a@.data.len(), |i: int| rat_mul(s@, a@.data[i])));
    }
    Ok(t)
}

/// The running sum of squared differences over the first `k` elements.
pub open spec fn sq_diff_fold(e: Seq<(int, int)>, a: Seq<(int, int)>, k: int) -> Option<(int, int)>
    decreases k,
{
    if k <= 0 {
        Some((0, 1))
    } else {
        match sq_diff_fold(e, a, k - 1) {
            Some(acc) => {
                let d = rat_add(e[k - 1], rat_neg(a[k - 1]));
                let sq = rat_mul(d, d);
                let s = rat_add(acc, sq);
                if fits(d) && fits(sq) && fits(s) {
                    Some(s)
                } else {
                    None
                }
            },
            None => None,
        }
    }
}

proof fn lemma_sq_diff_none(e: Seq<(int, int)>, a: Seq<(int, int)>, k: int, n: int)
    requires
        sq_diff_fold(e, a, k) is None,
        k <= n,
    ensures
        sq_diff_fold(e, a, n) is None,
    decreases n - k,
{
    if k < n {
        lemma_sq_diff_none(e, a, k + 1, n);
    }
}

/// The loss of an expectation against an actual value: the rank-0
/// tensor holding minus half the summed squared differences.
pub open spec fn t_loss(e: TensorV, a: TensorV) -> Result<TensorV, TapeError> {
    if e.shape != a.shape {
        Err(TapeError::Shape)
    } else {
        match sq_diff_fold(e.data, a.data, e.data.len() as int) {
            Some(sum) => {
                let l = rat_mul((-1, 2), sum);
                if fits(l) {
                    Ok(TensorV { shape: Seq::<int>::empty(), data: seq![l] })
                } else {
                    Err(TapeError::Overflow)
                }
            },
            None => Err(TapeError::Overflow),
        }
    }
}

/// Minus half the summed squared differences, as a rank-0 tensor.
pub fn tensor_loss(e: &Tensor, a: &Tensor) -> (r: Result<Tensor, TapeError>)
    requires
        e.wf(),
        a.wf(),
    ensures
        r matches Ok(t) ==> t_loss(e@, a@) == Ok::<TensorV, TapeError>(t@) && t.wf(),
        r matches Err(err) ==> t_loss(e@, a@) == Err::<TensorV, TapeError>(err),
{
    if !same_shape(e, a) {
        return Err(TapeError::Shape);
    }
    proof {
        assert(e@.data.len() == a@.data.len());
    }
    let mut acc = Rat::zero();
    let mut k: usize = 0;
    while k < e.data.len()
        invariant
            e.wf(),
            a.wf(),
            e@.shape == a@.shape,
            e@.data.len() == a@.data.len(),
            k <= e.data@.len(),
            acc.wf(),
            sq_diff_fold(e@.data, a@.data, k as int) == Some(acc@),
        decreases e.data@.len() - k,
    {
        proof {
            assert(e@.data[k as int] == e.data@[k as int]@ && a@.data[k as int] == a.data@[k as int]@);
            assert(datum_wf(e@.data[k as int]) && datum_wf(a@.data[k as int]));
        }
        let d = match e.data[k].add(a.data[k].neg()) {
            Some(x) => x,
            None => {
                proof {
                    assert(sq_diff_fold(e@.data, a@.data, k + 1) is None);
                    lemma_sq_diff_none(e@.data, a@.data, k + 1, e@.data.len() as int);
                }
                return Err(TapeError::Overflow);
            },
        };
        let sq = match d.mul(d) {
            Some(x) => x,
            None => {
                proof {
                    assert(sq_diff_fold(e@.data, a@.data, k + 1) is None);
                    lemma_sq_diff_none(e@.data, a@.data, k + 1, e@.data.len() as int);
                }
                return Err(TapeError::Overflow);
            },
        };
        acc = match acc.add(sq) {
            Some(x) => x,
            None => {
                proof {
                    assert(sq_diff_fold(e@.data, a@.data, k + 1) is None);
                    lemma_sq_diff_none(e@.data, a@.data, k + 1, e@.data.len() as int);
                }
                return Err(TapeError::Overflow);
            },
        };
        k = k + 1;
    }
    let mhalf = match Rat::new(-1, 2) {
        Some(h) => h,
        None => Rat::zero(),
    };
    match mhalf.mul(acc) {
        Some(l) => {
            let t = Tensor { shape: Vec::new(), data: vec![l] };
            proof {
                assert(t@.shape =~= Seq::<int>::empty());
                assert(t@.data =~= seq![l@]);
                assert(prod(Seq::<int>::empty()) == 1);
            }
            Ok(t)
        },
        None => Err(TapeError::Overflow),
    }
}

/// Elementwise exact subtraction.
pub open spec fn t_sub(a: TensorV, b: TensorV) -> Result<TensorV, TapeError> {
    t_add(a, TensorV { shape: b.shape, data: b.data.map_values(|p: (int, int)| rat_neg(p)) })
}

/// Subtract two same-shaped tensors, exactly.
pub fn tensor_sub(a: &Tensor, b: &Tensor) -> (r: Result<Tensor, TapeError>)
    requires
        a.wf(),
        b.wf(),
    ensures
        r matches Ok(t) ==> t_sub(a@, b@) == Ok::<TensorV, TapeError>(t@) && t.wf(),
        r matches Err(e) ==> t_sub(a@, b@) == Err::<TensorV, TapeError>(e),
{
    let mut ndata: Vec<Rat> = Vec::new();
    let mut i: usize = 0;
    while i < b.data.len()
        invariant
            b.wf(),
            i <= b.data@.len(),
            ndata@.len() == i,
            forall|j: int| 0 <= j < i ==> (#[trigger] ndata@[j])@ == rat_neg(b@.data[j]),
            forall|j: int| 0 <= j < i ==> (#[trigger] ndata@[j]).wf(),
        decreases b.data@.len() - i,
    {
        proof {
            assert(b@.data[i as int] == b.data@[i as int]@);
            assert(datum_wf(b@.data[i as int]));
        }
        ndata.push(b.data[i].neg());
        i = i + 1;
    }
    let mut nshape: Vec<usize> = Vec::new();
    let mut i: usize = 0;
    while i < b.shape.len()
        invariant
            i <= b.shape@.len(),
            nshape@.len() == i,
            forall|j: int| 0 <= j < i ==> nshape@[j] == b.shape@[j],
        decreases b.shape@.len() - i,
    {
        nshape.push(b.shape[i]);
        i = i + 1;
    }
    let nb = Tensor { shape: nshape, data: ndata };
    proof {
        assert(nb@.shape =~= b@.shape);
        assert(nb@.data =~= b@.data.map_values(|p: (int, int)| rat_neg(p)));
    }
    tensor_add(a, &nb)
}

} // verus!

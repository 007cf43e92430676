use tape21::ad::Tape;
use tape21::ad::example;
use tape21::ad::outer_product;
use tape21::net::Net;
use tape21::rat::Rat;
use tape21::tensor::TapeError;
use tape21::tensor::Tensor;
use tape21::tensor::tensor_sigma;
use tape21::tensor::tensor_sigma_deriv;

fn ints(xs: &[i64]) -> Vec<Rat> {
    xs.iter().map(|x| Rat::from_int(*x)).collect()
}

fn veci(xs: &[i64]) -> Tensor {
    Tensor::vector(ints(xs))
}

/// The two-layer example graph: returns the tape and the handles
/// `(a0, w1, b1, y, loss)`.
fn build_example() -> (Tape, usize, usize, usize, usize, usize) {
    let mut t = Tape::init();
    let a0 = t.var("a0");
    let w1 = t.var("w1");
    let b1 = t.var("b1");
    let m1 = t.mult_mat(w1, a0);
    let z1 = t.add_vec(m1, b1);
    let a1 = t.relu(z1);
    let y = t.var("y");
    let l = t.loss(y, a1);
    t.compile();
    t.set_val(a0, veci(&[1, 2, 3]));
    t.set_val(w1, Tensor::matrix(2, 3, ints(&[1, 1, 1, 2, 2, 2])).expect("2 x 3"));
    t.set_val(b1, veci(&[1, 1]));
    t.set_val(y, veci(&[6, 12]));
    (t, a0, w1, b1, y, l)
}

fn assert_tensor_ints(t: &Tensor, expected: &[i64]) {
    assert_eq!(t.data.len(), expected.len());
    for (got, want) in t.data.iter().zip(expected.iter()) {
        assert!(got.eq_val(&Rat::from_int(*want)), "expected {}", want);
    }
}

#[test]
fn forward_values() {
    let (mut t, _a0, _w1, _b1, _y, l) = build_example();
    t.eval().expect("well-shaped graph evaluates");
    // w1 * a0 = [6, 12]; + b1 = [7, 13]; relu keeps both;
    // loss = -1/2 ((6-7)^2 + (12-13)^2) = -1
    assert_tensor_ints(&t.get_val(l), &[-1]);
}

#[test]
fn backward_values() {
    let (mut t, a0, w1, b1, _y, l) = build_example();
    t.eval().expect("evaluates");
    t.grad(l).expect("differentiates");
    // dL/da1 = y - a1 = [-1, -1]; relu slope is 1 at [7, 13];
    // db1 = [-1, -1]; da0 = w1^t [-1,-1] = [-3, -3, -3];
    // dw1 = outer([-1,-1], a0) = [[-1,-2,-3],[-1,-2,-3]]
    assert_tensor_ints(&t.get_grad(b1), &[-1, -1]);
    assert_tensor_ints(&t.get_grad(a0), &[-3, -3, -3]);
    assert_tensor_ints(&t.get_grad(w1), &[-1, -2, -3, -1, -2, -3]);
}

/// Evaluate the tape and read the loss value.
fn loss_at(t: &mut Tape, l: usize) -> Rat {
    t.eval().expect("evaluates");
    t.get_val(l).data[0]
}

#[test]
fn gradient_matches_finite_difference() {
    // the composite is quadratic in every leaf coordinate away from the
    // rectifier's kink, so the central difference with step 1 equals
    // the derivative exactly
    let (mut t, a0, w1, b1, _y, l) = build_example();
    t.eval().expect("evaluates");
    t.grad(l).expect("differentiates");
    let two = Rat::from_int(2);
    for leaf in [a0, w1, b1] {
        let base = t.get_val(leaf);
        let grads = t.get_grad(leaf);
        for k in 0..base.data.len() {
            let mut up = base.clone();
            up.data[k] = base.data[k].add(Rat::one()).expect("fits");
            t.set_val(leaf, up);
            let lp = loss_at(&mut t, l);

            let mut down = base.clone();
            down.data[k] = base.data[k].sub(Rat::one()).expect("fits");
            t.set_val(leaf, down);
            let lm = loss_at(&mut t, l);

            t.set_val(leaf, base.clone());
            let slope = lp.sub(lm).expect("fits").div(two).expect("fits");
            assert!(
                slope.eq_val(&grads.data[k]),
                "finite difference disagrees at leaf {} coordinate {}",
                leaf,
                k
            );
        }
    }
}

#[test]
fn shape_mismatch_is_reported() {
    let mut t = Tape::init();
    let a = t.var("a");
    let b = t.var("b");
    let s = t.add_vec(a, b);
    let _ = s;
    t.compile();
    t.set_val(a, veci(&[1, 2]));
    t.set_val(b, veci(&[1, 2, 3]));
    assert_eq!(t.eval(), Err(TapeError::Shape));
}

#[test]
fn overflow_is_reported() {
    let mut t = Tape::init();
    let a = t.var("a");
    let b = t.var("b");
    let s = t.add_vec(a, b);
    let _ = s;
    t.compile();
    let big = Rat::from_int(i64::MAX);
    t.set_val(a, Tensor::vector(vec![big]));
    t.set_val(b, Tensor::vector(vec![big]));
    assert_eq!(t.eval(), Err(TapeError::Overflow));
}

#[test]
fn sigma_values() {
    let zero_one = veci(&[0, 1]);
    let s = tensor_sigma(&zero_one).expect("fits");
    assert!(s.data[0].eq_val(&Rat::new(1, 2).unwrap()));
    assert!(s.data[1].eq_val(&Rat::new(3, 4).unwrap()));
    let d = tensor_sigma_deriv(&zero_one).expect("fits");
    assert!(d.data[0].eq_val(&Rat::new(1, 2).unwrap()));
    assert!(d.data[1].eq_val(&Rat::new(1, 8).unwrap()));
}

#[test]
fn outer_product_values() {
    let a = veci(&[1, 2]);
    let b = veci(&[3, 4, 5]);
    let o = outer_product(&a, &b).expect("fits");
    assert_eq!(o.shape, vec![2, 3]);
    assert_tensor_ints(&o, &[3, 4, 5, 6, 8, 10]);
}

#[test]
fn example_builds_and_runs() {
    let t = example();
    assert_tensor_ints(&t.get_val(7), &[-1]);
}

#[test]
fn net_builds() {
    let net = Net::new(&[3, 4, 2]);
    assert_eq!(net.parameters.len(), 2);
}

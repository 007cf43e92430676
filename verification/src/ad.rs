//! The reverse-mode automatic differentiation tape.
//!
//! A `Tape` owns an append-only array of operation nodes; an operation
//! refers to its operands by their plain indices, and a builder only
//! ever points a new node at existing ones, so every operand index is
//! below its consumer's and the graph cannot hold a cycle.  `compile`
//! caches a topological order (index order is one, and is proved to
//! be); `eval` computes every node's forward value `z` in that order;
//! `grad` zeroes every adjoint `w`, seeds the output with ones, and
//! accumulates each node's adjoint into its operands' in reverse order.
//! Both passes are stated exactly by spec-level mirrors of the update
//! rules.

use vstd::prelude::*;

use crate::rat::Rat;
use crate::tensor::TapeError;
use crate::tensor::Tensor;
use crate::tensor::TensorV;
use crate::tensor::t_add;
use crate::tensor::t_empty;
use crate::tensor::t_fill;
use crate::tensor::t_loss;
use crate::tensor::t_matvec;
use crate::tensor::t_matvec_t;
use crate::tensor::t_mul_elem;
use crate::tensor::t_outer;
use crate::tensor::t_relu;
use crate::tensor::t_relu_deriv;
use crate::tensor::t_scale;
use crate::tensor::t_sigma;
use crate::tensor::t_sigma_deriv;
use crate::tensor::t_sub;
use crate::tensor::tensor_add;
use crate::tensor::tensor_loss;
use crate::tensor::tensor_matvec;
use crate::tensor::tensor_matvec_t;
use crate::tensor::tensor_mul_elem;
use crate::tensor::tensor_outer;
use crate::tensor::tensor_relu;
use crate::tensor::tensor_relu_deriv;
use crate::tensor::tensor_scale;
use crate::tensor::tensor_sigma;
use crate::tensor::tensor_sigma_deriv;
use crate::tensor::tensor_sub;
use crate::tensor::tensor_v_wf;

verus! {

/// One operation of the graph, holding the indices of its operands.
#[derive(Clone, Copy, PartialEq, Eq, Structural, Debug)]
pub enum Expr {
    AddVec { left: usize, right: usize },
    MultMat { mat: usize, vec: usize },
    Sigma { vec: usize },
    Relu { vec: usize },
    Var,
    Loss { expected: usize, actual: usize },
}

/// Whether `o` is an operand the expression reads.
pub open spec fn operand_of(o: int, e: Expr) -> bool {
    match e {
        Expr::AddVec { left, right } => o == left || o == right,
        Expr::MultMat { mat, vec } => o == mat || o == vec,
        Expr::Sigma { vec } => o == vec,
        Expr::Relu { vec } => o == vec,
        Expr::Var => false,
        Expr::Loss { expected, actual } => o == expected || o == actual,
    }
}

/// Every operand index lies below `bound`.
pub open spec fn expr_ok(e: Expr, bound: int) -> bool {
    forall|o: int| operand_of(o, e) ==> 0 <= o < bound
}

/// One node: its operation, its forward value `z` and its adjoint `w`.
#[derive(Clone, Debug)]
pub struct Node {
    pub expr: Expr,
    pub z: Tensor,
    pub w: Tensor,
}

impl Node {
    /// A fresh node of the operation, with empty value and adjoint.
    fn new(expr: Expr) -> (r: Node)
        ensures
            r.expr == expr,
            r.z@ == t_empty(),
            r.w@ == t_empty(),
            r.z.wf(),
            r.w.wf(),
    {
        Node { expr, z: Tensor::empty(), w: Tensor::empty() }
    }
}

/// The mathematical value of a node.
pub struct NodeV {
    pub expr: Expr,
    pub z: TensorV,
    pub w: TensorV,
}

/// The append-only computation graph with its cached evaluation order.
#[derive(Debug)]
pub struct Tape {
    pub nodes: Vec<Node>,
    pub order: Vec<usize>,
}

impl View for Tape {
    type V = Seq<NodeV>;

    open spec fn view(&self) -> Seq<NodeV> {
        self.nodes@.map_values(|n: Node| NodeV { expr: n.expr, z: n.z@, w: n.w@ })
    }
}

/// The order is the index order, which the append-only build makes
/// topological.
pub open spec fn identity_order(order: Seq<usize>, n: int) -> bool {
    &&& order.len() == n
    &&& forall|k: int| 0 <= k < n ==> #[trigger] order[k] == k
}

/// Every operand of every node comes earlier in the order than the
/// node itself.
pub open spec fn is_topo_order(order: Seq<usize>, nodes: Seq<NodeV>) -> bool {
    &&& order.len() == nodes.len()
    &&& forall|k: int| 0 <= k < order.len() ==> #[trigger] order[k] < nodes.len()
    &&& forall|k: int, o: int|
        0 <= k < order.len() && #[trigger] operand_of(o, nodes[order[k] as int].expr)
            ==> exists|k2: int| 0 <= k2 < k && #[trigger] order[k2] == o
}

impl Tape {
    /// Every node's operands already existed when it was added, and its
    /// tensors are in range.
    pub open spec fn wf(&self) -> bool {
        forall|i: int| 0 <= i < self@.len()
            ==> expr_ok((#[trigger] self@[i]).expr, i) && tensor_v_wf(self@[i].z) && tensor_v_wf(
            self@[i].w,
        )
    }

    /// The cached order covers the current nodes.
    pub open spec fn compiled(&self) -> bool {
        identity_order(self.order@, self@.len() as int)
    }

    /// An empty tape.
    pub fn init() -> (r: Tape)
        ensures
            r.wf(),
            r@.len() == 0,
            r.order@.len() == 0,
    {
        let r = Tape { nodes: Vec::new(), order: Vec::new() };
        proof {
            assert(r@ =~= Seq::<NodeV>::empty());
        }
        r
    }

    /// How many nodes the tape holds.
    pub fn len(&self) -> (r: usize)
        ensures
            r == self@.len(),
    {
        self.nodes.len()
    }

    pub open spec fn pushed(self, old_tape: Tape, e: Expr) -> bool {
        &&& self@.len() == old_tape@.len() + 1
        &&& forall|i: int| 0 <= i < old_tape@.len() ==> self@[i] == old_tape@[i]
        &&& self@[old_tape@.len() as int].expr == e
        &&& self@[old_tape@.len() as int].z == t_empty()
        &&& self@[old_tape@.len() as int].w == t_empty()
        &&& self.order@ == old_tape.order@
    }

    fn push_node(&mut self, e: Expr) -> (ix: usize)
        requires
            old(self).wf(),
            expr_ok(e, old(self)@.len() as int),
        ensures
            final(self).wf(),
            ix == old(self)@.len(),
            final(self).pushed(*old(self), e),
    {
        let ix = self.nodes.len();
        self.nodes.push(Node::new(e));
        proof {
            assert(self@[ix as int].expr == e);
            assert(forall|i: int| 0 <= i < old(self)@.len() ==> self@[i] == old(self)@[i]);
        }
        ix
    }

    /// Introduce a free variable.  Its value is set by `set_val`; the
    /// name is the caller's bookkeeping, the tape does not read it.
    pub fn var(&mut self, name: &str) -> (ix: usize)
        requires
            old(self).wf(),
        ensures
            final(self).wf(),
            ix == old(self)@.len(),
            final(self).pushed(*old(self), Expr::Var),
    {
        let _ = name;
        self.push_node(Expr::Var)
    }

    /// Add two vectors together.
    pub fn add_vec(&mut self, left: usize, right: usize) -> (ix: usize)
        requires
            old(self).wf(),
            left < old(self)@.len(),
            right < old(self)@.len(),
        ensures
            final(self).wf(),
            ix == old(self)@.len(),
            final(self).pushed(*old(self), Expr::AddVec { left, right }),
    {
        self.push_node(Expr::AddVec { left, right })
    }

    /// Multiply a vector by a matrix.
    pub fn mult_mat(&mut self, mat: usize, vec: usize) -> (ix: usize)
        requires
            old(self).wf(),
            mat < old(self)@.len(),
            vec < old(self)@.len(),
        ensures
            final(self).wf(),
            ix == old(self)@.len(),
            final(self).pushed(*old(self), Expr::MultMat { mat, vec }),
    {
        self.push_node(Expr::MultMat { mat, vec })
    }

    /// Apply the sigmoid to every element of the vector.
    pub fn sigma(&mut self, vec: usize) -> (ix: usize)
        requires
            old(self).wf(),
            vec < old(self)@.len(),
        ensures
            final(self).wf(),
            ix == old(self)@.len(),
            final(self).pushed(*old(self), Expr::Sigma { vec }),
    {
        self.push_node(Expr::Sigma { vec })
    }

    /// Apply the rectifier to every element of the vector.
    pub fn relu(&mut self, vec: usize) -> (ix: usize)
        requires
            old(self).wf(),
            vec < old(self)@.len(),
        ensures
            final(self).wf(),
            ix == old(self)@.len(),
            final(self).pushed(*old(self), Expr::Relu { vec }),
    {
        self.push_node(Expr::Relu { vec })
    }

    /// Loss function: minus half the summed squared differences.
    pub fn loss(&mut self, expected: usize, actual: usize) -> (ix: usize)
        requires
            old(self).wf(),
            expected < old(self)@.len(),
            actual < old(self)@.len(),
        ensures
            final(self).wf(),
            ix == old(self)@.len(),
            final(self).pushed(*old(self), Expr::Loss { expected, actual }),
    {
        self.push_node(Expr::Loss { expected, actual })
    }

    /// Set a node's forward value (a variable's input, usually).
    pub fn set_val(&mut self, ix: usize, val: Tensor)
        requires
            old(self).wf(),
            ix < old(self)@.len(),
            val.wf(),
        ensures
            final(self).wf(),
            final(self)@.len() == old(self)@.len(),
            final(self)@[ix as int].expr == old(self)@[ix as int].expr,
            final(self)@[ix as int].z == val@,
            final(self)@[ix as int].w == old(self)@[ix as int].w,
            forall|i: int| 0 <= i < old(self)@.len() && i != ix ==> final(self)@[i] == old(self)@[i],
            final(self).order@ == old(self).order@,
    {
        let e = self.nodes[ix].expr;
        let w = self.nodes[ix].w.dup();
        self.nodes.set(ix, Node { expr: e, z: val, w });
        proof {
            assert forall|i: int| 0 <= i < self@.len() && i != ix implies self@[i] == old(self)@[i] by {
                assert(self.nodes@[i] == old(self).nodes@[i]);
            }
            assert(expr_ok(self@[ix as int].expr, ix as int));
        }
    }

    /// A node's forward value.
    pub fn get_val(&self, ix: usize) -> (r: Tensor)
        requires
            self.wf(),
            ix < self@.len(),
        ensures
            r@ == self@[ix as int].z,
            r.wf(),
    {
        self.nodes[ix].z.dup()
    }

    /// A node's accumulated gradient.
    pub fn get_grad(&self, ix: usize) -> (r: Tensor)
        requires
            self.wf(),
            ix < self@.len(),
        ensures
            r@ == self@[ix as int].w,
            r.wf(),
    {
        self.nodes[ix].w.dup()
    }

    /// Call after setting up the expression graph: cache a topological
    /// order of the nodes.  Builders only point new nodes at existing
    /// ones, so the graph cannot hold a cycle and the index order is
    /// already topological: every node's operands come before it.
    pub fn compile(&mut self)
        requires
            old(self).wf(),
        ensures
            final(self).wf(),
            final(self)@ == old(self)@,
            final(self).compiled(),
            is_topo_order(final(self).order@, final(self)@),
    {
        let n = self.nodes.len();
        let mut order: Vec<usize> = Vec::new();
        let mut i: usize = 0;
        while i < n
            invariant
                i <= n,
                order@.len() == i,
                forall|k: int| 0 <= k < i ==> #[trigger] order@[k] == k,
            decreases n - i,
        {
            order.push(i);
            i = i + 1;
        }
        self.order = order;
        proof {
            assert forall|k: int, o: int|
                0 <= k < self.order@.len() && #[trigger] operand_of(o, self@[self.order@[k] as int].expr)
                    implies exists|k2: int| 0 <= k2 < k && #[trigger] self.order@[k2] == o by {
                assert(expr_ok(self@[k].expr, k));
                assert(0 <= o < k);
                assert(self.order@[o] == o);
            }
        }
    }
}

/// The forward value of the node at `i`, from the values `zs`: a
/// variable keeps its externally set value, every operation combines
/// its operands'.
pub open spec fn fwd(e: Expr, i: int, zs: Seq<TensorV>) -> Result<TensorV, TapeError> {
    match e {
        Expr::AddVec { left, right } => t_add(zs[left as int], zs[right as int]),
        Expr::MultMat { mat, vec } => t_matvec(zs[mat as int], zs[vec as int]),
        Expr::Sigma { vec } => t_sigma(zs[vec as int]),
        Expr::Relu { vec } => Ok(t_relu(zs[vec as int])),
        Expr::Var => Ok(zs[i]),
        Expr::Loss { expected, actual } => t_loss(zs[expected as int], zs[actual as int]),
    }
}

/// The forward values after evaluating the first `k` nodes in index
/// order, starting from the stored values.
pub open spec fn eval_zs(nodes: Seq<NodeV>, k: int) -> Result<Seq<TensorV>, TapeError>
    decreases k,
{
    if k <= 0 {
        Ok(nodes.map_values(|n: NodeV| n.z))
    } else {
        match eval_zs(nodes, k - 1) {
            Ok(zs) => match fwd(nodes[k - 1].expr, k - 1, zs) {
                Ok(t) => Ok(zs.update(k - 1, t)),
                Err(e) => Err(e),
            },
            Err(e) => Err(e),
        }
    }
}

/// A failed forward prefix fails every longer prefix.
proof fn lemma_eval_zs_err(nodes: Seq<NodeV>, k: int, n: int)
    requires
        eval_zs(nodes, k) is Err,
        k <= n,
    ensures
        eval_zs(nodes, n) == eval_zs(nodes, k),
    decreases n - k,
{
    if k < n {
        lemma_eval_zs_err(nodes, k + 1, n);
        assert(eval_zs(nodes, k + 1) == eval_zs(nodes, k));
    }
}

impl Tape {
    /// Forward evaluation: visit the nodes in the cached topological
    /// order and compute each value from its operands' already-computed
    /// values; variables keep their set values.  The result is exactly
    /// the spec-level forward pass; a shape mismatch or an exact
    /// fraction out of range is reported as the pass's first error, and
    /// gradients and operations are untouched either way.
    pub fn eval(&mut self) -> (r: Result<(), TapeError>)
        requires
            old(self).wf(),
            old(self).compiled(),
        ensures
            final(self).wf(),
            final(self).compiled(),
            final(self)@.len() == old(self)@.len(),
            forall|i: int| 0 <= i < old(self)@.len()
                ==> (#[trigger] final(self)@[i]).expr == old(self)@[i].expr && final(self)@[i].w
                == old(self)@[i].w,
            r matches Ok(()) ==> eval_zs(old(self)@, old(self)@.len() as int) matches Ok(zs)
                && (forall|i: int| 0 <= i < old(self)@.len() ==> (#[trigger] final(self)@[i]).z == zs[i]),
            r matches Err(e) ==> eval_zs(old(self)@, old(self)@.len() as int) == Err::<Seq<TensorV>, TapeError>(e),
    {
        let ghost v0 = self@;
        let n = self.nodes.len();
        let mut k: usize = 0;
        proof {
            assert(self@.map_values(|nd: NodeV| nd.z) =~= v0.map_values(|nd: NodeV| nd.z));
        }
        while k < n
            invariant
                self.wf(),
                self.compiled(),
                v0 == old(self)@,
                n == self@.len(),
                v0.len() == n,
                k <= n,
                forall|i: int| 0 <= i < n
                    ==> (#[trigger] self@[i]).expr == v0[i].expr && self@[i].w == v0[i].w,
                eval_zs(v0, k as int) == Ok::<Seq<TensorV>, TapeError>(self@.map_values(|nd: NodeV| nd.z)),
            decreases n - k,
        {
            let ghost zs_cur = self@.map_values(|nd: NodeV| nd.z);
            let e = self.nodes[k].expr;
            proof {
                assert(e == self@[k as int].expr);
                assert(expr_ok(self@[k as int].expr, k as int));
            }
            let computed: Result<Tensor, TapeError> = match e {
                Expr::AddVec { left, right } => {
                    proof {
                        assert(operand_of(left as int, e) && operand_of(right as int, e));
                    }
                    tensor_add(&self.nodes[left].z, &self.nodes[right].z)
                },
                Expr::MultMat { mat, vec } => {
                    proof {
                        assert(operand_of(mat as int, e) && operand_of(vec as int, e));
                    }
                    tensor_matvec(&self.nodes[mat].z, &self.nodes[vec].z)
                },
                Expr::Sigma { vec } => {
                    proof {
                        assert(operand_of(vec as int, e));
                    }
                    tensor_sigma(&self.nodes[vec].z)
                },
                Expr::Relu { vec } => {
                    proof {
                        assert(operand_of(vec as int, e));
                    }
                    Ok(tensor_relu(&self.nodes[vec].z))
                },
                Expr::Var => Ok(self.nodes[k].z.dup()),
                Expr::Loss { expected, actual } => {
                    proof {
                        assert(operand_of(expected as int, e) && operand_of(actual as int, e));
                    }
                    tensor_loss(&self.nodes[expected].z, &self.nodes[actual].z)
                },
            };
            match computed {
                Ok(t) => {
                    proof {
                        assert(fwd(v0[k as int].expr, k as int, zs_cur) == Ok::<TensorV, TapeError>(t@));
                    }
                    let w = self.nodes[k].w.dup();
                    let ghost prev = self@;
                    let ghost pnodes = self.nodes@;
                    self.nodes.set(k, Node { expr: e, z: t, w });
                    proof {
                        assert forall|i: int| 0 <= i < self@.len() && i != k implies self@[i]
                            == prev[i] by {
                            assert(self.nodes@[i] == pnodes[i]);
                        }
                        assert(self@[k as int].expr == e && self@[k as int].w == w@
                            && self@[k as int].z == t@);
                        assert(e == prev[k as int].expr && w@ == prev[k as int].w);
                        assert forall|i: int| 0 <= i < n
                            implies (#[trigger] self@[i]).expr == v0[i].expr && self@[i].w
                            == v0[i].w by {
                            if i != k {
                                assert(self@[i] == prev[i]);
                                assert(prev[i].expr == v0[i].expr && prev[i].w == v0[i].w);
                            }
                        }
                        assert forall|i: int| 0 <= i < self@.len() implies expr_ok(
                            (#[trigger] self@[i]).expr,
                            i,
                        ) && tensor_v_wf(self@[i].z) && tensor_v_wf(self@[i].w) by {
                            if i != k {
                                assert(self@[i] == prev[i]);
                                assert(expr_ok(prev[i].expr, i) && tensor_v_wf(prev[i].z)
                                    && tensor_v_wf(prev[i].w));
                            } else {
                                assert(expr_ok(e, k as int));
                            }
                        }
                        assert(self@.map_values(|nd: NodeV| nd.z) =~= zs_cur.update(k as int, t@));
                        assert(eval_zs(v0, k + 1) == Ok::<Seq<TensorV>, TapeError>(
                            self@.map_values(|nd: NodeV| nd.z),
                        ));
                    }
                },
                Err(err) => {
                    proof {
                        assert(fwd(v0[k as int].expr, k as int, zs_cur) == Err::<TensorV, TapeError>(err));
                        assert(eval_zs(v0, k + 1) == Err::<Seq<TensorV>, TapeError>(err));
                        lemma_eval_zs_err(v0, k + 1, n as int);
                    }
                    return Err(err);
                },
            }
            k = k + 1;
        }
        proof {
            assert(eval_zs(v0, n as int) == Ok::<Seq<TensorV>, TapeError>(
                self@.map_values(|nd: NodeV| nd.z),
            ));
        }
        Ok(())
    }

    /// Accumulate `d` into node `o`'s adjoint.
    fn accum_w(&mut self, o: usize, d: &Tensor) -> (r: Result<(), TapeError>)
        requires
            old(self).wf(),
            o < old(self)@.len(),
            d.wf(),
        ensures
            final(self).wf(),
            final(self)@.len() == old(self)@.len(),
            final(self).order@ == old(self).order@,
            forall|i: int| 0 <= i < old(self)@.len()
                ==> (#[trigger] final(self)@[i]).expr == old(self)@[i].expr && final(self)@[i].z
                == old(self)@[i].z,
            r matches Ok(()) ==> t_add(old(self)@[o as int].w, d@) matches Ok(t)
                && final(self)@[o as int].w == t
                && (forall|i: int| 0 <= i < old(self)@.len() && i != o
                    ==> (#[trigger] final(self)@[i]).w == old(self)@[i].w),
            r matches Err(e) ==> t_add(old(self)@[o as int].w, d@) == Err::<TensorV, TapeError>(e)
                && final(self)@ == old(self)@,
    {
        match tensor_add(&self.nodes[o].w, d) {
            Ok(t) => {
                let e = self.nodes[o].expr;
                let z = self.nodes[o].z.dup();
                self.nodes.set(o, Node { expr: e, z, w: t });
                proof {
                    assert forall|i: int| 0 <= i < self@.len() && i != o implies self@[i]
                        == old(self)@[i] by {
                        assert(self.nodes@[i] == old(self).nodes@[i]);
                    }
                    assert(self@[o as int].expr == e && self@[o as int].z == old(self)@[o as int].z
                        && self@[o as int].w == t@);
                    assert forall|i: int| 0 <= i < self@.len() implies expr_ok(
                        (#[trigger] self@[i]).expr,
                        i,
                    ) && tensor_v_wf(self@[i].z) && tensor_v_wf(self@[i].w) by {
                        if i != o {
                            assert(self@[i] == old(self)@[i]);
                        }
                        assert(expr_ok(old(self)@[i].expr, i) && tensor_v_wf(old(self)@[i].z)
                            && tensor_v_wf(old(self)@[i].w));
                    }
                }
                Ok(())
            },
            Err(e) => {
                proof {
                    assert(self@ =~= old(self)@);
                }
                Err(e)
            },
        }
    }
}

/// The adjoints every pass starts from: zeros in each value's shape,
/// ones at the output.
pub open spec fn init_ws(nodes: Seq<NodeV>, output: int) -> Seq<TensorV> {
    Seq::new(nodes.len(), |i: int| t_fill(nodes[i].z.shape, (0, 1))).update(
        output,
        t_fill(nodes[output].z.shape, (1, 1)),
    )
}

/// Propagate node `k`'s adjoint to its operands: each operand's adjoint
/// grows by the derivative of `k`'s operation against it.
pub open spec fn bwd_apply(nodes: Seq<NodeV>, k: int, ws: Seq<TensorV>) -> Result<
    Seq<TensorV>,
    TapeError,
> {
    let w = ws[k];
    match nodes[k].expr {
        Expr::AddVec { left, right } => match t_add(ws[left as int], w) {
            Ok(t1) => {
                let ws1 = ws.update(left as int, t1);
                match t_add(ws1[right as int], w) {
                    Ok(t2) => Ok(ws1.update(right as int, t2)),
                    Err(e) => Err(e),
                }
            },
            Err(e) => Err(e),
        },
        Expr::MultMat { mat, vec } => match t_matvec_t(nodes[mat as int].z, w) {
            Ok(dv) => match t_add(ws[vec as int], dv) {
                Ok(nv) => {
                    let ws1 = ws.update(vec as int, nv);
                    match t_outer(w, nodes[vec as int].z) {
                        Ok(dm) => match t_add(ws1[mat as int], dm) {
                            Ok(nm) => Ok(ws1.update(mat as int, nm)),
                            Err(e) => Err(e),
                        },
                        Err(e) => Err(e),
                    }
                },
                Err(e) => Err(e),
            },
            Err(e) => Err(e),
        },
        Expr::Sigma { vec } => match t_sigma_deriv(nodes[vec as int].z) {
            Ok(sd) => match t_mul_elem(w, sd) {
                Ok(term) => match t_add(ws[vec as int], term) {
                    Ok(nv) => Ok(ws.update(vec as int, nv)),
                    Err(e) => Err(e),
                },
                Err(e) => Err(e),
            },
            Err(e) => Err(e),
        },
        Expr::Relu { vec } => match t_mul_elem(w, t_relu_deriv(nodes[vec as int].z)) {
            Ok(term) => match t_add(ws[vec as int], term) {
                Ok(nv) => Ok(ws.update(vec as int, nv)),
                Err(e) => Err(e),
            },
            Err(e) => Err(e),
        },
        Expr::Var => Ok(ws),
        Expr::Loss { expected, actual } => if w.data.len() != 1 {
            Err(TapeError::Shape)
        } else {
            match t_sub(nodes[expected as int].z, nodes[actual as int].z) {
                Ok(diff) => match t_scale(w.data[0], diff) {
                    Ok(term) => match t_add(ws[actual as int], term) {
                        Ok(nv) => Ok(ws.update(actual as int, nv)),
                        Err(e) => Err(e),
                    },
                    Err(e) => Err(e),
                },
                Err(e) => Err(e),
            }
        },
    }
}

/// The adjoints after propagating every node from the last down to
/// index `k`, starting from the initial adjoints.
pub open spec fn bwd_from(nodes: Seq<NodeV>, output: int, k: int) -> Result<Seq<TensorV>, TapeError>
    decreases nodes.len() - k,
{
    if k >= nodes.len() {
        Ok(init_ws(nodes, output))
    } else {
        match bwd_from(nodes, output, k + 1) {
            Ok(ws) => bwd_apply(nodes, k, ws),
            Err(e) => Err(e),
        }
    }
}

/// A failed backward suffix fails the whole pass.
proof fn lemma_bwd_err(nodes: Seq<NodeV>, output: int, j: int, k: int)
    requires
        bwd_from(nodes, output, k) is Err,
        0 <= j <= k,
    ensures
        bwd_from(nodes, output, j) == bwd_from(nodes, output, k),
    decreases k - j,
{
    if j < k {
        lemma_bwd_err(nodes, output, j + 1, k);
    }
}


/// The backward step reads only operations and forward values, so two
/// states that agree on those propagate adjoints identically.
proof fn lemma_bwd_apply_same(a: Seq<NodeV>, b: Seq<NodeV>, k: int, ws: Seq<TensorV>)
    requires
        a.len() == b.len(),
        0 <= k < a.len(),
        expr_ok(a[k].expr, k),
        forall|i: int| 0 <= i < a.len() ==> (#[trigger] a[i]).expr == b[i].expr && a[i].z == b[i].z,
    ensures
        bwd_apply(a, k, ws) == bwd_apply(b, k, ws),
{
    assert(a[k].expr == b[k].expr);
    match a[k].expr {
        Expr::AddVec { left, right } => {},
        Expr::MultMat { mat, vec } => {
            assert(operand_of(mat as int, a[k].expr) && operand_of(vec as int, a[k].expr));
            assert(a[mat as int].z == b[mat as int].z && a[vec as int].z == b[vec as int].z);
        },
        Expr::Sigma { vec } => {
            assert(operand_of(vec as int, a[k].expr));
            assert(a[vec as int].z == b[vec as int].z);
        },
        Expr::Relu { vec } => {
            assert(operand_of(vec as int, a[k].expr));
            assert(a[vec as int].z == b[vec as int].z);
        },
        Expr::Var => {},
        Expr::Loss { expected, actual } => {
            assert(operand_of(expected as int, a[k].expr) && operand_of(actual as int, a[k].expr));
            assert(a[expected as int].z == b[expected as int].z && a[actual as int].z == b[actual as int].z);
        },
    }
}

impl Tape {

    /// Propagate one node's adjoint to its operands, in place.
    fn bwd_step(&mut self, ix: usize) -> (r: Result<(), TapeError>)
        requires
            old(self).wf(),
            ix < old(self)@.len(),
        ensures
            final(self).wf(),
            final(self)@.len() == old(self)@.len(),
            final(self).order@ == old(self).order@,
            forall|i: int| 0 <= i < old(self)@.len()
                ==> (#[trigger] final(self)@[i]).expr == old(self)@[i].expr && final(self)@[i].z
                == old(self)@[i].z,
            r matches Ok(()) ==> bwd_apply(
                old(self)@,
                ix as int,
                old(self)@.map_values(|nd: NodeV| nd.w),
            ) == Ok::<Seq<TensorV>, TapeError>(final(self)@.map_values(|nd: NodeV| nd.w)),
            r matches Err(e) ==> bwd_apply(
                old(self)@,
                ix as int,
                old(self)@.map_values(|nd: NodeV| nd.w),
            ) == Err::<Seq<TensorV>, TapeError>(e),
    {
        let ghost ws0 = self@.map_values(|nd: NodeV| nd.w);
        let e = self.nodes[ix].expr;
        let w = self.nodes[ix].w.dup();
        proof {
            assert(e == self@[ix as int].expr && w@ == ws0[ix as int]);
            assert(w@ == self@[ix as int].w);
            assert(tensor_v_wf(self@[ix as int].w));
        }
        match e {
            Expr::AddVec { left, right } => self.bwd_addvec(ix, left, right, &w),
            Expr::MultMat { mat, vec } => self.bwd_multmat(ix, mat, vec, &w),
            Expr::Sigma { vec } => self.bwd_sigma(ix, vec, &w),
            Expr::Relu { vec } => self.bwd_relu(ix, vec, &w),
            Expr::Var => Ok(()),
            Expr::Loss { expected, actual } => self.bwd_loss(ix, expected, actual, &w),
        }
    }

    /// Both operands of a sum inherit the sum's adjoint.
    fn bwd_addvec(&mut self, ix: usize, left: usize, right: usize, w: &Tensor) -> (r: Result<(), TapeError>)
        requires
            old(self).wf(),
            ix < old(self)@.len(),
            old(self)@[ix as int].expr == (Expr::AddVec { left, right }),
            w@ == old(self)@[ix as int].w,
            w.wf(),
        ensures
            final(self).wf(),
            final(self)@.len() == old(self)@.len(),
            final(self).order@ == old(self).order@,
            forall|i: int| 0 <= i < old(self)@.len()
                ==> (#[trigger] final(self)@[i]).expr == old(self)@[i].expr && final(self)@[i].z
                == old(self)@[i].z,
            r matches Ok(()) ==> bwd_apply(
                old(self)@,
                ix as int,
                old(self)@.map_values(|nd: NodeV| nd.w),
            ) == Ok::<Seq<TensorV>, TapeError>(final(self)@.map_values(|nd: NodeV| nd.w)),
            r matches Err(e) ==> bwd_apply(
                old(self)@,
                ix as int,
                old(self)@.map_values(|nd: NodeV| nd.w),
            ) == Err::<Seq<TensorV>, TapeError>(e),
    {
        let ghost ws0 = self@.map_values(|nd: NodeV| nd.w);
        proof {
            assert(expr_ok(self@[ix as int].expr, ix as int));
            assert(operand_of(left as int, self@[ix as int].expr)
                && operand_of(right as int, self@[ix as int].expr));
        }
        match self.accum_w(left, w) {
            Ok(()) => {
                proof {
                    assert(self@.map_values(|nd: NodeV| nd.w) =~= ws0.update(
                        left as int,
                        t_add(ws0[left as int], w@)->Ok_0,
                    ));
                }
                match self.accum_w(right, w) {
                    Ok(()) => {
                        proof {
                            let ws1 = ws0.update(left as int, t_add(ws0[left as int], w@)->Ok_0);
                            assert(self@.map_values(|nd: NodeV| nd.w) =~= ws1.update(
                                right as int,
                                t_add(ws1[right as int], w@)->Ok_0,
                            ));
                        }
                        Ok(())
                    },
                    Err(err) => Err(err),
                }
            },
            Err(err) => Err(err),
        }
    }

    /// The vector operand inherits the transposed matrix against the
    /// adjoint; the matrix operand inherits the adjoint's outer product
    /// with the vector's value.
    fn bwd_multmat(&mut self, ix: usize, mat: usize, vec: usize, w: &Tensor) -> (r: Result<(), TapeError>)
        requires
            old(self).wf(),
            ix < old(self)@.len(),
            old(self)@[ix as int].expr == (Expr::MultMat { mat, vec }),
            w@ == old(self)@[ix as int].w,
            w.wf(),
        ensures
            final(self).wf(),
            final(self)@.len() == old(self)@.len(),
            final(self).order@ == old(self).order@,
            forall|i: int| 0 <= i < old(self)@.len()
                ==> (#[trigger] final(self)@[i]).expr == old(self)@[i].expr && final(self)@[i].z
                == old(self)@[i].z,
            r matches Ok(()) ==> bwd_apply(
                old(self)@,
                ix as int,
                old(self)@.map_values(|nd: NodeV| nd.w),
            ) == Ok::<Seq<TensorV>, TapeError>(final(self)@.map_values(|nd: NodeV| nd.w)),
            r matches Err(e) ==> bwd_apply(
                old(self)@,
                ix as int,
                old(self)@.map_values(|nd: NodeV| nd.w),
            ) == Err::<Seq<TensorV>, TapeError>(e),
    {
        let ghost ws0 = self@.map_values(|nd: NodeV| nd.w);
        proof {
            assert(expr_ok(self@[ix as int].expr, ix as int));
            assert(operand_of(mat as int, self@[ix as int].expr)
                && operand_of(vec as int, self@[ix as int].expr));
            assert(self@[mat as int].z == self.nodes@[mat as int].z@
                && self@[vec as int].z == self.nodes@[vec as int].z@);
            assert(tensor_v_wf(self@[mat as int].z) && tensor_v_wf(self@[vec as int].z));
        }
        match tensor_matvec_t(&self.nodes[mat].z, w) {
            Ok(dv) => match self.accum_w(vec, &dv) {
                Ok(()) => {
                    proof {
                        assert(self@.map_values(|nd: NodeV| nd.w) =~= ws0.update(
                            vec as int,
                            t_add(ws0[vec as int], dv@)->Ok_0,
                        ));
                    }
                    match tensor_outer(w, &self.nodes[vec].z) {
                        Ok(dm) => match self.accum_w(mat, &dm) {
                            Ok(()) => {
                                proof {
                                    let ws1 = ws0.update(vec as int, t_add(ws0[vec as int], dv@)->Ok_0);
                                    assert(self@.map_values(|nd: NodeV| nd.w) =~= ws1.update(
                                        mat as int,
                                        t_add(ws1[mat as int], dm@)->Ok_0,
                                    ));
                                }
                                Ok(())
                            },
                            Err(err) => Err(err),
                        },
                        Err(err) => Err(err),
                    }
                },
                Err(err) => Err(err),
            },
            Err(err) => Err(err),
        }
    }

    /// The operand inherits the adjoint weighted by the sigmoid's slope
    /// at its value.
    fn bwd_sigma(&mut self, ix: usize, vec: usize, w: &Tensor) -> (r: Result<(), TapeError>)
        requires
            old(self).wf(),
            ix < old(self)@.len(),
            old(self)@[ix as int].expr == (Expr::Sigma { vec }),
            w@ == old(self)@[ix as int].w,
            w.wf(),
        ensures
            final(self).wf(),
            final(self)@.len() == old(self)@.len(),
            final(self).order@ == old(self).order@,
            forall|i: int| 0 <= i < old(self)@.len()
                ==> (#[trigger] final(self)@[i]).expr == old(self)@[i].expr && final(self)@[i].z
                == old(self)@[i].z,
            r matches Ok(()) ==> bwd_apply(
                old(self)@,
                ix as int,
                old(self)@.map_values(|nd: NodeV| nd.w),
            ) == Ok::<Seq<TensorV>, TapeError>(final(self)@.map_values(|nd: NodeV| nd.w)),
            r matches Err(e) ==> bwd_apply(
                old(self)@,
                ix as int,
                old(self)@.map_values(|nd: NodeV| nd.w),
            ) == Err::<Seq<TensorV>, TapeError>(e),
    {
        let ghost ws0 = self@.map_values(|nd: NodeV| nd.w);
        proof {
            assert(expr_ok(self@[ix as int].expr, ix as int));
            assert(operand_of(vec as int, self@[ix as int].expr));
            assert(self@[vec as int].z == self.nodes@[vec as int].z@);
            assert(tensor_v_wf(self@[vec as int].z));
        }
        match tensor_sigma_deriv(&self.nodes[vec].z) {
            Ok(sd) => match tensor_mul_elem(w, &sd) {
                Ok(term) => match self.accum_w(vec, &term) {
                    Ok(()) => {
                        proof {
                            assert(self@.map_values(|nd: NodeV| nd.w) =~= ws0.update(
                                vec as int,
                                t_add(ws0[vec as int], term@)->Ok_0,
                            ));
                        }
                        Ok(())
                    },
                    Err(err) => Err(err),
                },
                Err(err) => Err(err),
            },
            Err(err) => Err(err),
        }
    }

    /// The operand inherits the adjoint where its value is positive.
    fn bwd_relu(&mut self, ix: usize, vec: usize, w: &Tensor) -> (r: Result<(), TapeError>)
        requires
            old(self).wf(),
            ix < old(self)@.len(),
            old(self)@[ix as int].expr == (Expr::Relu { vec }),
            w@ == old(self)@[ix as int].w,
            w.wf(),
        ensures
            final(self).wf(),
            final(self)@.len() == old(self)@.len(),
            final(self).order@ == old(self).order@,
            forall|i: int| 0 <= i < old(self)@.len()
                ==> (#[trigger] final(self)@[i]).expr == old(self)@[i].expr && final(self)@[i].z
                == old(self)@[i].z,
            r matches Ok(()) ==> bwd_apply(
                old(self)@,
                ix as int,
                old(self)@.map_values(|nd: NodeV| nd.w),
            ) == Ok::<Seq<TensorV>, TapeError>(final(self)@.map_values(|nd: NodeV| nd.w)),
            r matches Err(e) ==> bwd_apply(
                old(self)@,
                ix as int,
                old(self)@.map_values(|nd: NodeV| nd.w),
            ) == Err::<Seq<TensorV>, TapeError>(e),
    {
        let ghost ws0 = self@.map_values(|nd: NodeV| nd.w);
        proof {
            assert(expr_ok(self@[ix as int].expr, ix as int));
            assert(operand_of(vec as int, self@[ix as int].expr));
            assert(self@[vec as int].z == self.nodes@[vec as int].z@);
            assert(tensor_v_wf(self@[vec as int].z));
        }
        let rd = tensor_relu_deriv(&self.nodes[vec].z);
        match tensor_mul_elem(w, &rd) {
            Ok(term) => match self.accum_w(vec, &term) {
                Ok(()) => {
                    proof {
                        assert(self@.map_values(|nd: NodeV| nd.w) =~= ws0.update(
                            vec as int,
                            t_add(ws0[vec as int], term@)->Ok_0,
                        ));
                    }
                    Ok(())
                },
                Err(err) => Err(err),
            },
            Err(err) => Err(err),
        }
    }

    /// The actual value inherits the scalar adjoint times the residual
    /// `expected - actual`.
    fn bwd_loss(&mut self, ix: usize, expected: usize, actual: usize, w: &Tensor) -> (r: Result<(), TapeError>)
        requires
            old(self).wf(),
            ix < old(self)@.len(),
            old(self)@[ix as int].expr == (Expr::Loss { expected, actual }),
            w@ == old(self)@[ix as int].w,
            w.wf(),
        ensures
            final(self).wf(),
            final(self)@.len() == old(self)@.len(),
            final(self).order@ == old(self).order@,
            forall|i: int| 0 <= i < old(self)@.len()
                ==> (#[trigger] final(self)@[i]).expr == old(self)@[i].expr && final(self)@[i].z
                == old(self)@[i].z,
            r matches Ok(()) ==> bwd_apply(
                old(self)@,
                ix as int,
                old(self)@.map_values(|nd: NodeV| nd.w),
            ) == Ok::<Seq<TensorV>, TapeError>(final(self)@.map_values(|nd: NodeV| nd.w)),
            r matches Err(e) ==> bwd_apply(
                old(self)@,
                ix as int,
                old(self)@.map_values(|nd: NodeV| nd.w),
            ) == Err::<Seq<TensorV>, TapeError>(e),
    {
        let ghost ws0 = self@.map_values(|nd: NodeV| nd.w);
        proof {
            assert(expr_ok(self@[ix as int].expr, ix as int));
            assert(operand_of(expected as int, self@[ix as int].expr)
                && operand_of(actual as int, self@[ix as int].expr));
        }
        if w.data.len() != 1 {
            proof {
                assert(w@.data.len() != 1);
            }
            return Err(TapeError::Shape);
        }
        proof {
            assert(self@[expected as int].z == self.nodes@[expected as int].z@
                && self@[actual as int].z == self.nodes@[actual as int].z@);
            assert(tensor_v_wf(self@[expected as int].z) && tensor_v_wf(self@[actual as int].z));
            assert(w@.data[0] == w.data@[0]@);
            assert(tensor_v_wf(w@));
        }
        match tensor_sub(&self.nodes[expected].z, &self.nodes[actual].z) {
            Ok(diff) => match tensor_scale(w.data[0], &diff) {
                Ok(term) => match self.accum_w(actual, &term) {
                    Ok(()) => {
                        proof {
                            assert(self@.map_values(|nd: NodeV| nd.w) =~= ws0.update(
                                actual as int,
                                t_add(ws0[actual as int], term@)->Ok_0,
                            ));
                        }
                        Ok(())
                    },
                    Err(err) => Err(err),
                },
                Err(err) => Err(err),
            },
            Err(err) => Err(err),
        }
    }

    /// Backward propagation: zero every adjoint, seed the output's with
    /// ones, then walk the cached order in reverse, adding each node's
    /// adjoint times the derivative of its operation into each operand's
    /// adjoint (an operand feeding several consumers accumulates all of
    /// them).  The result is exactly the spec-level backward pass;
    /// values and operations are untouched either way.
    #[verifier::rlimit(100)]
    pub fn grad(&mut self, output: usize) -> (r: Result<(), TapeError>)
        requires
            old(self).wf(),
            old(self).compiled(),
            output < old(self)@.len(),
        ensures
            final(self).wf(),
            final(self).compiled(),
            final(self)@.len() == old(self)@.len(),
            forall|i: int| 0 <= i < old(self)@.len()
                ==> (#[trigger] final(self)@[i]).expr == old(self)@[i].expr && final(self)@[i].z
                == old(self)@[i].z,
            r matches Ok(()) ==> bwd_from(old(self)@, output as int, 0) matches Ok(ws)
                && (forall|i: int| 0 <= i < old(self)@.len() ==> (#[trigger] final(self)@[i]).w == ws[i]),
            r matches Err(e) ==> bwd_from(old(self)@, output as int, 0) == Err::<Seq<TensorV>, TapeError>(e),
    {
        let ghost v0 = self@;
        let n = self.nodes.len();

        // zero every adjoint in its value's shape
        let mut i: usize = 0;
        while i < n
            invariant
                self.wf(),
                self.compiled(),
                v0 == old(self)@,
                n == self@.len(),
                v0.len() == n,
                i <= n,
                forall|j: int| 0 <= j < n
                    ==> (#[trigger] self@[j]).expr == v0[j].expr && self@[j].z == v0[j].z,
                forall|j: int| 0 <= j < i
                    ==> (#[trigger] self@[j]).w == t_fill(v0[j].z.shape, (0int, 1int)),
                forall|j: int| i <= j < n ==> (#[trigger] self@[j]).w == v0[j].w,
            decreases n - i,
        {
            proof {
                assert(self@[i as int].z == self.nodes@[i as int].z@);
                assert(tensor_v_wf(self.nodes@[i as int].z@));
            }
            let e = self.nodes[i].expr;
            let z = self.nodes[i].z.dup();
            let zw = self.nodes[i].z.zeros_like();
            let ghost prev = self@;
            let ghost pnodes = self.nodes@;
            self.nodes.set(i, Node { expr: e, z, w: zw });
            proof {
                assert forall|j: int| 0 <= j < self@.len() && j != i implies self@[j] == prev[j] by {
                    assert(self.nodes@[j] == pnodes[j]);
                }
                assert(self@[i as int].expr == e && self@[i as int].z == prev[i as int].z
                    && self@[i as int].w == zw@);
                assert(e == prev[i as int].expr && prev[i as int].z == v0[i as int].z);
                assert(zw@ == t_fill(v0[i as int].z.shape, (0int, 1int)));
                assert forall|j: int| 0 <= j < n implies (#[trigger] self@[j]).expr == v0[j].expr
                    && self@[j].z == v0[j].z by {
                    if j != i {
                        assert(self@[j] == prev[j]);
                        assert(prev[j].expr == v0[j].expr && prev[j].z == v0[j].z);
                    }
                }
                assert forall|j: int| 0 <= j < i + 1 implies (#[trigger] self@[j]).w == t_fill(
                    v0[j].z.shape,
                    (0int, 1int),
                ) by {
                    if j != i {
                        assert(self@[j] == prev[j]);
                        assert(prev[j].w == t_fill(v0[j].z.shape, (0int, 1int)));
                    }
                }
                assert forall|j: int| i + 1 <= j < n implies (#[trigger] self@[j]).w == v0[j].w by {
                    assert(self@[j] == prev[j]);
                    assert(prev[j].w == v0[j].w);
                }
                assert forall|j: int| 0 <= j < self@.len() implies expr_ok(
                    (#[trigger] self@[j]).expr,
                    j,
                ) && tensor_v_wf(self@[j].z) && tensor_v_wf(self@[j].w) by {
                    if j != i {
                        assert(self@[j] == prev[j]);
                    }
                    assert(expr_ok(prev[j].expr, j) && tensor_v_wf(prev[j].z) && tensor_v_wf(
                        prev[j].w,
                    ));
                }
            }
            i = i + 1;
        }

        // seed the output's adjoint with ones
        proof {
            assert(self@[output as int].z == self.nodes@[output as int].z@);
            assert(tensor_v_wf(self.nodes@[output as int].z@));
        }
        let e = self.nodes[output].expr;
        let z = self.nodes[output].z.dup();
        let ow = self.nodes[output].z.ones_like();
        let ghost prev = self@;
        let ghost pnodes = self.nodes@;
        self.nodes.set(output, Node { expr: e, z, w: ow });
        proof {
            assert forall|j: int| 0 <= j < self@.len() && j != output implies self@[j]
                == prev[j] by {
                assert(self.nodes@[j] == pnodes[j]);
            }
            assert(self@[output as int].expr == e && self@[output as int].z
                == prev[output as int].z && self@[output as int].w == ow@);
            assert(e == prev[output as int].expr && prev[output as int].z == v0[output as int].z);
            assert(ow@ == t_fill(v0[output as int].z.shape, (1int, 1int)));
            assert forall|j: int| 0 <= j < n implies (#[trigger] self@[j]).expr == v0[j].expr
                && self@[j].z == v0[j].z by {
                if j != output {
                    assert(self@[j] == prev[j]);
                    assert(prev[j].expr == v0[j].expr && prev[j].z == v0[j].z);
                }
            }
            assert forall|j: int| 0 <= j < n && j != output implies (#[trigger] self@[j]).w
                == t_fill(v0[j].z.shape, (0int, 1int)) by {
                assert(self@[j] == prev[j]);
                assert(prev[j].w == t_fill(v0[j].z.shape, (0int, 1int)));
            }
            assert forall|j: int| 0 <= j < self@.len() implies expr_ok(
                (#[trigger] self@[j]).expr,
                j,
            ) && tensor_v_wf(self@[j].z) && tensor_v_wf(self@[j].w) by {
                if j != output {
                    assert(self@[j] == prev[j]);
                }
                assert(expr_ok(prev[j].expr, j) && tensor_v_wf(prev[j].z) && tensor_v_wf(
                    prev[j].w,
                ));
            }
        }
        proof {
            assert(self@.map_values(|nd: NodeV| nd.w) =~= init_ws(v0, output as int));
        }

        // walk the order in reverse, propagating each adjoint
        let mut k: usize = n;
        while k > 0
            invariant
                self.wf(),
                self.compiled(),
                v0 == old(self)@,
                n == self@.len(),
                v0.len() == n,
                k <= n,
                output < n,
                forall|j: int| 0 <= j < n
                    ==> (#[trigger] self@[j]).expr == v0[j].expr && self@[j].z == v0[j].z,
                bwd_from(v0, output as int, k as int) == Ok::<Seq<TensorV>, TapeError>(
                    self@.map_values(|nd: NodeV| nd.w),
                ),
            decreases k,
        {
            let ix = k - 1;
            let ghost entry = self@;
            let ghost ws0 = self@.map_values(|nd: NodeV| nd.w);
            let stepped = self.bwd_step(ix);
            proof {
                lemma_bwd_apply_same(entry, v0, ix as int, ws0);
            }
            match stepped {
                Ok(()) => {
                    proof {
                        assert(bwd_apply(v0, ix as int, ws0) == Ok::<Seq<TensorV>, TapeError>(
                            self@.map_values(|nd: NodeV| nd.w),
                        ));
                    }
                },
                Err(err) => {
                    proof {
                        assert(bwd_apply(v0, ix as int, ws0) == Err::<Seq<TensorV>, TapeError>(err));
                        assert(bwd_from(v0, output as int, ix as int) == Err::<Seq<TensorV>, TapeError>(err));
                        lemma_bwd_err(v0, output as int, 0, ix as int);
                    }
                    return Err(err);
                },
            }
            k = k - 1;
        }
        Ok(())
    }
}


/// The outer product of two rank-1 tensors.
pub fn outer_product(a: &Tensor, b: &Tensor) -> (r: Result<Tensor, TapeError>)
    requires
        a.wf(),
        b.wf(),
    ensures
        r matches Ok(t) ==> t_outer(a@, b@) == Ok::<TensorV, TapeError>(t@) && t.wf(),
        r matches Err(e) ==> t_outer(a@, b@) == Err::<TensorV, TapeError>(e),
{
    tensor_outer(a, b)
}

/// A small worked graph: `loss(y, relu(w1 * a0 + b1))` over concrete
/// values, compiled, evaluated and differentiated.
pub fn example() -> (r: Tape)
    ensures
        r.wf(),
        r.compiled(),
        r@.len() == 8,
{
    let mut t = Tape::init();

    let a0 = t.var("a0");
    let w1 = t.var("w1");
    let b1 = t.var("b1");
    let m1 = t.mult_mat(w1, a0);
    let z1 = t.add_vec(m1, b1);
    let a1 = t.relu(z1);
    let y = t.var("y");
    let l = t.loss(y, a1);

    t.compile();

    t.set_val(a0, Tensor::vector(vec![Rat::from_int(1), Rat::from_int(2), Rat::from_int(3)]));
    let w_val = match Tensor::matrix(
        2,
        3,
        vec![
            Rat::from_int(1),
            Rat::from_int(1),
            Rat::from_int(1),
            Rat::from_int(2),
            Rat::from_int(2),
            Rat::from_int(2),
        ],
    ) {
        Some(m) => m,
        None => {
            proof {
                assert(false);
            }
            Tensor::empty()
        },
    };
    t.set_val(w1, w_val);
    t.set_val(b1, Tensor::vector(vec![Rat::from_int(1), Rat::from_int(1)]));
    t.set_val(y, Tensor::vector(vec![Rat::from_int(6), Rat::from_int(12)]));

    let _ = t.eval();
    let _ = t.grad(l);

    t
}

} // verus!

//! The graph arena and the traversal protocol.
//!
//! Every node owns exactly one output buffer; operation nodes refer to their
//! two children by index, and children always precede their parents, so the
//! arena order is a topological order.  `forward`, `backward`, `zero_grad` and
//! `set_grad` are specified against the transformers of [`crate::model`].

use vstd::arithmetic::div_mod::lemma_fundamental_div_mod_converse;
use vstd::prelude::*;

use crate::linalg::{nd_add, nd_matmul, nd_mul, nd_ones, nd_zeros};
use crate::model::{
    add_ok, add_seq, bwd, bwd_ok, fill, fwd, fwd_ok, lemma_prod2, lemma_wf_grad_update,
    lemma_wf_value_update, lemma_prod_nonzero2, matmul_seq, mul_ok, mul_seq, node_wf, nz_axis,
    transpose_seq, wf, with_grad, with_value, zg, GraphM, NodeM, Op,
};
use crate::tensor::Tensor;

verus! {

/// The structural failures the node API surfaces.  Both are programmer
/// errors, detected when a node is built or a buffer is written, never later.
#[derive(Clone, Copy, PartialEq, Eq, Structural, Debug)]
pub enum GraphError {
    /// Elementwise operand shapes disagree, a matrix product's inner
    /// dimensions disagree, the declared output shape disagrees with the
    /// computed one, or written data does not fill the buffer.
    ShapeMismatch,
    /// A buffer that is not two-dimensional where a matrix product needs one.
    DimensionalityMismatch,
}

/// One graph element: the operation it performs and the output buffer it
/// owns.  A leaf's buffer is the model input or parameter itself.
pub struct Node {
    pub op: Op,
    pub z: Tensor,
}

/// A computation graph: an arena of nodes in topological order.
pub struct Graph {
    pub nodes: Vec<Node>,
}

impl View for Graph {
    type V = GraphM;

    open spec fn view(&self) -> GraphM {
        Seq::new(
            self.nodes@.len(),
            |i: int|
                NodeM {
                    op: self.nodes@[i].op,
                    dim: self.nodes@[i].z.dim@,
                    value: self.nodes@[i].z.input@,
                    grad: self.nodes@[i].z.grad@,
                },
        )
    }
}

/// Copy a shape vector.
pub(crate) fn copy_dims(v: &Vec<usize>) -> (r: Vec<usize>)
    ensures
        r@ == v@,
{
    let mut r: Vec<usize> = Vec::new();
    let mut idx: usize = 0;
    while idx < v.len()
        invariant
            idx <= v@.len(),
            r@.len() == idx as int,
            forall|p: int| 0 <= p < idx ==> r@[p] == v@[p],
        decreases v@.len() - idx,
    {
        let e = v[idx];
        r.push(e);
        idx = idx + 1;
    }
    proof {
        assert(r@ =~= v@);
    }
    r
}

/// Compare two shape vectors.
pub(crate) fn eq_dims(a: &Vec<usize>, b: &Vec<usize>) -> (r: bool)
    ensures
        r <==> a@ == b@,
{
    if a.len() != b.len() {
        return false;
    }
    let mut idx: usize = 0;
    while idx < a.len()
        invariant
            idx <= a@.len(),
            a@.len() == b@.len(),
            forall|p: int| 0 <= p < idx ==> a@[p] == b@[p],
        decreases a@.len() - idx,
    {
        if a[idx] != b[idx] {
            return false;
        }
        idx = idx + 1;
    }
    proof {
        assert(a@ =~= b@);
    }
    true
}

/// Row-major transpose of `a`, viewed as an `r` by `c` matrix.
pub(crate) fn transpose(a: &Vec<i64>, r: usize, c: usize) -> (t: Vec<i64>)
    requires
        a@.len() == r * c,
    ensures
        t@ == transpose_seq(a@, r as int, c as int),
{
    let ghost target = transpose_seq(a@, r as int, c as int);
    let total = a.len();
    let mut t: Vec<i64> = Vec::new();
    let mut j: usize = 0;
    while j < c
        invariant
            a@.len() == r * c,
            a@.len() <= usize::MAX,
            j <= c,
            t@.len() == (j as int) * (r as int),
            forall|p: int| 0 <= p < t@.len() ==> t@[p] == target[p],
            target == transpose_seq(a@, r as int, c as int),
        decreases c - j,
    {
        let mut i: usize = 0;
        while i < r
            invariant
                a@.len() == r * c,
                a@.len() <= usize::MAX,
                j < c,
                i <= r,
                t@.len() == (j as int) * (r as int) + i,
                forall|p: int| 0 <= p < t@.len() ==> t@[p] == target[p],
                target == transpose_seq(a@, r as int, c as int),
            decreases r - i,
        {
            proof {
                assert(i * c + j < r * c) by (nonlinear_arith)
                    requires
                        0 <= i < r,
                        0 <= j < c,
                ;
            }
            let e = a[i * c + j];
            t.push(e);
            proof {
                let p0 = (j as int) * (r as int) + i;
                lemma_fundamental_div_mod_converse(p0, r as int, j as int, i as int);
                assert(p0 < r * c) by (nonlinear_arith)
                    requires
                        0 <= i < r,
                        0 <= j < c,
                        p0 == (j as int) * (r as int) + i,
                ;
                assert(target[p0] == a@[(p0 % (r as int)) * (c as int) + p0 / (r as int)]);
                assert(t@[p0] == target[p0]);
            }
            i = i + 1;
        }
        proof {
            assert(((j + 1) as int) * (r as int) == (j as int) * (r as int) + r) by (nonlinear_arith);
        }
        j = j + 1;
    }
    proof {
        assert((c as int) * (r as int) == (r as int) * (c as int)) by (nonlinear_arith);
        assert(t@ =~= target);
    }
    t
}

impl Graph {
    /// An empty graph.
    pub fn new() -> (g: Graph)
        ensures
            g@ == Seq::<NodeM>::empty(),
            wf(g@),
    {
        let g = Graph { nodes: Vec::new() };
        proof {
            assert(g@ =~= Seq::<NodeM>::empty());
        }
        g
    }

    /// The number of nodes in the arena.
    pub fn len(&self) -> (n: usize)
        ensures
            n == self@.len(),
    {
        self.nodes.len()
    }

    /// Append a node; internal, the typed constructors wrap it.
    pub(crate) fn push_node(&mut self, n: Node) -> (id: usize)
        ensures
            final(self)@ == old(self)@.push(
                NodeM { op: n.op, dim: n.z.dim@, value: n.z.input@, grad: n.z.grad@ },
            ),
            id == old(self)@.len(),
    {
        let id = self.nodes.len();
        self.nodes.push(n);
        proof {
            let m = NodeM { op: n.op, dim: n.z.dim@, value: n.z.input@, grad: n.z.grad@ };
            assert(self@ =~= old(self)@.push(m));
        }
        id
    }

    /// Replace the value data of node `i`; internal.
    fn put_value(&mut self, i: usize, v: Vec<i64>)
        requires
            i < old(self)@.len(),
        ensures
            final(self)@ == with_value(old(self)@, i as int, v@),
    {
        self.nodes[i].z.input = v;
        proof {
            assert forall|j: int| 0 <= j < self@.len() implies self@[j] == with_value(
                old(self)@,
                i as int,
                v@,
            )[j] by {
                if j == i as int {
                    assert(self@[j] =~= with_value(old(self)@, i as int, v@)[j]);
                }
            }
            assert(self@ =~= with_value(old(self)@, i as int, v@));
        }
    }

    /// Replace the gradient data of node `i`; internal.
    fn put_grad(&mut self, i: usize, v: Vec<i64>)
        requires
            i < old(self)@.len(),
        ensures
            final(self)@ == with_grad(old(self)@, i as int, v@),
    {
        self.nodes[i].z.grad = v;
        proof {
            assert forall|j: int| 0 <= j < self@.len() implies self@[j] == with_grad(
                old(self)@,
                i as int,
                v@,
            )[j] by {
                if j == i as int {
                    assert(self@[j] =~= with_grad(old(self)@, i as int, v@)[j]);
                }
            }
            assert(self@ =~= with_grad(old(self)@, i as int, v@));
        }
    }

    /// Read access to the value array of node `i`.
    pub fn get_input(&self, i: usize) -> (r: &Vec<i64>)
        requires
            i < self@.len(),
        ensures
            r@ == self@[i as int].value,
    {
        &self.nodes[i].z.input
    }

    /// Read access to the gradient array of node `i`.
    pub fn get_grad(&self, i: usize) -> (r: &Vec<i64>)
        requires
            i < self@.len(),
        ensures
            r@ == self@[i as int].grad,
    {
        &self.nodes[i].z.grad
    }

    /// The shape of node `i`, fixed at its construction.
    pub fn shape(&self, i: usize) -> (r: &Vec<usize>)
        requires
            i < self@.len(),
        ensures
            r@ == self@[i as int].dim,
    {
        &self.nodes[i].z.dim
    }

    /// Overwrite the value array of node `i`.  Data that does not fill the
    /// buffer exactly is a shape mismatch and leaves the graph unchanged.
    pub fn set_input(&mut self, i: usize, v: Vec<i64>) -> (r: Result<(), GraphError>)
        requires
            wf(old(self)@),
            i < old(self)@.len(),
        ensures
            wf(final(self)@),
            v@.len() == old(self)@[i as int].value.len() ==> r == Ok::<(), GraphError>(())
                && final(self)@ == with_value(old(self)@, i as int, v@),
            v@.len() != old(self)@[i as int].value.len() ==> r == Err::<(), GraphError>(
                GraphError::ShapeMismatch,
            ) && final(self)@ == old(self)@,
    {
        if v.len() == self.nodes[i].z.input.len() {
            proof {
                lemma_wf_value_update(self@, i as int, v@);
            }
            self.put_value(i, v);
            Ok(())
        } else {
            Err(GraphError::ShapeMismatch)
        }
    }

    /// Zero the gradient array of node `i` alone.
    pub fn reset_grad(&mut self, i: usize)
        requires
            wf(old(self)@),
            i < old(self)@.len(),
        ensures
            wf(final(self)@),
            final(self)@ == with_grad(
                old(self)@,
                i as int,
                fill(old(self)@[i as int].grad.len(), 0),
            ),
    {
        proof {
            assert(node_wf(self@, i as int));
        }
        let zeros = nd_zeros(&self.nodes[i].z.dim);
        proof {
            lemma_wf_grad_update(self@, i as int, zeros@);
        }
        self.put_grad(i, zeros);
    }

    /// Seed the gradient of node `i` with ones, the reverse-mode starting
    /// condition; intended for the graph root.
    pub fn set_grad(&mut self, i: usize)
        requires
            wf(old(self)@),
            i < old(self)@.len(),
        ensures
            wf(final(self)@),
            final(self)@ == with_grad(
                old(self)@,
                i as int,
                fill(old(self)@[i as int].grad.len(), 1),
            ),
    {
        proof {
            assert(node_wf(self@, i as int));
        }
        let ones = nd_ones(&self.nodes[i].z.dim);
        proof {
            lemma_wf_grad_update(self@, i as int, ones@);
        }
        self.put_grad(i, ones);
    }

    /// Zero the gradients of node `i` and of every node reachable below it.
    pub fn zero_grad(&mut self, i: usize)
        requires
            wf(old(self)@),
            i < old(self)@.len(),
        ensures
            wf(final(self)@),
            final(self)@ == zg(old(self)@, i as int),
            final(self)@.len() == old(self)@.len(),
            forall|j: int|
                0 <= j < old(self)@.len() ==> (#[trigger] final(self)@[j]).op == old(self)@[j].op
                    && final(self)@[j].dim == old(self)@[j].dim && final(self)@[j].value == old(
                    self,
                )@[j].value && final(self)@[j].grad.len() == old(self)@[j].grad.len(),
        decreases i,
    {
        let op = self.nodes[i].op;
        proof {
            assert(node_wf(self@, i as int));
        }
        let zeros = nd_zeros(&self.nodes[i].z.dim);
        proof {
            lemma_wf_grad_update(self@, i as int, zeros@);
        }
        self.put_grad(i, zeros);
        match op {
            Op::Leaf => {},
            Op::Add(x, y) => {
                self.zero_grad(x);
                self.zero_grad(y);
            },
            Op::Product(x, y) => {
                self.zero_grad(x);
                self.zero_grad(y);
            },
            Op::Matmul(x, y) => {
                self.zero_grad(x);
                self.zero_grad(y);
            },
        }
    }

    /// Recompute the value of node `i` from current child values, bottom-up:
    /// both children are forwarded first, each visit redoing its whole
    /// subtree.  Add and Product overwrite their output buffer; Matmul adds
    /// the matrix product into it.
    pub fn forward(&mut self, i: usize)
        requires
            wf(old(self)@),
            i < old(self)@.len(),
            fwd_ok(old(self)@, i as int),
        ensures
            wf(final(self)@),
            final(self)@ == fwd(old(self)@, i as int),
            final(self)@.len() == old(self)@.len(),
            forall|j: int|
                0 <= j < old(self)@.len() ==> (#[trigger] final(self)@[j]).op == old(self)@[j].op
                    && final(self)@[j].dim == old(self)@[j].dim && final(self)@[j].grad == old(
                    self,
                )@[j].grad && final(self)@[j].value.len() == old(self)@[j].value.len(),
        decreases i,
    {
        let op = self.nodes[i].op;
        proof {
            assert(node_wf(old(self)@, i as int));
        }
        match op {
            Op::Leaf => {},
            Op::Add(x, y) => {
                self.forward(x);
                self.forward(y);
                let ghost g2 = self@;
                proof {
                    assert(add_ok(g2[x as int].value, g2[y as int].value));
                    assert(node_wf(g2, i as int));
                    assert(node_wf(g2, x as int));
                    assert(node_wf(g2, y as int));
                }
                let v = nd_add(&self.nodes[x].z.input, &self.nodes[y].z.input);
                proof {
                    assert(v@ =~= add_seq(g2[x as int].value, g2[y as int].value));
                    lemma_wf_value_update(g2, i as int, v@);
                }
                self.put_value(i, v);
            },
            Op::Product(x, y) => {
                self.forward(x);
                self.forward(y);
                let ghost g2 = self@;
                proof {
                    assert(mul_ok(g2[x as int].value, g2[y as int].value));
                    assert(node_wf(g2, i as int));
                    assert(node_wf(g2, x as int));
                    assert(node_wf(g2, y as int));
                }
                let v = nd_mul(&self.nodes[x].z.input, &self.nodes[y].z.input);
                proof {
                    assert(v@ =~= mul_seq(g2[x as int].value, g2[y as int].value));
                    lemma_wf_value_update(g2, i as int, v@);
                }
                self.put_value(i, v);
            },
            Op::Matmul(x, y) => {
                self.forward(x);
                self.forward(y);
                let ghost g2 = self@;
                proof {
                    assert(node_wf(g2, x as int));
                    assert(node_wf(g2, y as int));
                    assert(node_wf(g2, i as int));
                    lemma_prod2(g2[x as int].dim);
                    lemma_prod2(g2[y as int].dim);
                    lemma_prod2(g2[i as int].dim);
                }
                let m = self.nodes[x].z.dim[0];
                let k = self.nodes[x].z.dim[1];
                let n = self.nodes[y].z.dim[1];
                proof {
                    assert(seq![m, k] =~= g2[x as int].dim);
                    assert(seq![k, n] =~= g2[y as int].dim);
                    assert(seq![m, n] =~= g2[i as int].dim);
                }
                let mm = nd_matmul(&self.nodes[x].z.input, &self.nodes[y].z.input, m, k, n);
                proof {
                    assert(add_ok(
                        g2[i as int].value,
                        matmul_seq(
                            g2[x as int].value,
                            g2[y as int].value,
                            m as int,
                            k as int,
                            n as int,
                        ),
                    ));
                }
                let v = nd_add(&self.nodes[i].z.input, &mm);
                proof {
                    assert(v@ =~= add_seq(
                        g2[i as int].value,
                        matmul_seq(
                            g2[x as int].value,
                            g2[y as int].value,
                            m as int,
                            k as int,
                            n as int,
                        ),
                    ));
                    lemma_wf_value_update(g2, i as int, v@);
                }
                self.put_value(i, v);
            },
        }
    }

    /// Propagate this node's output gradient into its children: add the
    /// operation's local-derivative contribution into each child's gradient
    /// (first child first), then recurse into each child.  Gradients
    /// accumulate: a child reached through several parent edges receives one
    /// contribution per path, and a second backward pass without an
    /// intervening gradient reset adds on top of the first.
    pub fn backward(&mut self, i: usize)
        requires
            wf(old(self)@),
            i < old(self)@.len(),
            bwd_ok(old(self)@, i as int),
        ensures
            wf(final(self)@),
            final(self)@ == bwd(old(self)@, i as int),
            final(self)@.len() == old(self)@.len(),
            forall|j: int|
                0 <= j < old(self)@.len() ==> (#[trigger] final(self)@[j]).op == old(self)@[j].op
                    && final(self)@[j].dim == old(self)@[j].dim && final(self)@[j].value == old(
                    self,
                )@[j].value && final(self)@[j].grad.len() == old(self)@[j].grad.len(),
        decreases i,
    {
        let op = self.nodes[i].op;
        proof {
            assert(node_wf(old(self)@, i as int));
        }
        match op {
            Op::Leaf => {},
            Op::Add(x, y) => {
                let gx = nd_add(&self.nodes[x].z.grad, &self.nodes[i].z.grad);
                proof {
                    assert(gx@ =~= add_seq(old(self)@[x as int].grad, old(self)@[i as int].grad));
                    lemma_wf_grad_update(self@, x as int, gx@);
                }
                self.put_grad(x, gx);
                let ghost g1 = self@;
                proof {
                    let gs = old(self)@;
                    let g1s = with_grad(gs, x as int, add_seq(gs[x as int].grad, gs[i as int].grad));
                    assert(g1 == g1s);
                    assert(add_ok(g1s[y as int].grad, gs[i as int].grad));
                    assert(g1[i as int].grad == gs[i as int].grad);
                }
                let gy = nd_add(&self.nodes[y].z.grad, &self.nodes[i].z.grad);
                proof {
                    assert(gy@ =~= add_seq(g1[y as int].grad, old(self)@[i as int].grad));
                    lemma_wf_grad_update(g1, y as int, gy@);
                }
                self.put_grad(y, gy);
                self.backward(x);
                self.backward(y);
            },
            Op::Product(x, y) => {
                let cx = nd_mul(&self.nodes[i].z.grad, &self.nodes[y].z.input);
                let gx = nd_add(&self.nodes[x].z.grad, &cx);
                proof {
                    assert(cx@ =~= mul_seq(old(self)@[i as int].grad, old(self)@[y as int].value));
                    assert(gx@ =~= add_seq(
                        old(self)@[x as int].grad,
                        mul_seq(old(self)@[i as int].grad, old(self)@[y as int].value),
                    ));
                    lemma_wf_grad_update(self@, x as int, gx@);
                }
                self.put_grad(x, gx);
                let ghost g1 = self@;
                proof {
                    let gs = old(self)@;
                    let g1s = with_grad(
                        gs,
                        x as int,
                        add_seq(gs[x as int].grad, mul_seq(gs[i as int].grad, gs[y as int].value)),
                    );
                    assert(g1 == g1s);
                    assert(mul_ok(gs[i as int].grad, gs[x as int].value));
                    assert(add_ok(g1s[y as int].grad, mul_seq(gs[i as int].grad, gs[x as int].value)));
                    assert(g1[i as int].grad == gs[i as int].grad);
                    assert(g1[x as int].value == gs[x as int].value);
                }
                let cy = nd_mul(&self.nodes[i].z.grad, &self.nodes[x].z.input);
                let gy = nd_add(&self.nodes[y].z.grad, &cy);
                proof {
                    assert(cy@ =~= mul_seq(old(self)@[i as int].grad, old(self)@[x as int].value));
                    assert(gy@ =~= add_seq(
                        g1[y as int].grad,
                        mul_seq(old(self)@[i as int].grad, old(self)@[x as int].value),
                    ));
                    lemma_wf_grad_update(g1, y as int, gy@);
                }
                self.put_grad(y, gy);
                self.backward(x);
                self.backward(y);
            },
            Op::Matmul(x, y) => {
                proof {
                    assert(node_wf(old(self)@, x as int));
                    assert(node_wf(old(self)@, y as int));
                    lemma_prod2(old(self)@[x as int].dim);
                    lemma_prod2(old(self)@[y as int].dim);
                    lemma_prod2(old(self)@[i as int].dim);
                }
                let m = self.nodes[x].z.dim[0];
                let k = self.nodes[x].z.dim[1];
                let n = self.nodes[y].z.dim[1];
                proof {
                    assert((k as int) * (n as int) == (n as int) * (k as int)) by (nonlinear_arith);
                    assert((m as int) * (k as int) == (k as int) * (m as int)) by (nonlinear_arith);
                    assert(seq![m, k] =~= old(self)@[x as int].dim);
                    assert(seq![k, n] =~= old(self)@[y as int].dim);
                    assert(seq![m, n] =~= old(self)@[i as int].dim);
                    lemma_prod_nonzero2(seq![m, k]);
                    lemma_prod_nonzero2(seq![k, m]);
                    lemma_prod_nonzero2(seq![k, n]);
                    lemma_prod_nonzero2(seq![n, k]);
                    assert(nz_axis(n) * nz_axis(k) == nz_axis(k) * nz_axis(n)) by (nonlinear_arith);
                    assert(nz_axis(k) * nz_axis(m) == nz_axis(m) * nz_axis(k)) by (nonlinear_arith);
                }
                let yt = transpose(&self.nodes[y].z.input, k, n);
                let cx = nd_matmul(&self.nodes[i].z.grad, &yt, m, n, k);
                let gx = nd_add(&self.nodes[x].z.grad, &cx);
                proof {
                    assert(gx@ =~= add_seq(
                        old(self)@[x as int].grad,
                        matmul_seq(
                            old(self)@[i as int].grad,
                            transpose_seq(old(self)@[y as int].value, k as int, n as int),
                            m as int,
                            n as int,
                            k as int,
                        ),
                    ));
                    lemma_wf_grad_update(self@, x as int, gx@);
                }
                self.put_grad(x, gx);
                let ghost g1 = self@;
                proof {
                    let gs = old(self)@;
                    let cxs = matmul_seq(
                        gs[i as int].grad,
                        transpose_seq(gs[y as int].value, k as int, n as int),
                        m as int,
                        n as int,
                        k as int,
                    );
                    let g1s = with_grad(gs, x as int, add_seq(gs[x as int].grad, cxs));
                    assert(g1 == g1s);
                    let cys = matmul_seq(
                        transpose_seq(gs[x as int].value, m as int, k as int),
                        gs[i as int].grad,
                        k as int,
                        m as int,
                        n as int,
                    );
                    assert(crate::model::matmul_ok(
                        transpose_seq(gs[x as int].value, m as int, k as int),
                        gs[i as int].grad,
                        k as int,
                        m as int,
                        n as int,
                    ));
                    assert(add_ok(g1s[y as int].grad, cys));
                    assert(g1[i as int].grad == gs[i as int].grad);
                    assert(g1[x as int].value == gs[x as int].value);
                }
                let xt = transpose(&self.nodes[x].z.input, m, k);
                let cy = nd_matmul(&xt, &self.nodes[i].z.grad, k, m, n);
                let gy = nd_add(&self.nodes[y].z.grad, &cy);
                proof {
                    assert(gy@ =~= add_seq(
                        g1[y as int].grad,
                        matmul_seq(
                            transpose_seq(old(self)@[x as int].value, m as int, k as int),
                            old(self)@[i as int].grad,
                            k as int,
                            m as int,
                            n as int,
                        ),
                    ));
                    lemma_wf_grad_update(g1, y as int, gy@);
                }
                self.put_grad(y, gy);
                self.backward(x);
                self.backward(y);
            },
        }
    }
}

} // verus!

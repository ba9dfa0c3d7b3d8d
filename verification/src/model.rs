//! Mathematical model of the computation graph.
//!
//! A graph is a sequence of nodes in topological order: every operation node
//! refers to children with strictly smaller indices.  The forward and backward
//! passes are modelled as state transformers (`fwd`, `bwd`, `zg`) that mirror
//! the traversal protocol exactly, including the accumulation discipline:
//! `bwd` adds each operation's local-derivative contribution into the child
//! gradients before recursing, and a child reached through several parent
//! edges accumulates one contribution per path.

use vstd::prelude::*;

verus! {

/// The operation a node performs on its two children (leaves have none).
#[derive(Clone, Copy, PartialEq, Eq, Structural, Debug)]
pub enum Op {
    Leaf,
    Add(usize, usize),
    Product(usize, usize),
    Matmul(usize, usize),
}

/// Ghost image of one node: its operation, axis sizes, value data and
/// gradient data (both row-major).
#[verifier::ext_equal]
pub struct NodeM {
    pub op: Op,
    pub dim: Seq<usize>,
    pub value: Seq<i64>,
    pub grad: Seq<i64>,
}

pub type GraphM = Seq<NodeM>;

/// Number of elements of an array with the given axis sizes; one for a
/// zero-dimensional (scalar) array.
pub open spec fn prod(dim: Seq<usize>) -> int
    decreases dim.len(),
{
    if dim.len() == 0 {
        1
    } else {
        dim[0] * prod(dim.drop_first())
    }
}

/// An axis size as the array allocator counts it: a zero axis empties the
/// array but still counts as one in the allocator's size check.
pub open spec fn nz_axis(d: usize) -> int {
    if d == 0 {
        1
    } else {
        d as int
    }
}

/// Product of the axis sizes with every zero axis counted as one.  This is
/// the quantity the array allocator bounds, so the engine bounds it too; it
/// is never below `prod`.
pub open spec fn prod_nonzero(dim: Seq<usize>) -> int
    decreases dim.len(),
{
    if dim.len() == 0 {
        1
    } else {
        nz_axis(dim[0]) * prod_nonzero(dim.drop_first())
    }
}

/// The value fits in the engine's scalar type.
pub open spec fn fits(x: int) -> bool {
    i64::MIN <= x <= i64::MAX
}

/// A constant sequence.
pub open spec fn fill(n: nat, x: i64) -> Seq<i64> {
    Seq::new(n, |p: int| x)
}

/// Pointwise sum, truncated into the scalar type (exact wherever `add_ok` holds).
pub open spec fn add_seq(a: Seq<i64>, b: Seq<i64>) -> Seq<i64> {
    Seq::new(a.len(), |p: int| (a[p] + b[p]) as i64)
}

/// Every pointwise sum fits in the scalar type.
pub open spec fn add_ok(a: Seq<i64>, b: Seq<i64>) -> bool {
    &&& a.len() == b.len()
    &&& forall|p: int| 0 <= p < a.len() ==> fits(a[p] + b[p])
}

/// Pointwise (Hadamard) product, truncated into the scalar type.
pub open spec fn mul_seq(a: Seq<i64>, b: Seq<i64>) -> Seq<i64> {
    Seq::new(a.len(), |p: int| (a[p] * b[p]) as i64)
}

/// Every pointwise product fits in the scalar type.
pub open spec fn mul_ok(a: Seq<i64>, b: Seq<i64>) -> bool {
    &&& a.len() == b.len()
    &&& forall|p: int| 0 <= p < a.len() ==> fits(a[p] * b[p])
}

/// One product of the dot product under `dot`: row `i` of `x` (an `m` by `k`
/// matrix) against column `j` of `y` (a `k` by `n` matrix), inner position `t`.
pub open spec fn prod_at(x: Seq<i64>, y: Seq<i64>, k: int, n: int, i: int, j: int, t: int) -> int {
    x[i * k + t] * y[t * n + j]
}

/// Sum of the first `t` products of row `i` of `x` against column `j` of `y`.
pub open spec fn dot(x: Seq<i64>, y: Seq<i64>, k: int, n: int, i: int, j: int, t: int) -> int
    decreases t,
{
    if t <= 0 {
        0
    } else {
        dot(x, y, k, n, i, j, t - 1) + prod_at(x, y, k, n, i, j, t - 1)
    }
}

/// Entry `(i, j)` of the matrix product of `x` (`m` by `k`) and `y` (`k` by `n`).
pub open spec fn mat_entry(x: Seq<i64>, y: Seq<i64>, k: int, n: int, i: int, j: int) -> int {
    dot(x, y, k, n, i, j, k)
}

/// Row-major matrix product of `x` (`m` by `k`) and `y` (`k` by `n`).
pub open spec fn matmul_seq(x: Seq<i64>, y: Seq<i64>, m: int, k: int, n: int) -> Seq<i64> {
    Seq::new((m * n) as nat, |p: int| mat_entry(x, y, k, n, p / n, p % n) as i64)
}

/// Every product and every left-to-right partial sum of the matrix product
/// fits in the scalar type.
pub open spec fn matmul_ok(x: Seq<i64>, y: Seq<i64>, m: int, k: int, n: int) -> bool {
    &&& forall|i: int, j: int, t: int|
        0 <= i < m && 0 <= j < n && 0 <= t < k ==> fits(#[trigger] prod_at(x, y, k, n, i, j, t))
    &&& forall|i: int, j: int, t: int|
        0 <= i < m && 0 <= j < n && 0 <= t <= k ==> fits(#[trigger] dot(x, y, k, n, i, j, t))
}

/// Row-major transpose of `a`, an `r` by `c` matrix.
pub open spec fn transpose_seq(a: Seq<i64>, r: int, c: int) -> Seq<i64> {
    Seq::new((r * c) as nat, |p: int| a[(p % r) * c + p / r])
}

/// The graph with the value data of node `i` replaced.
pub open spec fn with_value(g: GraphM, i: int, v: Seq<i64>) -> GraphM {
    g.update(i, NodeM { value: v, ..g[i] })
}

/// The graph with the gradient data of node `i` replaced.
pub open spec fn with_grad(g: GraphM, i: int, v: Seq<i64>) -> GraphM {
    g.update(i, NodeM { grad: v, ..g[i] })
}

/// Well-formedness of one node: its buffers match its shape, and an operation
/// node has children earlier in the sequence with the shapes the operation
/// demands.  Matrix-multiply nodes are two-dimensional with agreeing inner
/// dimension and a declared output shape equal to the computed one.
pub open spec fn node_wf(g: GraphM, i: int) -> bool {
    &&& g[i].value.len() == prod(g[i].dim)
    &&& g[i].grad.len() == prod(g[i].dim)
    &&& prod_nonzero(g[i].dim) * 8 <= isize::MAX
    &&& match g[i].op {
        Op::Leaf => true,
        Op::Add(x, y) => {
            &&& (x as int) < i
            &&& (y as int) < i
            &&& g[x as int].dim == g[i].dim
            &&& g[y as int].dim == g[i].dim
        },
        Op::Product(x, y) => {
            &&& (x as int) < i
            &&& (y as int) < i
            &&& g[x as int].dim == g[i].dim
            &&& g[y as int].dim == g[i].dim
        },
        Op::Matmul(x, y) => {
            &&& (x as int) < i
            &&& (y as int) < i
            &&& g[x as int].dim.len() == 2
            &&& g[y as int].dim.len() == 2
            &&& g[i].dim.len() == 2
            &&& g[x as int].dim[1] == g[y as int].dim[0]
            &&& g[i].dim[0] == g[x as int].dim[0]
            &&& g[i].dim[1] == g[y as int].dim[1]
        },
    }
}

/// Every node of the graph is well formed.
pub open spec fn wf(g: GraphM) -> bool {
    forall|i: int| 0 <= i < g.len() ==> #[trigger] node_wf(g, i)
}

/// The forward pass from node `i`: forward both children, then recompute this
/// node's value.  Add and Product overwrite their output; Matmul accumulates
/// the product into its existing output value.
pub open spec fn fwd(g: GraphM, i: int) -> GraphM
    decreases i,
{
    if 0 <= i < g.len() {
        match g[i].op {
            Op::Leaf => g,
            Op::Add(x, y) => {
                if (x as int) < i && (y as int) < i {
                    let g2 = fwd(fwd(g, x as int), y as int);
                    with_value(g2, i, add_seq(g2[x as int].value, g2[y as int].value))
                } else {
                    g
                }
            },
            Op::Product(x, y) => {
                if (x as int) < i && (y as int) < i {
                    let g2 = fwd(fwd(g, x as int), y as int);
                    with_value(g2, i, mul_seq(g2[x as int].value, g2[y as int].value))
                } else {
                    g
                }
            },
            Op::Matmul(x, y) => {
                if (x as int) < i && (y as int) < i {
                    let g2 = fwd(fwd(g, x as int), y as int);
                    let m = g2[x as int].dim[0] as int;
                    let k = g2[x as int].dim[1] as int;
                    let n = g2[y as int].dim[1] as int;
                    with_value(
                        g2,
                        i,
                        add_seq(
                            g2[i].value,
                            matmul_seq(g2[x as int].value, g2[y as int].value, m, k, n),
                        ),
                    )
                } else {
                    g
                }
            },
        }
    } else {
        g
    }
}

/// No intermediate of the forward pass from node `i` overflows the scalar type.
pub open spec fn fwd_ok(g: GraphM, i: int) -> bool
    decreases i,
{
    if 0 <= i < g.len() {
        match g[i].op {
            Op::Leaf => true,
            Op::Add(x, y) => {
                &&& (x as int) < i
                &&& (y as int) < i
                &&& fwd_ok(g, x as int)
                &&& fwd_ok(fwd(g, x as int), y as int)
                &&& {
                    let g2 = fwd(fwd(g, x as int), y as int);
                    add_ok(g2[x as int].value, g2[y as int].value)
                }
            },
            Op::Product(x, y) => {
                &&& (x as int) < i
                &&& (y as int) < i
                &&& fwd_ok(g, x as int)
                &&& fwd_ok(fwd(g, x as int), y as int)
                &&& {
                    let g2 = fwd(fwd(g, x as int), y as int);
                    mul_ok(g2[x as int].value, g2[y as int].value)
                }
            },
            Op::Matmul(x, y) => {
                &&& (x as int) < i
                &&& (y as int) < i
                &&& fwd_ok(g, x as int)
                &&& fwd_ok(fwd(g, x as int), y as int)
                &&& {
                    let g2 = fwd(fwd(g, x as int), y as int);
                    let m = g2[x as int].dim[0] as int;
                    let k = g2[x as int].dim[1] as int;
                    let n = g2[y as int].dim[1] as int;
                    &&& matmul_ok(g2[x as int].value, g2[y as int].value, m, k, n)
                    &&& add_ok(
                        g2[i].value,
                        matmul_seq(g2[x as int].value, g2[y as int].value, m, k, n),
                    )
                }
            },
        }
    } else {
        true
    }
}

/// The backward pass from node `i`: add this operation's local-derivative
/// contribution into each child's gradient, then recurse into the children.
/// The contributions are added in order (first child, then second), so a node
/// that is both children of one parent accumulates twice.
pub open spec fn bwd(g: GraphM, i: int) -> GraphM
    decreases i,
{
    if 0 <= i < g.len() {
        match g[i].op {
            Op::Leaf => g,
            Op::Add(x, y) => {
                if (x as int) < i && (y as int) < i {
                    let g1 = with_grad(g, x as int, add_seq(g[x as int].grad, g[i].grad));
                    let g2 = with_grad(g1, y as int, add_seq(g1[y as int].grad, g[i].grad));
                    bwd(bwd(g2, x as int), y as int)
                } else {
                    g
                }
            },
            Op::Product(x, y) => {
                if (x as int) < i && (y as int) < i {
                    let g1 = with_grad(
                        g,
                        x as int,
                        add_seq(g[x as int].grad, mul_seq(g[i].grad, g[y as int].value)),
                    );
                    let g2 = with_grad(
                        g1,
                        y as int,
                        add_seq(g1[y as int].grad, mul_seq(g[i].grad, g[x as int].value)),
                    );
                    bwd(bwd(g2, x as int), y as int)
                } else {
                    g
                }
            },
            Op::Matmul(x, y) => {
                if (x as int) < i && (y as int) < i {
                    let m = g[x as int].dim[0] as int;
                    let k = g[x as int].dim[1] as int;
                    let n = g[y as int].dim[1] as int;
                    let cx = matmul_seq(g[i].grad, transpose_seq(g[y as int].value, k, n), m, n, k);
                    let g1 = with_grad(g, x as int, add_seq(g[x as int].grad, cx));
                    let cy = matmul_seq(transpose_seq(g[x as int].value, m, k), g[i].grad, k, m, n);
                    let g2 = with_grad(g1, y as int, add_seq(g1[y as int].grad, cy));
                    bwd(bwd(g2, x as int), y as int)
                } else {
                    g
                }
            },
        }
    } else {
        g
    }
}

/// No intermediate of the backward pass from node `i` overflows the scalar type.
pub open spec fn bwd_ok(g: GraphM, i: int) -> bool
    decreases i,
{
    if 0 <= i < g.len() {
        match g[i].op {
            Op::Leaf => true,
            Op::Add(x, y) => {
                let g1 = with_grad(g, x as int, add_seq(g[x as int].grad, g[i].grad));
                let g2 = with_grad(g1, y as int, add_seq(g1[y as int].grad, g[i].grad));
                &&& (x as int) < i
                &&& (y as int) < i
                &&& add_ok(g[x as int].grad, g[i].grad)
                &&& add_ok(g1[y as int].grad, g[i].grad)
                &&& bwd_ok(g2, x as int)
                &&& bwd_ok(bwd(g2, x as int), y as int)
            },
            Op::Product(x, y) => {
                let cx = mul_seq(g[i].grad, g[y as int].value);
                let g1 = with_grad(g, x as int, add_seq(g[x as int].grad, cx));
                let cy = mul_seq(g[i].grad, g[x as int].value);
                let g2 = with_grad(g1, y as int, add_seq(g1[y as int].grad, cy));
                &&& (x as int) < i
                &&& (y as int) < i
                &&& mul_ok(g[i].grad, g[y as int].value)
                &&& add_ok(g[x as int].grad, cx)
                &&& mul_ok(g[i].grad, g[x as int].value)
                &&& add_ok(g1[y as int].grad, cy)
                &&& bwd_ok(g2, x as int)
                &&& bwd_ok(bwd(g2, x as int), y as int)
            },
            Op::Matmul(x, y) => {
                let m = g[x as int].dim[0] as int;
                let k = g[x as int].dim[1] as int;
                let n = g[y as int].dim[1] as int;
                let cx = matmul_seq(g[i].grad, transpose_seq(g[y as int].value, k, n), m, n, k);
                let g1 = with_grad(g, x as int, add_seq(g[x as int].grad, cx));
                let cy = matmul_seq(transpose_seq(g[x as int].value, m, k), g[i].grad, k, m, n);
                let g2 = with_grad(g1, y as int, add_seq(g1[y as int].grad, cy));
                &&& (x as int) < i
                &&& (y as int) < i
                &&& matmul_ok(g[i].grad, transpose_seq(g[y as int].value, k, n), m, n, k)
                &&& add_ok(g[x as int].grad, cx)
                &&& matmul_ok(transpose_seq(g[x as int].value, m, k), g[i].grad, k, m, n)
                &&& add_ok(g1[y as int].grad, cy)
                &&& bwd_ok(g2, x as int)
                &&& bwd_ok(bwd(g2, x as int), y as int)
            },
        }
    } else {
        true
    }
}

/// Replacing one node's value data with data of the same length preserves
/// well-formedness.
pub proof fn lemma_wf_value_update(g: GraphM, i: int, v: Seq<i64>)
    requires
        wf(g),
        0 <= i < g.len(),
        v.len() == g[i].value.len(),
    ensures
        wf(with_value(g, i, v)),
{
    let h = with_value(g, i, v);
    assert forall|j: int| 0 <= j < h.len() implies node_wf(h, j) by {
        assert(node_wf(g, j));
    }
}

/// Replacing one node's gradient data with data of the same length preserves
/// well-formedness.
pub proof fn lemma_wf_grad_update(g: GraphM, i: int, v: Seq<i64>)
    requires
        wf(g),
        0 <= i < g.len(),
        v.len() == g[i].grad.len(),
    ensures
        wf(with_grad(g, i, v)),
{
    let h = with_grad(g, i, v);
    assert forall|j: int| 0 <= j < h.len() implies node_wf(h, j) by {
        assert(node_wf(g, j));
    }
}

/// Appending a node that is well formed at the end of the sequence preserves
/// well-formedness.
pub proof fn lemma_wf_push(g: GraphM, n: NodeM)
    requires
        wf(g),
        node_wf(g.push(n), g.len() as int),
    ensures
        wf(g.push(n)),
{
    let h = g.push(n);
    assert forall|j: int| 0 <= j < h.len() implies node_wf(h, j) by {
        if j < g.len() {
            assert(node_wf(g, j));
        }
    }
}

/// A product of axis sizes is never negative.
pub proof fn lemma_prod_nonneg(dim: Seq<usize>)
    ensures
        prod(dim) >= 0,
    decreases dim.len(),
{
    if dim.len() == 0 {
    } else {
        lemma_prod_nonneg(dim.drop_first());
        assert(dim[0] * prod(dim.drop_first()) >= 0) by (nonlinear_arith)
            requires
                dim[0] >= 0,
                prod(dim.drop_first()) >= 0,
        ;
    }
}

/// For a two-dimensional shape the element count is the product of the two
/// axis sizes.
pub proof fn lemma_prod2(dim: Seq<usize>)
    requires
        dim.len() == 2,
    ensures
        prod(dim) == dim[0] * dim[1],
{
    let d1 = dim.drop_first();
    let d2 = d1.drop_first();
    assert(d2.len() == 0);
    assert(prod(d2) == 1);
    assert(prod(d1) == d1[0] * prod(d2));
    assert(d1[0] == dim[1]);
    assert(prod(dim) == dim[0] * prod(d1));
}

/// For a two-dimensional shape the allocator-counted size is the product of
/// the two axis sizes with zero axes counted as one.
pub proof fn lemma_prod_nonzero2(dim: Seq<usize>)
    requires
        dim.len() == 2,
    ensures
        prod_nonzero(dim) == nz_axis(dim[0]) * nz_axis(dim[1]),
{
    let d1 = dim.drop_first();
    let d2 = d1.drop_first();
    assert(d2.len() == 0);
    assert(prod_nonzero(d2) == 1);
    assert(prod_nonzero(d1) == nz_axis(d1[0]) * prod_nonzero(d2));
    assert(d1[0] == dim[1]);
    assert(prod_nonzero(dim) == nz_axis(dim[0]) * prod_nonzero(d1));
}

/// The recursive gradient reset from node `i`: zero this node's gradient, then
/// recurse into the children.
pub open spec fn zg(g: GraphM, i: int) -> GraphM
    decreases i,
{
    if 0 <= i < g.len() {
        let g0 = with_grad(g, i, fill(g[i].grad.len(), 0));
        match g[i].op {
            Op::Leaf => g0,
            Op::Add(x, y) => {
                if (x as int) < i && (y as int) < i {
                    zg(zg(g0, x as int), y as int)
                } else {
                    g0
                }
            },
            Op::Product(x, y) => {
                if (x as int) < i && (y as int) < i {
                    zg(zg(g0, x as int), y as int)
                } else {
                    g0
                }
            },
            Op::Matmul(x, y) => {
                if (x as int) < i && (y as int) < i {
                    zg(zg(g0, x as int), y as int)
                } else {
                    g0
                }
            },
        }
    } else {
        g
    }
}

} // verus!

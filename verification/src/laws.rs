//! Laws of the traversal protocol, proved against the model transformers.
//!
//! Each public proof function states one engine-level guarantee: uniform
//! add/product gradients, idempotence of the forward pass on graphs without
//! matrix multiply, additive accumulation of repeated backward passes, and
//! diamond-path gradient summation.

use vstd::prelude::*;

use crate::model::{
    add_ok, add_seq, bwd, bwd_ok, fill, fwd, lemma_wf_grad_update, matmul_seq, mul_seq, node_wf,
    transpose_seq, wf,
    with_grad, with_value, GraphM, Op,
};

verus! {

/// Whether node `j` is reachable from node `i` through child edges.
pub open spec fn reach(g: GraphM, i: int, j: int) -> bool
    decreases i,
{
    if 0 <= i < g.len() {
        j == i || (match g[i].op {
            Op::Leaf => false,
            Op::Add(x, y) => (x as int) < i && (y as int) < i && (reach(g, x as int, j) || reach(
                g,
                y as int,
                j,
            )),
            Op::Product(x, y) => (x as int) < i && (y as int) < i && (reach(g, x as int, j)
                || reach(g, y as int, j)),
            Op::Matmul(x, y) => (x as int) < i && (y as int) < i && (reach(g, x as int, j) || reach(
                g,
                y as int,
                j,
            )),
        })
    } else {
        false
    }
}

/// The graph holds no matrix-multiply node (the one operation whose forward
/// pass accumulates instead of overwriting).
pub open spec fn no_matmul(g: GraphM) -> bool {
    forall|i: int| 0 <= i < g.len() ==> !((#[trigger] g[i]).op matches Op::Matmul(_, _))
}

/// Pure bottom-up evaluation of node `i` from the current leaf values, for
/// graphs without matrix multiply.
pub open spec fn eval(g: GraphM, i: int) -> Seq<i64>
    decreases i,
{
    if 0 <= i < g.len() {
        match g[i].op {
            Op::Leaf => g[i].value,
            Op::Add(x, y) => {
                if (x as int) < i && (y as int) < i {
                    add_seq(eval(g, x as int), eval(g, y as int))
                } else {
                    g[i].value
                }
            },
            Op::Product(x, y) => {
                if (x as int) < i && (y as int) < i {
                    mul_seq(eval(g, x as int), eval(g, y as int))
                } else {
                    g[i].value
                }
            },
            Op::Matmul(x, y) => g[i].value,
        }
    } else {
        Seq::empty()
    }
}

/// In a well-formed graph the evaluation of a node fills its buffer.
proof fn lemma_eval_len(g: GraphM, i: int)
    requires
        wf(g),
        0 <= i < g.len(),
    ensures
        eval(g, i).len() == g[i].value.len(),
    decreases i,
{
    assert(node_wf(g, i));
    match g[i].op {
        Op::Leaf => {},
        Op::Add(x, y) => {
            lemma_eval_len(g, x as int);
            assert(node_wf(g, x as int));
        },
        Op::Product(x, y) => {
            lemma_eval_len(g, x as int);
            assert(node_wf(g, x as int));
        },
        Op::Matmul(x, y) => {},
    }
}

/// Evaluation depends only on the operations and the leaf values.
proof fn lemma_eval_stable(g: GraphM, h: GraphM, i: int)
    requires
        wf(g),
        no_matmul(g),
        g.len() == h.len(),
        forall|j: int| 0 <= j < g.len() ==> (#[trigger] h[j]).op == g[j].op,
        forall|j: int|
            0 <= j < g.len() && g[j].op == Op::Leaf ==> (#[trigger] h[j]).value == g[j].value,
        0 <= i < g.len(),
    ensures
        eval(h, i) == eval(g, i),
    decreases i,
{
    assert(node_wf(g, i));
    match g[i].op {
        Op::Leaf => {
            assert(h[i].value == g[i].value);
        },
        Op::Add(x, y) => {
            lemma_eval_stable(g, h, x as int);
            lemma_eval_stable(g, h, y as int);
            assert(h[i].op == g[i].op);
        },
        Op::Product(x, y) => {
            lemma_eval_stable(g, h, x as int);
            lemma_eval_stable(g, h, y as int);
            assert(h[i].op == g[i].op);
        },
        Op::Matmul(x, y) => {
            assert(!(g[i].op matches Op::Matmul(_, _)));
            assert(false);
        },
    }
}

/// Reachability depends only on the operations.
proof fn lemma_reach_stable(g: GraphM, h: GraphM, i: int, j: int)
    requires
        g.len() == h.len(),
        forall|q: int| 0 <= q < g.len() ==> (#[trigger] h[q]).op == g[q].op,
        0 <= i < g.len(),
    ensures
        reach(h, i, j) == reach(g, i, j),
    decreases i,
{
    match g[i].op {
        Op::Leaf => {},
        Op::Add(x, y) => {
            if (x as int) < i && (y as int) < i {
                lemma_reach_stable(g, h, x as int, j);
                lemma_reach_stable(g, h, y as int, j);
            }
        },
        Op::Product(x, y) => {
            if (x as int) < i && (y as int) < i {
                lemma_reach_stable(g, h, x as int, j);
                lemma_reach_stable(g, h, y as int, j);
            }
        },
        Op::Matmul(x, y) => {
            if (x as int) < i && (y as int) < i {
                lemma_reach_stable(g, h, x as int, j);
                lemma_reach_stable(g, h, y as int, j);
            }
        },
    }
}

/// What a forward pass computes on a graph without matrix multiply: every
/// non-leaf node reachable from the start holds its pure evaluation from the
/// current leaf values; every other buffer, every gradient and the whole
/// structure are untouched.
proof fn lemma_fwd_eval(g: GraphM, i: int)
    requires
        wf(g),
        no_matmul(g),
        0 <= i < g.len(),
    ensures
        fwd(g, i).len() == g.len(),
        forall|j: int| 0 <= j < g.len() ==> (#[trigger] fwd(g, i)[j]).op == g[j].op,
        forall|j: int| 0 <= j < g.len() ==> (#[trigger] fwd(g, i)[j]).dim == g[j].dim,
        forall|j: int| 0 <= j < g.len() ==> (#[trigger] fwd(g, i)[j]).grad == g[j].grad,
        forall|j: int|
            0 <= j < g.len() ==> (#[trigger] fwd(g, i)[j]).value == (
            if reach(g, i, j) && g[j].op != Op::Leaf {
                eval(g, j)
            } else {
                g[j].value
            }),
    decreases i, 1int,
{
    assert(node_wf(g, i));
    match g[i].op {
        Op::Leaf => {
            assert(fwd(g, i) == g);
            assert forall|j: int| 0 <= j < g.len() implies !(reach(g, i, j) && g[j].op
                != Op::Leaf) by {
                if reach(g, i, j) {
                    assert(j == i);
                }
            }
        },
        Op::Matmul(x, y) => {
            assert(!(g[i].op matches Op::Matmul(_, _)));
            assert(false);
        },
        Op::Add(x, y) => {
            lemma_fwd_eval_op(g, i, x, y);
        },
        Op::Product(x, y) => {
            lemma_fwd_eval_op(g, i, x, y);
        },
    }
}

/// The operation-node case of `lemma_fwd_eval`, shared by Add and Product.
proof fn lemma_fwd_eval_op(g: GraphM, i: int, x: usize, y: usize)
    requires
        wf(g),
        no_matmul(g),
        0 <= i < g.len(),
        g[i].op == Op::Add(x, y) || g[i].op == Op::Product(x, y),
        (x as int) < i,
        (y as int) < i,
    ensures
        fwd(g, i).len() == g.len(),
        forall|j: int| 0 <= j < g.len() ==> (#[trigger] fwd(g, i)[j]).op == g[j].op,
        forall|j: int| 0 <= j < g.len() ==> (#[trigger] fwd(g, i)[j]).dim == g[j].dim,
        forall|j: int| 0 <= j < g.len() ==> (#[trigger] fwd(g, i)[j]).grad == g[j].grad,
        forall|j: int|
            0 <= j < g.len() ==> (#[trigger] fwd(g, i)[j]).value == (
            if reach(g, i, j) && g[j].op != Op::Leaf {
                eval(g, j)
            } else {
                g[j].value
            }),
    decreases i, 0int,
{
    let xi = x as int;
    let yi = y as int;
    assert(node_wf(g, i));
    lemma_fwd_eval(g, xi);
    let g1 = fwd(g, xi);
    assert forall|j: int| 0 <= j < g1.len() implies node_wf(g1, j) by {
        assert(node_wf(g, j));
        if reach(g, xi, j) && g[j].op != Op::Leaf {
            lemma_eval_len(g, j);
        }
    }
    assert(no_matmul(g1));
    lemma_fwd_eval(g1, yi);
    let g2 = fwd(g1, yi);
    assert forall|j: int| 0 <= j < g.len() implies eval(g1, j) == eval(g, j) by {
        lemma_eval_stable(g, g1, j);
    }
    assert forall|j: int| 0 <= j < g.len() implies reach(g1, yi, j) == reach(g, yi, j) by {
        lemma_reach_stable(g, g1, yi, j);
    }
    // Both children hold their pure evaluation after the two child passes.
    assert(reach(g, xi, xi));
    assert(reach(g1, yi, yi));
    assert(g2[xi].value == eval(g, xi));
    assert(g2[yi].value == eval(g, yi));
    let v = if g[i].op == Op::Add(x, y) {
        add_seq(g2[xi].value, g2[yi].value)
    } else {
        mul_seq(g2[xi].value, g2[yi].value)
    };
    let h = with_value(g2, i, v);
    if g[i].op == Op::Add(x, y) {
        assert(fwd(g, i) == with_value(g2, i, add_seq(g2[xi].value, g2[yi].value)));
        assert(eval(g, i) == add_seq(eval(g, xi), eval(g, yi)));
    } else {
        assert(fwd(g, i) == with_value(g2, i, mul_seq(g2[xi].value, g2[yi].value)));
        assert(eval(g, i) == mul_seq(eval(g, xi), eval(g, yi)));
    }
    assert(fwd(g, i) == h);
    assert(h[i].value == eval(g, i));
    assert(reach(g, i, i));
    assert forall|j: int| 0 <= j < g.len() implies (#[trigger] h[j]).value == (
    if reach(g, i, j) && g[j].op != Op::Leaf {
        eval(g, j)
    } else {
        g[j].value
    }) by {
        if j == i {
        } else {
            assert(h[j] == g2[j]);
            assert(reach(g, i, j) == (reach(g, xi, j) || reach(g, yi, j)));
            if reach(g, yi, j) && g[j].op != Op::Leaf {
                assert(g2[j].value == eval(g1, j));
            } else if reach(g, xi, j) && g[j].op != Op::Leaf {
                assert(g2[j].value == g1[j].value);
                assert(g1[j].value == eval(g, j));
            } else {
                assert(g2[j].value == g1[j].value);
                assert(g1[j].value == g[j].value);
            }
        }
    }
}

/// Law: the forward pass is idempotent on graphs without matrix multiply —
/// with unchanged leaf values a repeated `forward` recomputes exactly the
/// same state, value for value.
pub proof fn lemma_forward_idempotent(g: GraphM, r: int)
    requires
        wf(g),
        no_matmul(g),
        0 <= r < g.len(),
    ensures
        fwd(fwd(g, r), r) == fwd(g, r),
{
    lemma_fwd_eval(g, r);
    let h = fwd(g, r);
    assert forall|j: int| 0 <= j < h.len() implies node_wf(h, j) by {
        assert(node_wf(g, j));
        if reach(g, r, j) && g[j].op != Op::Leaf {
            lemma_eval_len(g, j);
        }
    }
    assert(no_matmul(h));
    lemma_fwd_eval(h, r);
    assert forall|j: int| 0 <= j < g.len() implies eval(h, j) == eval(g, j) by {
        lemma_eval_stable(g, h, j);
    }
    assert forall|j: int| 0 <= j < g.len() implies reach(h, r, j) == reach(g, r, j) by {
        lemma_reach_stable(g, h, r, j);
    }
    assert forall|j: int| 0 <= j < g.len() implies fwd(h, r)[j] == h[j] by {
        assert(fwd(h, r)[j].value == h[j].value);
        assert(fwd(h, r)[j] =~= h[j]);
    }
    assert(fwd(h, r) =~= h);
}

/// Law: adding two uniform leaves, of any shape, gives a uniform sum, and one
/// seeded backward pass gives every element of both leaf gradients the value
/// one — the derivative of a sum with respect to either addend is the
/// identity.
pub proof fn lemma_add_uniform(g: GraphM)
    requires
        wf(g),
        g.len() == 3,
        g[0].op == Op::Leaf,
        g[1].op == Op::Leaf,
        g[2].op == Op::Add(0, 1),
        forall|p: int| 0 <= p < g[0].value.len() ==> g[0].value[p] == 10,
        forall|p: int| 0 <= p < g[1].value.len() ==> g[1].value[p] == 5,
        forall|p: int| 0 <= p < g[0].grad.len() ==> g[0].grad[p] == 0,
        forall|p: int| 0 <= p < g[1].grad.len() ==> g[1].grad[p] == 0,
    ensures
        ({
            let h = bwd(with_grad(fwd(g, 2), 2, fill(g[2].grad.len(), 1)), 2);
            &&& h[2].value.len() == g[2].value.len()
            &&& h[0].grad.len() == g[0].grad.len()
            &&& h[1].grad.len() == g[1].grad.len()
            &&& forall|p: int| 0 <= p < h[2].value.len() ==> h[2].value[p] == 15
            &&& forall|p: int| 0 <= p < h[0].grad.len() ==> h[0].grad[p] == 1
            &&& forall|p: int| 0 <= p < h[1].grad.len() ==> h[1].grad[p] == 1
        }),
{
    assert(node_wf(g, 0));
    assert(node_wf(g, 1));
    assert(node_wf(g, 2));
    assert(fwd(g, 0) == g);
    assert(fwd(g, 1) == g);
    let f = with_value(g, 2, add_seq(g[0].value, g[1].value));
    assert(fwd(g, 2) == f);
    let s = with_grad(f, 2, fill(g[2].grad.len(), 1));
    let b1 = with_grad(s, 0, add_seq(s[0].grad, s[2].grad));
    let b2 = with_grad(b1, 1, add_seq(b1[1].grad, s[2].grad));
    assert(bwd(b2, 0) == b2);
    assert(bwd(b2, 1) == b2);
    assert(bwd(s, 2) == b2);
}

/// Law: the elementwise product of two uniform leaves is uniform, and one
/// seeded backward pass gives each leaf the other leaf's value as gradient —
/// the product rule.
pub proof fn lemma_product_uniform(g: GraphM)
    requires
        wf(g),
        g.len() == 3,
        g[0].op == Op::Leaf,
        g[1].op == Op::Leaf,
        g[2].op == Op::Product(0, 1),
        forall|p: int| 0 <= p < g[0].value.len() ==> g[0].value[p] == 2,
        forall|p: int| 0 <= p < g[1].value.len() ==> g[1].value[p] == 5,
        forall|p: int| 0 <= p < g[0].grad.len() ==> g[0].grad[p] == 0,
        forall|p: int| 0 <= p < g[1].grad.len() ==> g[1].grad[p] == 0,
    ensures
        ({
            let h = bwd(with_grad(fwd(g, 2), 2, fill(g[2].grad.len(), 1)), 2);
            &&& h[2].value.len() == g[2].value.len()
            &&& h[0].grad.len() == g[0].grad.len()
            &&& h[1].grad.len() == g[1].grad.len()
            &&& forall|p: int| 0 <= p < h[2].value.len() ==> h[2].value[p] == 10
            &&& forall|p: int| 0 <= p < h[0].grad.len() ==> h[0].grad[p] == 5
            &&& forall|p: int| 0 <= p < h[1].grad.len() ==> h[1].grad[p] == 2
        }),
{
    assert(node_wf(g, 0));
    assert(node_wf(g, 1));
    assert(node_wf(g, 2));
    assert(fwd(g, 0) == g);
    assert(fwd(g, 1) == g);
    let f = with_value(g, 2, mul_seq(g[0].value, g[1].value));
    assert(fwd(g, 2) == f);
    let s = with_grad(f, 2, fill(g[2].grad.len(), 1));
    let b1 = with_grad(s, 0, add_seq(s[0].grad, mul_seq(s[2].grad, s[1].value)));
    let b2 = with_grad(b1, 1, add_seq(b1[1].grad, mul_seq(s[2].grad, s[0].value)));
    assert(bwd(b2, 0) == b2);
    assert(bwd(b2, 1) == b2);
    assert(bwd(s, 2) == b2);
}

/// Law: backward passes accumulate.  On a single-operation graph whose leaf
/// gradients start at zero, a second backward pass without an intervening
/// reset doubles both leaf gradients, whatever the operation; the root's own
/// gradient stays untouched.  This is expected batching behaviour, not a
/// defect.
pub proof fn lemma_backward_accumulates(g: GraphM)
    requires
        wf(g),
        g.len() == 3,
        g[0].op == Op::Leaf,
        g[1].op == Op::Leaf,
        g[2].op == Op::Add(0, 1) || g[2].op == Op::Product(0, 1) || g[2].op == Op::Matmul(0, 1),
        forall|p: int| 0 <= p < g[0].grad.len() ==> g[0].grad[p] == 0,
        forall|p: int| 0 <= p < g[1].grad.len() ==> g[1].grad[p] == 0,
        bwd_ok(g, 2),
        bwd_ok(bwd(g, 2), 2),
    ensures
        ({
            let h1 = bwd(g, 2);
            let h2 = bwd(h1, 2);
            &&& h1[0].grad.len() == g[0].grad.len()
            &&& h1[1].grad.len() == g[1].grad.len()
            &&& h2[0].grad.len() == g[0].grad.len()
            &&& h2[1].grad.len() == g[1].grad.len()
            &&& forall|p: int| 0 <= p < g[0].grad.len() ==> h2[0].grad[p] == 2 * h1[0].grad[p]
            &&& forall|p: int| 0 <= p < g[1].grad.len() ==> h2[1].grad[p] == 2 * h1[1].grad[p]
            &&& h2[2].grad == g[2].grad
        }),
{
    assert(node_wf(g, 0));
    assert(node_wf(g, 1));
    assert(node_wf(g, 2));
    let h1 = bwd(g, 2);
    let h2 = bwd(h1, 2);
    let c0 = bwd_contrib_x(g);
    let c1 = bwd_contrib_y(g);
    lemma_bwd_single_op(g);
    assert(add_seq(g[0].grad, c0).len() == g[0].grad.len());
    lemma_wf_grad_update(g, 0, add_seq(g[0].grad, c0));
    let w1 = with_grad(g, 0, add_seq(g[0].grad, c0));
    assert(w1[1].grad == g[1].grad);
    lemma_wf_grad_update(w1, 1, add_seq(g[1].grad, c1));
    assert(wf(h1));
    assert(node_wf(h1, 2));
    lemma_bwd_single_op(h1);
    assert(bwd_contrib_x(h1) == c0);
    assert(bwd_contrib_y(h1) == c1);
    assert forall|p: int| 0 <= p < g[0].grad.len() implies h2[0].grad[p] == 2 * h1[0].grad[p] by {
        assert(h1[0].grad[p] == (g[0].grad[p] + c0[p]) as i64);
        assert(h2[0].grad[p] == (h1[0].grad[p] + c0[p]) as i64);
    }
    assert forall|p: int| 0 <= p < g[1].grad.len() implies h2[1].grad[p] == 2 * h1[1].grad[p] by {
        assert(h1[1].grad[p] == (g[1].grad[p] + c1[p]) as i64);
        assert(h2[1].grad[p] == (h1[1].grad[p] + c1[p]) as i64);
    }
}

/// The contribution one backward step of a single-operation root adds into
/// its first child's gradient.
spec fn bwd_contrib_x(g: GraphM) -> Seq<i64> {
    match g[2].op {
        Op::Leaf => Seq::empty(),
        Op::Add(x, y) => g[2].grad,
        Op::Product(x, y) => mul_seq(g[2].grad, g[1].value),
        Op::Matmul(x, y) => {
            let m = g[0].dim[0] as int;
            let k = g[0].dim[1] as int;
            let n = g[1].dim[1] as int;
            matmul_seq(g[2].grad, transpose_seq(g[1].value, k, n), m, n, k)
        },
    }
}

/// The contribution one backward step of a single-operation root adds into
/// its second child's gradient.
spec fn bwd_contrib_y(g: GraphM) -> Seq<i64> {
    match g[2].op {
        Op::Leaf => Seq::empty(),
        Op::Add(x, y) => g[2].grad,
        Op::Product(x, y) => mul_seq(g[2].grad, g[0].value),
        Op::Matmul(x, y) => {
            let m = g[0].dim[0] as int;
            let k = g[0].dim[1] as int;
            let n = g[1].dim[1] as int;
            matmul_seq(transpose_seq(g[0].value, m, k), g[2].grad, k, m, n)
        },
    }
}

/// One backward pass over a single-operation graph adds the two
/// contributions into the leaf gradients and changes nothing else.
proof fn lemma_bwd_single_op(g: GraphM)
    requires
        wf(g),
        g.len() == 3,
        g[0].op == Op::Leaf,
        g[1].op == Op::Leaf,
        g[2].op == Op::Add(0, 1) || g[2].op == Op::Product(0, 1) || g[2].op == Op::Matmul(0, 1),
    ensures
        ({
            let h = bwd(g, 2);
            &&& h == with_grad(
                with_grad(g, 0, add_seq(g[0].grad, bwd_contrib_x(g))),
                1,
                add_seq(g[1].grad, bwd_contrib_y(g)),
            )
            &&& h[0].grad == add_seq(g[0].grad, bwd_contrib_x(g))
            &&& h[1].grad == add_seq(g[1].grad, bwd_contrib_y(g))
            &&& h[2] == g[2]
            &&& h[0].value == g[0].value
            &&& h[1].value == g[1].value
            &&& h.len() == 3
        }),
{
    let g1 = with_grad(g, 0, add_seq(g[0].grad, bwd_contrib_x(g)));
    assert(g1[1].grad == g[1].grad);
    let g2 = with_grad(g1, 1, add_seq(g1[1].grad, bwd_contrib_y(g)));
    assert(bwd(g2, 0) == g2);
    assert(bwd(g2, 1) == g2);
    if g[2].op == Op::Add(0, 1) {
        assert(bwd(g, 2) == g2);
    } else if g[2].op == Op::Product(0, 1) {
        assert(bwd(g, 2) == g2);
    } else {
        assert(bwd(g, 2) == g2);
    }
    assert(g1[1].grad == g[1].grad);
}

/// Law: diamond-path gradients.  A leaf feeding two distinct parents of a
/// common root receives, in one backward pass, the sum of both paths'
/// contributions — here one root gradient per path.
pub proof fn lemma_diamond_paths(g: GraphM)
    requires
        wf(g),
        g.len() == 6,
        g[0].op == Op::Leaf,
        g[1].op == Op::Leaf,
        g[2].op == Op::Leaf,
        g[3].op == Op::Add(0, 1),
        g[4].op == Op::Add(0, 2),
        g[5].op == Op::Add(3, 4),
        forall|p: int| 0 <= p < g[0].grad.len() ==> g[0].grad[p] == 0,
        forall|p: int| 0 <= p < g[3].grad.len() ==> g[3].grad[p] == 0,
        forall|p: int| 0 <= p < g[4].grad.len() ==> g[4].grad[p] == 0,
        bwd_ok(g, 5),
    ensures
        ({
            let h = bwd(g, 5);
            &&& h[0].grad.len() == g[0].grad.len()
            &&& forall|p: int|
                0 <= p < g[0].grad.len() ==> h[0].grad[p] == g[5].grad[p] + g[5].grad[p]
        }),
{
    assert(node_wf(g, 0));
    assert(node_wf(g, 3));
    assert(node_wf(g, 4));
    assert(node_wf(g, 5));
    let d1 = with_grad(g, 3, add_seq(g[3].grad, g[5].grad));
    let d2 = with_grad(d1, 4, add_seq(d1[4].grad, g[5].grad));
    let e1 = with_grad(d2, 0, add_seq(d2[0].grad, d2[3].grad));
    let e2 = with_grad(e1, 1, add_seq(e1[1].grad, d2[3].grad));
    assert(bwd(e2, 0) == e2);
    assert(bwd(e2, 1) == e2);
    assert(bwd(d2, 3) == e2);
    let f1 = with_grad(e2, 0, add_seq(e2[0].grad, e2[4].grad));
    let f2 = with_grad(f1, 2, add_seq(f1[2].grad, e2[4].grad));
    assert(bwd(f2, 0) == f2);
    assert(bwd(f2, 2) == f2);
    assert(bwd(e2, 4) == f2);
    assert(bwd(g, 5) == f2);
    assert(add_ok(g[3].grad, g[5].grad));
    assert(add_ok(d1[4].grad, g[5].grad));
    assert(bwd_ok(d2, 3));
    assert(add_ok(d2[0].grad, d2[3].grad));
    assert(bwd_ok(e2, 4));
    assert(add_ok(e2[0].grad, e2[4].grad));
    assert forall|p: int| 0 <= p < g[0].grad.len() implies f2[0].grad[p] == g[5].grad[p]
        + g[5].grad[p] by {
        assert(d2[3].grad[p] == (0 + g[5].grad[p]) as i64);
        assert(e2[0].grad[p] == (0 + d2[3].grad[p]) as i64);
        assert(e2[4].grad[p] == (0 + g[5].grad[p]) as i64);
        assert(f2[0].grad[p] == (e2[0].grad[p] + e2[4].grad[p]) as i64);
    }
}

} // verus!

//! Graph construction: leaves and the three operation nodes.
//!
//! Each constructor validates the operand shapes at the API boundary and
//! appends one node owning a freshly zeroed output buffer; shape consistency
//! is established here once and never re-validated by the traversal.

use vstd::prelude::*;

use crate::model::{fill, lemma_wf_push, node_wf, prod, prod_nonzero, wf, NodeM, Op};
use crate::node::{copy_dims, eq_dims, Graph, GraphError, Node};
use crate::tensor::{tensor_wf, Tensor};

verus! {

impl Graph {
    /// Install a buffer as a leaf node (a model input or parameter) and hand
    /// back its handle.
    pub fn leaf(&mut self, t: Tensor) -> (id: usize)
        requires
            wf(old(self)@),
            tensor_wf(t),
        ensures
            wf(final(self)@),
            id == old(self)@.len(),
            final(self)@ == old(self)@.push(
                NodeM { op: Op::Leaf, dim: t.dim@, value: t.input@, grad: t.grad@ },
            ),
    {
        let ghost g0 = self@;
        let ghost m = NodeM { op: Op::Leaf, dim: t.dim@, value: t.input@, grad: t.grad@ };
        let id = self.push_node(Node { op: Op::Leaf, z: t });
        proof {
            assert(node_wf(g0.push(m), g0.len() as int));
            lemma_wf_push(g0, m);
        }
        id
    }

    /// Compose an elementwise-add node over two existing nodes.  The operand
    /// shapes must agree; the output buffer takes that shape and starts at
    /// zero.
    pub fn add(&mut self, x: usize, y: usize) -> (r: Result<usize, GraphError>)
        requires
            wf(old(self)@),
            x < old(self)@.len(),
            y < old(self)@.len(),
        ensures
            wf(final(self)@),
            old(self)@[x as int].dim == old(self)@[y as int].dim ==> r == Ok::<
                usize,
                GraphError,
            >((old(self)@.len() as usize)) && final(self)@ == old(self)@.push(
                NodeM {
                    op: Op::Add(x, y),
                    dim: old(self)@[x as int].dim,
                    value: fill(old(self)@[x as int].value.len(), 0),
                    grad: fill(old(self)@[x as int].value.len(), 0),
                },
            ),
            old(self)@[x as int].dim != old(self)@[y as int].dim ==> r == Err::<
                usize,
                GraphError,
            >(GraphError::ShapeMismatch) && final(self)@ == old(self)@,
    {
        proof {
            assert(node_wf(self@, x as int));
            assert(node_wf(self@, y as int));
        }
        if !eq_dims(&self.nodes[x].z.dim, &self.nodes[y].z.dim) {
            return Err(GraphError::ShapeMismatch);
        }
        let dim = copy_dims(&self.nodes[x].z.dim);
        let t = Tensor::new(dim);
        let ghost g0 = self@;
        let ghost m = NodeM { op: Op::Add(x, y), dim: t.dim@, value: t.input@, grad: t.grad@ };
        let id = self.push_node(Node { op: Op::Add(x, y), z: t });
        proof {
            assert(node_wf(g0.push(m), g0.len() as int));
            lemma_wf_push(g0, m);
        }
        Ok(id)
    }

    /// Compose an elementwise-product (Hadamard) node over two existing
    /// nodes.  The operand shapes must agree; the output buffer takes that
    /// shape and starts at zero.
    pub fn product(&mut self, x: usize, y: usize) -> (r: Result<usize, GraphError>)
        requires
            wf(old(self)@),
            x < old(self)@.len(),
            y < old(self)@.len(),
        ensures
            wf(final(self)@),
            old(self)@[x as int].dim == old(self)@[y as int].dim ==> r == Ok::<
                usize,
                GraphError,
            >((old(self)@.len() as usize)) && final(self)@ == old(self)@.push(
                NodeM {
                    op: Op::Product(x, y),
                    dim: old(self)@[x as int].dim,
                    value: fill(old(self)@[x as int].value.len(), 0),
                    grad: fill(old(self)@[x as int].value.len(), 0),
                },
            ),
            old(self)@[x as int].dim != old(self)@[y as int].dim ==> r == Err::<
                usize,
                GraphError,
            >(GraphError::ShapeMismatch) && final(self)@ == old(self)@,
    {
        proof {
            assert(node_wf(self@, x as int));
            assert(node_wf(self@, y as int));
        }
        if !eq_dims(&self.nodes[x].z.dim, &self.nodes[y].z.dim) {
            return Err(GraphError::ShapeMismatch);
        }
        let dim = copy_dims(&self.nodes[x].z.dim);
        let t = Tensor::new(dim);
        let ghost g0 = self@;
        let ghost m = NodeM { op: Op::Product(x, y), dim: t.dim@, value: t.input@, grad: t.grad@ };
        let id = self.push_node(Node { op: Op::Product(x, y), z: t });
        proof {
            assert(node_wf(g0.push(m), g0.len() as int));
            lemma_wf_push(g0, m);
        }
        Ok(id)
    }

    /// Compose a matrix-multiply node over two existing two-dimensional
    /// nodes.  The output shape is supplied explicitly, never inferred: it
    /// must be exactly the rows of `x` by the columns of `y`, and the inner
    /// dimensions must agree.  The output buffer starts at zero; the forward
    /// pass accumulates into it.
    pub fn matmul(&mut self, x: usize, y: usize, dim: Vec<usize>) -> (r: Result<usize, GraphError>)
        requires
            wf(old(self)@),
            x < old(self)@.len(),
            y < old(self)@.len(),
            prod_nonzero(dim@) * 8 <= isize::MAX,
        ensures
            wf(final(self)@),
            ({
                let g = old(self)@;
                let xd = g[x as int].dim;
                let yd = g[y as int].dim;
                if xd.len() != 2 || yd.len() != 2 || dim@.len() != 2 {
                    &&& r == Err::<usize, GraphError>(GraphError::DimensionalityMismatch)
                    &&& final(self)@ == g
                } else if xd[1] != yd[0] || dim@[0] != xd[0] || dim@[1] != yd[1] {
                    &&& r == Err::<usize, GraphError>(GraphError::ShapeMismatch)
                    &&& final(self)@ == g
                } else {
                    &&& r == Ok::<usize, GraphError>((g.len() as usize))
                    &&& final(self)@ == g.push(
                        NodeM {
                            op: Op::Matmul(x, y),
                            dim: dim@,
                            value: fill((prod(dim@)) as nat, 0),
                            grad: fill((prod(dim@)) as nat, 0),
                        },
                    )
                }
            }),
    {
        proof {
            assert(node_wf(self@, x as int));
            assert(node_wf(self@, y as int));
        }
        if self.nodes[x].z.dim.len() != 2 || self.nodes[y].z.dim.len() != 2 || dim.len() != 2 {
            return Err(GraphError::DimensionalityMismatch);
        }
        if self.nodes[x].z.dim[1] != self.nodes[y].z.dim[0] || dim[0] != self.nodes[x].z.dim[0]
            || dim[1] != self.nodes[y].z.dim[1] {
            return Err(GraphError::ShapeMismatch);
        }
        let t = Tensor::new(dim);
        let ghost g0 = self@;
        let ghost m = NodeM { op: Op::Matmul(x, y), dim: t.dim@, value: t.input@, grad: t.grad@ };
        let id = self.push_node(Node { op: Op::Matmul(x, y), z: t });
        proof {
            assert(node_wf(g0.push(m), g0.len() as int));
            lemma_wf_push(g0, m);
        }
        Ok(id)
    }
}

} // verus!

//! The buffer a node owns: one value array and one gradient array of the same
//! shape.

use vstd::prelude::*;

use crate::linalg::nd_zeros;
use crate::model::{fill, prod, prod_nonzero};

verus! {

/// A pair of dense row-major arrays (value and gradient) sharing one shape.
/// Shape consistency is a constructor guarantee that every engine operation
/// preserves.
pub struct Tensor {
    pub input: Vec<i64>,
    pub grad: Vec<i64>,
    pub dim: Vec<usize>,
}

/// Both arrays hold exactly one element per point of the shape, and the
/// shape passes the array allocator's size check, which bounds the product of
/// the non-zero axis lengths.
pub open spec fn tensor_wf(t: Tensor) -> bool {
    &&& t.input@.len() == prod(t.dim@)
    &&& t.grad@.len() == prod(t.dim@)
    &&& prod_nonzero(t.dim@) * 8 <= isize::MAX
}

impl Tensor {
    /// A zero-filled value array and a zero-filled gradient array of the
    /// given shape.
    pub fn new(dim: Vec<usize>) -> (t: Tensor)
        requires
            prod_nonzero(dim@) * 8 <= isize::MAX,
        ensures
            tensor_wf(t),
            t.dim@ == dim@,
            t.input@ == fill((prod(dim@)) as nat, 0),
            t.grad@ == fill((prod(dim@)) as nat, 0),
    {
        proof {
            crate::model::lemma_prod_nonneg(dim@);
        }
        let input = nd_zeros(&dim);
        let grad = nd_zeros(&dim);
        Tensor { input, grad, dim }
    }
}

} // verus!

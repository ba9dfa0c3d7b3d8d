//! A reverse-mode automatic-differentiation engine over dense integer
//! tensors.
//!
//! A computation graph is an arena of nodes, each owning one output buffer
//! (a [`tensor::Tensor`]): leaves wrap writable buffers, operation nodes
//! (elementwise add, elementwise product, matrix multiply) refer to two
//! earlier nodes.  A forward pass recomputes every reachable value bottom-up;
//! after seeding the root gradient with ones, a backward pass accumulates
//! chain-rule contributions into the child gradients top-down, one
//! contribution per parent-to-child path.  The numeric array kernels are
//! delegated to `ndarray`; everything the engine decides — shapes, traversal
//! order, accumulation — is specified against the ghost model in [`model`]
//! and verified.

use vstd::prelude::*;

pub mod function;
pub mod laws;
pub mod linalg;
pub mod model;
pub mod node;
pub mod tensor;

verus! {

/// The scalar element type the engine's dense buffers hold: a plain copyable
/// machine number.  The engine fixes it to `i64`, whose arithmetic is exact
/// wherever the traversal contracts rule out overflow, so gradients can be
/// stated and proved value for value.
pub trait Float: core::marker::Copy {

}

impl Float for i64 {

}

} // verus!

//! The array-math collaborator: thin trusted wrappers around `ndarray`.
//!
//! Each wrapper makes exactly one `ndarray` call on plain row-major data and
//! states what the call computes.  The preconditions rule out the inputs on
//! which `ndarray`'s integer arithmetic would overflow (and hence panic in a
//! debug build) and on which its shape checks would panic.

use vstd::prelude::*;

use crate::model::{fill, fits, mat_entry, matmul_ok, matmul_seq, prod, prod_nonzero};

verus! {

/// Relies on `ndarray::ArrayD::zeros`: a dense array of the given shape holds
/// `prod(dim)` elements, every one zero.  `ndarray`'s size check panics when
/// the product of the non-zero axis lengths exceeds `isize::MAX`, so the
/// precondition bounds that product (which also keeps the buffer itself
/// within `isize::MAX` bytes, since `prod` never exceeds it).
#[verifier::external_body]
pub(crate) fn nd_zeros(dim: &Vec<usize>) -> (r: Vec<i64>)
    requires
        prod_nonzero(dim@) * 8 <= isize::MAX,
    ensures
        r@ == fill((prod(dim@)) as nat, 0),
{
    ndarray::ArrayD::<i64>::zeros(ndarray::IxDyn(dim.as_slice())).into_raw_vec_and_offset().0
}

/// Relies on `ndarray::ArrayD::ones`: a dense array of the given shape holds
/// `prod(dim)` elements, every one equal to one.  The size bound is the one
/// `ndarray` checks: the product of the non-zero axis lengths.
#[verifier::external_body]
pub(crate) fn nd_ones(dim: &Vec<usize>) -> (r: Vec<i64>)
    requires
        prod_nonzero(dim@) * 8 <= isize::MAX,
    ensures
        r@ == fill((prod(dim@)) as nat, 1),
{
    ndarray::ArrayD::<i64>::ones(ndarray::IxDyn(dim.as_slice())).into_raw_vec_and_offset().0
}

/// Relies on `ndarray`'s elementwise `+` of two owned one-dimensional arrays
/// of equal length: the pointwise sum.
#[verifier::external_body]
pub(crate) fn nd_add(a: &Vec<i64>, b: &Vec<i64>) -> (r: Vec<i64>)
    requires
        a@.len() == b@.len(),
        forall|p: int| 0 <= p < a@.len() ==> fits(a@[p] + b@[p]),
    ensures
        r@.len() == a@.len(),
        forall|p: int| 0 <= p < r@.len() ==> r@[p] == a@[p] + b@[p],
{
    let x = ndarray::Array1::from_vec(a.clone());
    let y = ndarray::Array1::from_vec(b.clone());
    (x + y).into_raw_vec_and_offset().0
}

/// Relies on `ndarray`'s elementwise `*` of two owned one-dimensional arrays
/// of equal length: the pointwise product.
#[verifier::external_body]
pub(crate) fn nd_mul(a: &Vec<i64>, b: &Vec<i64>) -> (r: Vec<i64>)
    requires
        a@.len() == b@.len(),
        forall|p: int| 0 <= p < a@.len() ==> fits(a@[p] * b@[p]),
    ensures
        r@.len() == a@.len(),
        forall|p: int| 0 <= p < r@.len() ==> r@[p] == a@[p] * b@[p],
{
    let x = ndarray::Array1::from_vec(a.clone());
    let y = ndarray::Array1::from_vec(b.clone());
    (x * y).into_raw_vec_and_offset().0
}

/// Relies on `ndarray::linalg::general_mat_mul` with `alpha = 1` and
/// `beta = 0`: writes the plain matrix product of `x` (`m` by `k`) and `y`
/// (`k` by `n`) into a zeroed target.  For integer elements it accumulates
/// each entry left to right over the inner dimension, which `matmul_ok` keeps
/// free of overflow.  All three matrix shapes pass `ndarray`'s size check on
/// the product of their non-zero axis lengths, so each is bounded here.
#[verifier::external_body]
pub(crate) fn nd_matmul(x: &Vec<i64>, y: &Vec<i64>, m: usize, k: usize, n: usize) -> (r: Vec<i64>)
    requires
        x@.len() == m * k,
        y@.len() == k * n,
        prod_nonzero(seq![m, k]) * 8 <= isize::MAX,
        prod_nonzero(seq![k, n]) * 8 <= isize::MAX,
        prod_nonzero(seq![m, n]) * 8 <= isize::MAX,
        matmul_ok(x@, y@, m as int, k as int, n as int),
    ensures
        r@ == matmul_seq(x@, y@, m as int, k as int, n as int),
        forall|i: int, j: int|
            0 <= i < m && 0 <= j < n ==> r@[i * (n as int) + j] == #[trigger] mat_entry(
                x@,
                y@,
                k as int,
                n as int,
                i,
                j,
            ),
{
    let a = ndarray::Array2::from_shape_vec((m, k), x.clone()).unwrap();
    let b = ndarray::Array2::from_shape_vec((k, n), y.clone()).unwrap();
    let mut c = ndarray::Array2::<i64>::zeros((m, n));
    ndarray::linalg::general_mat_mul(1i64, &a, &b, 0i64, &mut c);
    c.into_raw_vec_and_offset().0
}

} // verus!

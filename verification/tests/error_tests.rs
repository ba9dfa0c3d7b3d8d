use autograd::node::{Graph, GraphError};
use autograd::tensor::Tensor;

#[test]
fn add_shape_mismatch() {
    let mut g = Graph::new();
    let x = g.leaf(Tensor::new(vec![2]));
    let y = g.leaf(Tensor::new(vec![3]));
    assert_eq!(g.add(x, y), Err(GraphError::ShapeMismatch));
    assert_eq!(g.product(x, y), Err(GraphError::ShapeMismatch));
}

#[test]
fn matmul_dimensionality_mismatch() {
    let mut g = Graph::new();
    let x = g.leaf(Tensor::new(vec![6]));
    let y = g.leaf(Tensor::new(vec![3, 5]));
    assert_eq!(g.matmul(x, y, vec![2, 5]), Err(GraphError::DimensionalityMismatch));
    let z = g.leaf(Tensor::new(vec![2, 3]));
    assert_eq!(g.matmul(z, y, vec![2, 5, 1]), Err(GraphError::DimensionalityMismatch));
}

#[test]
fn matmul_inner_dimension_mismatch() {
    let mut g = Graph::new();
    let x = g.leaf(Tensor::new(vec![2, 4]));
    let y = g.leaf(Tensor::new(vec![3, 5]));
    assert_eq!(g.matmul(x, y, vec![2, 5]), Err(GraphError::ShapeMismatch));
}

#[test]
fn matmul_declared_output_mismatch() {
    let mut g = Graph::new();
    let x = g.leaf(Tensor::new(vec![2, 3]));
    let y = g.leaf(Tensor::new(vec![3, 5]));
    assert_eq!(g.matmul(x, y, vec![5, 2]), Err(GraphError::ShapeMismatch));
    assert!(g.matmul(x, y, vec![2, 5]).is_ok());
}

#[test]
fn set_input_wrong_length() {
    let mut g = Graph::new();
    let x = g.leaf(Tensor::new(vec![3]));
    assert_eq!(g.set_input(x, vec![1, 2]), Err(GraphError::ShapeMismatch));
    assert_eq!(g.set_input(x, vec![1, 2, 3]), Ok(()));
    assert_eq!(g.get_input(x).as_slice(), [1, 2, 3]);
}

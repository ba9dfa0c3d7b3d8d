use autograd::node::Graph;
use autograd::tensor::Tensor;

#[test]
fn matmul_values() {
    let mut g = Graph::new();
    let x = g.leaf(Tensor::new(vec![1, 3]));
    let y = g.leaf(Tensor::new(vec![3, 5]));
    let z = g.matmul(x, y, vec![1, 5]).unwrap();
    g.set_input(x, vec![1, 2, 3]).unwrap();
    g.set_input(y, vec![1, 2, 3, 4, 5, 1, 2, 3, 4, 5, 1, 2, 3, 4, 5]).unwrap();
    g.forward(z);
    g.set_grad(z);
    g.backward(z);
    // z = x . y with row sums 1 + 2 + 3 = 6 against columns 1..5.
    assert_eq!(g.get_input(z).as_slice(), [6, 12, 18, 24, 30]);
    // x.grad = dz . y^T with dz all ones: each entry is a column sum 1+2+3+4+5.
    assert_eq!(g.get_grad(x).as_slice(), [15, 15, 15]);
    // y.grad = x^T . dz: row i repeats x[i].
    assert_eq!(g.get_grad(y).as_slice(), [1, 1, 1, 1, 1, 2, 2, 2, 2, 2, 3, 3, 3, 3, 3]);
}

#[test]
fn forward_idempotent() {
    let mut g = Graph::new();
    let x = g.leaf(Tensor::new(vec![4]));
    let y = g.leaf(Tensor::new(vec![4]));
    g.set_input(x, vec![3, -1, 7, 0]).unwrap();
    g.set_input(y, vec![2, 2, 2, 2]).unwrap();
    let p = g.product(x, y).unwrap();
    let z = g.add(p, x).unwrap();
    g.forward(z);
    let first = g.get_input(z).clone();
    g.forward(z);
    g.forward(z);
    assert_eq!(g.get_input(z), &first);
    assert_eq!(first.as_slice(), [9, -3, 21, 0]);
}

#[test]
fn matmul_forward_accumulates() {
    // The matrix-multiply forward adds into its existing output buffer, so a
    // second pass doubles it: documented behaviour, unlike Add and Product.
    let mut g = Graph::new();
    let x = g.leaf(Tensor::new(vec![1, 2]));
    let y = g.leaf(Tensor::new(vec![2, 1]));
    let z = g.matmul(x, y, vec![1, 1]).unwrap();
    g.set_input(x, vec![2, 3]).unwrap();
    g.set_input(y, vec![4, 5]).unwrap();
    g.forward(z);
    assert_eq!(g.get_input(z).as_slice(), [23]);
    g.forward(z);
    assert_eq!(g.get_input(z).as_slice(), [46]);
}

#[test]
fn backward_accumulates() {
    let mut g = Graph::new();
    let x = g.leaf(Tensor::new(vec![3]));
    let y = g.leaf(Tensor::new(vec![3]));
    g.set_input(x, vec![2, 4, 6]).unwrap();
    g.set_input(y, vec![5, 5, 5]).unwrap();
    let z = g.product(x, y).unwrap();
    g.forward(z);
    g.set_grad(z);
    g.backward(z);
    assert_eq!(g.get_grad(x).as_slice(), [5, 5, 5]);
    g.backward(z);
    assert_eq!(g.get_grad(x).as_slice(), [10, 10, 10]);
    assert_eq!(g.get_grad(y).as_slice(), [4, 8, 12]);
}

#[test]
fn zero_grad_resets_descendants() {
    let mut g = Graph::new();
    let x = g.leaf(Tensor::new(vec![2]));
    let y = g.leaf(Tensor::new(vec![2]));
    g.set_input(x, vec![1, 2]).unwrap();
    g.set_input(y, vec![3, 4]).unwrap();
    let p = g.product(x, y).unwrap();
    let z = g.add(p, y).unwrap();
    g.forward(z);
    g.set_grad(z);
    g.backward(z);
    assert_ne!(g.get_grad(x).as_slice(), [0, 0]);
    g.zero_grad(z);
    assert_eq!(g.get_grad(x).as_slice(), [0, 0]);
    assert_eq!(g.get_grad(y).as_slice(), [0, 0]);
    assert_eq!(g.get_grad(p).as_slice(), [0, 0]);
    assert_eq!(g.get_grad(z).as_slice(), [0, 0]);
}

#[test]
fn diamond_paths_sum() {
    // A leaf feeding two distinct parents of one root receives both paths'
    // contributions in a single backward pass.
    let mut g = Graph::new();
    let c = g.leaf(Tensor::new(vec![2]));
    let b1 = g.leaf(Tensor::new(vec![2]));
    let b2 = g.leaf(Tensor::new(vec![2]));
    g.set_input(c, vec![1, 1]).unwrap();
    let p1 = g.add(c, b1).unwrap();
    let p2 = g.add(c, b2).unwrap();
    let root = g.add(p1, p2).unwrap();
    g.forward(root);
    g.set_grad(root);
    g.backward(root);
    assert_eq!(g.get_grad(c).as_slice(), [2, 2]);
    assert_eq!(g.get_grad(b1).as_slice(), [1, 1]);
    assert_eq!(g.get_grad(b2).as_slice(), [1, 1]);
}

#[test]
fn fresh_buffers_start_at_zero() {
    let mut g = Graph::new();
    let x = g.leaf(Tensor::new(vec![2, 3]));
    assert_eq!(g.get_input(x).as_slice(), [0, 0, 0, 0, 0, 0]);
    assert_eq!(g.get_grad(x).as_slice(), [0, 0, 0, 0, 0, 0]);
    assert_eq!(g.shape(x).as_slice(), [2, 3]);
}

#[test]
fn scalar_shape_holds_one_element() {
    let mut g = Graph::new();
    let x = g.leaf(Tensor::new(vec![]));
    assert_eq!(g.get_input(x).len(), 1);
}

#[test]
fn empty_axis_holds_no_elements() {
    let mut g = Graph::new();
    let x = g.leaf(Tensor::new(vec![0]));
    let y = g.leaf(Tensor::new(vec![0]));
    let z = g.add(x, y).unwrap();
    g.forward(z);
    g.set_grad(z);
    g.backward(z);
    assert_eq!(g.get_input(z).len(), 0);
}

#[test]
fn zero_axis_matmul() {
    // A zero axis empties the buffers but the whole protocol still runs: the
    // product over an empty row set is empty, and the transposed backward
    // products over an inner dimension of zero are all zero.
    let mut g = Graph::new();
    let x = g.leaf(Tensor::new(vec![0, 5]));
    let y = g.leaf(Tensor::new(vec![5, 3]));
    let z = g.matmul(x, y, vec![0, 3]).unwrap();
    g.forward(z);
    g.set_grad(z);
    g.backward(z);
    assert_eq!(g.get_input(z).len(), 0);
    assert_eq!(g.get_grad(x).len(), 0);
    assert_eq!(g.get_grad(y).as_slice(), [0; 15]);
}

use autograd::node::Graph;
use autograd::tensor::Tensor;

#[test]
fn three_elem_test() {
    let mut g = Graph::new();
    let x = g.leaf(Tensor::new(vec![]));
    g.set_input(x, vec![3]).unwrap();

    // y = x * x + x
    let tmp = g.product(x, x).unwrap();
    let y = g.add(tmp, x).unwrap();

    g.zero_grad(y);
    g.set_grad(y);
    g.forward(y);
    g.backward(y);

    assert_eq!([12], g.get_input(y).as_slice());
    assert_eq!([7], g.get_grad(x).as_slice());
}

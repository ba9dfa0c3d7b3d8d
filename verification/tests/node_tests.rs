use autograd::node::Graph;
use autograd::tensor::Tensor;

#[test]
fn it_works() {
    assert_eq!(2 + 2, 4);
}

#[test]
fn add_test() {
    let mut g = Graph::new();
    let x = g.leaf(Tensor::new(vec![10]));
    let y = g.leaf(Tensor::new(vec![10]));
    g.set_input(x, vec![10i64; 10]).unwrap();
    g.set_input(y, vec![5i64; 10]).unwrap();
    let z = g.add(x, y).unwrap();
    g.forward(z);
    g.set_grad(z);
    g.backward(z);
    assert_eq!(g.get_input(z).as_slice(), [15i64; 10]);
    assert_eq!(g.get_grad(x).as_slice(), [1i64; 10]);
}

#[test]
fn product_test() {
    let mut g = Graph::new();
    let x = g.leaf(Tensor::new(vec![10]));
    let y = g.leaf(Tensor::new(vec![10]));
    let z = g.product(x, y).unwrap();
    g.set_input(x, vec![2i64; 10]).unwrap();
    g.set_input(y, vec![5i64; 10]).unwrap();
    g.forward(z);
    g.set_grad(z);
    g.backward(z);
    assert_eq!(g.get_input(z).as_slice(), [10i64; 10]);
    assert_eq!(g.get_grad(x).as_slice(), [5i64; 10]);
}

#[test]
fn matmul_test() {
    let mut g = Graph::new();
    let x = g.leaf(Tensor::new(vec![1, 3]));
    let y = g.leaf(Tensor::new(vec![3, 5]));
    let z = g.matmul(x, y, vec![1, 5]).unwrap();
    g.set_input(x, vec![1, 2, 3]).unwrap();
    g.set_input(y, vec![1, 2, 3, 4, 5, 1, 2, 3, 4, 5, 1, 2, 3, 4, 5]).unwrap();
    g.forward(z);
    g.set_grad(z);
    g.backward(z);
    println!("{:?}", g.get_input(z));
    println!("{:?}", g.get_grad(x));
}

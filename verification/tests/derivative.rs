//! The derivative rules of the backward pass and the gradient-descent step.
use rtensors::access::{AsViewMut, TensorAccess};
use rtensors::derivative::{
    accumulate_grad, local_gradient, Sgd,
    backwards_add_scalar, backwards_cos, backwards_cube, backwards_div, backwards_l1, backwards_matmul, backwards_mul,
    backwards_negate, backwards_sigmoid, backwards_sin, backwards_sqrt, backwards_square, backwards_sub,
    backwards_tanh, sgd_step,
};
use rtensors::error::TensorError;
use rtensors::grad::{GradContext, GradNode, NodeKey};
use rtensors::tensor::Tensor;
use rtensors::train::{backwards_into_leaves, Grad};

fn close(a: &[f64], b: &[f64]) {
    assert_eq!(a.len(), b.len());
    for (x, y) in a.iter().zip(b.iter()) {
        assert!((x - y).abs() < 1e-9, "{} vs {}", x, y);
    }
}

#[test]
fn sin_and_cos_gradients() {
    let x = Tensor::<f64>::from_buf(vec![0.0, 1.0, 2.0], vec![3]).unwrap();
    let u = Tensor::<f64>::from_buf(vec![1.0, 2.0, -1.0], vec![3]).unwrap();
    let g = backwards_sin(&x, &u);
    close(g.buffer(), &[1.0, 2.0 * 1.0f64.cos(), -(2.0f64.cos())]);
    let g = backwards_cos(&x, &u);
    close(g.buffer(), &[0.0, -2.0 * 1.0f64.sin(), 2.0f64.sin()]);
}

#[test]
fn polynomial_gradients() {
    let x = Tensor::<f64>::from_buf(vec![1.0, -2.0, 3.0, 0.5], vec![2, 2]).unwrap();
    let u = Tensor::<f64>::from_buf(vec![1.0, 1.0, 2.0, 4.0], vec![2, 2]).unwrap();
    assert_eq!(backwards_square(&x, &u).buffer(), &vec![2.0, -4.0, 12.0, 4.0]);
    assert_eq!(backwards_cube(&x, &u).buffer(), &vec![3.0, 12.0, 54.0, 3.0]);
    let y = Tensor::<f64>::from_buf(vec![1.0, 2.0, 4.0, 0.5], vec![2, 2]).unwrap();
    assert_eq!(backwards_sqrt(&y, &u).buffer(), &vec![0.5, 0.25, 0.25, 4.0]);
    assert_eq!(backwards_tanh(&y, &u).buffer(), &vec![0.0, -3.0, -30.0, 3.0]);
    assert_eq!(backwards_sigmoid(&y, &u).buffer(), &vec![0.0, -2.0, -24.0, 1.0]);
}

#[test]
fn negate_scalar_and_binary_gradients() {
    let u = Tensor::<f64>::from_buf(vec![1.0, -2.0], vec![2]).unwrap();
    assert_eq!(backwards_negate(&u).buffer(), &vec![-1.0, 2.0]);
    assert_eq!(backwards_add_scalar(&u).buffer(), &vec![1.0, -2.0]);
    let (l, r) = backwards_sub(&u);
    assert_eq!(l.buffer(), &vec![1.0, -2.0]);
    assert_eq!(r.buffer(), &vec![-1.0, 2.0]);
    let a = Tensor::<f64>::from_buf(vec![3.0, 5.0], vec![2]).unwrap();
    let b = Tensor::<f64>::from_buf(vec![2.0, 4.0], vec![2]).unwrap();
    let (ga, gb) = backwards_mul(&a, &b, &u);
    assert_eq!(ga.buffer(), &vec![2.0, -8.0]);
    assert_eq!(gb.buffer(), &vec![3.0, -10.0]);
    let q = Tensor::<f64>::from_buf(vec![0.5, 0.25], vec![2]).unwrap();
    let (ga, gb) = backwards_div(&a, &q, &u);
    assert_eq!(ga.buffer(), &vec![0.5, -0.5]);
    assert_eq!(gb.buffer(), &vec![-0.75, 0.625]);
    let m = Tensor::<f64>::from_buf(vec![1.0, -1.0], vec![2]).unwrap();
    let (gi, gt) = backwards_l1(&m, &u);
    assert_eq!(gi.buffer(), &vec![1.0, 2.0]);
    assert_eq!(gt.buffer(), &vec![-1.0, -2.0]);
}

#[test]
fn l1_gradient_of_a_mean_loss_spreads_its_scalar() {
    let m = Tensor::<f64>::from_buf(vec![0.25, -0.25, 0.25, 0.25], vec![2, 2]).unwrap();
    let u = Tensor::<f64>::from_buf(vec![2.0], vec![]).unwrap();
    let (gi, gt) = backwards_l1(&m, &u);
    assert_eq!(gi.shape(), &vec![2, 2]);
    assert_eq!(gi.buffer(), &vec![0.5, -0.5, 0.5, 0.5]);
    assert_eq!(gt.buffer(), &vec![-0.5, 0.5, -0.5, -0.5]);
}

#[test]
fn matmul_gradients() {
    let a = Tensor::<f64>::from_buf(vec![1.0, 2.0, 3.0, 4.0, 5.0, 6.0], vec![2, 3]).unwrap();
    let b = Tensor::<f64>::from_buf(vec![1.0, 0.0, 0.0, 1.0, 1.0, 1.0], vec![3, 2]).unwrap();
    let u = Tensor::<f64>::from_buf(vec![1.0, 1.0, 1.0, 1.0], vec![2, 2]).unwrap();
    let (ga, gb) = backwards_matmul(&a, &b, &u).unwrap();
    assert_eq!(ga.shape(), &vec![2, 3]);
    assert_eq!(ga.buffer(), &vec![1.0, 1.0, 2.0, 1.0, 1.0, 2.0]);
    assert_eq!(gb.shape(), &vec![3, 2]);
    assert_eq!(gb.buffer(), &vec![5.0, 5.0, 7.0, 7.0, 9.0, 9.0]);
    let c = Tensor::<f64>::from_buf(vec![1.0; 8], vec![2, 2, 2]).unwrap();
    assert!(matches!(backwards_matmul(&a, &c, &u), Err(TensorError::WrongDims(_))));
}

#[test]
fn sgd_step_moves_against_the_gradient() {
    let mut p = Tensor::<f64>::from_buf(vec![1.0, 2.0, 3.0], vec![3]).unwrap();
    let g = Tensor::<f64>::from_buf(vec![10.0, -10.0, 0.0], vec![3]).unwrap();
    {
        let mut v = p.view_mut();
        sgd_step(&mut v, &g, 0.5);
    }
    assert_eq!(p.buffer(), &vec![-4.0, 7.0, 3.0]);
}

#[test]
fn accumulate_grad_sums_arriving_gradients() {
    let u = Tensor::<f64>::from_buf(vec![1.0, 2.0], vec![2]).unwrap();
    let mut held: Option<Tensor<f64>> = None;
    accumulate_grad(&mut held, &u);
    assert_eq!(held.as_ref().unwrap().buffer(), &vec![1.0, 2.0]);
    accumulate_grad(&mut held, &u);
    assert_eq!(held.as_ref().unwrap().buffer(), &vec![2.0, 4.0]);
}

#[test]
fn backward_pass_with_the_derivative_rules() {
    let a = Tensor::<f64>::from_buf(vec![1.0, 2.0], vec![2]).unwrap();
    let b = Tensor::<f64>::from_buf(vec![3.0, 4.0], vec![2]).unwrap();
    let mask = Tensor::<f64>::from_buf(vec![1.0, -1.0], vec![2]).unwrap();
    let mut ctx = GradContext::new();
    let ka = ctx.attach(GradNode::Leaf).unwrap();
    let kb = ctx.attach(GradNode::Leaf).unwrap();
    let kc = ctx.attach(GradNode::BroadcastMul { left: Some(ka), right: Some(kb) }).unwrap();
    let kd = ctx.attach(GradNode::L1 { input: Some(kc), target: None }).unwrap();
    let kept: Vec<(NodeKey, Vec<Tensor<f64>>)> = vec![(kc, vec![a, b]), (kd, vec![mask])];
    let local = |k: NodeKey, n: &GradNode, g: &Tensor<f64>| {
        let empty: Vec<Tensor<f64>> = Vec::new();
        let saved = kept.iter().find(|(key, _)| *key == k).map(|(_, s)| s).unwrap_or(&empty);
        local_gradient(n, saved, 1.0, g)
    };
    let ones = Tensor::<f64>::from_buf(vec![1.0, 1.0], vec![2]).unwrap();
    let grads = ctx.backwards(kd, ones, local, |x: Tensor<f64>, y: Tensor<f64>| x.add_tensor(&y)).unwrap();
    let ga = grads.iter().find(|(k, _)| *k == ka).map(|(_, g)| g.buffer().clone()).unwrap();
    let gb = grads.iter().find(|(k, _)| *k == kb).map(|(_, g)| g.buffer().clone()).unwrap();
    assert_eq!(ga, vec![3.0, -4.0]);
    assert_eq!(gb, vec![1.0, -2.0]);
}

#[test]
fn training_step_accumulates_and_descends() {
    let a = Tensor::<f64>::from_buf(vec![1.0, 2.0], vec![2]).unwrap();
    let b = Tensor::<f64>::from_buf(vec![3.0, 4.0], vec![2]).unwrap();
    let mask = Tensor::<f64>::from_buf(vec![1.0, -1.0], vec![2]).unwrap();
    let mut ctx = GradContext::new();
    let ka = ctx.attach(GradNode::Leaf).unwrap();
    let kb = ctx.attach(GradNode::Leaf).unwrap();
    let kc = ctx.attach(GradNode::BroadcastMul { left: Some(ka), right: Some(kb) }).unwrap();
    let kd = ctx.attach(GradNode::L1 { input: Some(kc), target: None }).unwrap();
    let kept: Vec<(NodeKey, Vec<Tensor<f64>>)> = vec![
        (kc, vec![Tensor::<f64>::from_buf(vec![1.0, 2.0], vec![2]).unwrap(), Tensor::<f64>::from_buf(vec![3.0, 4.0], vec![2]).unwrap()]),
        (kd, vec![mask]),
    ];
    let local = |k: NodeKey, n: &GradNode, g: &Grad<f64>| -> Result<Vec<Grad<f64>>, TensorError> {
        let empty: Vec<Tensor<f64>> = Vec::new();
        let saved = kept.iter().find(|(key, _)| *key == k).map(|(_, s)| s).unwrap_or(&empty);
        local_gradient(n, saved, 1.0, g.get()).map(|v| v.into_iter().map(Grad::new).collect())
    };
    let plus = |x: Grad<f64>, y: Grad<f64>| Grad::new(x.get().add_tensor(y.get()));
    let loss = Grad::new(Tensor::<f64>::from_buf(vec![0.0, 0.0], vec![2]).unwrap());
    let mut held: Vec<(NodeKey, Option<Grad<f64>>)> =
        vec![(ka, None), (kb, Some(Grad::new(Tensor::<f64>::from_buf(vec![10.0, 10.0], vec![2]).unwrap())))];
    backwards_into_leaves(&mut ctx, kd, &loss, local, plus, &mut held).unwrap();
    assert_eq!(held[0].1.as_ref().unwrap().get().buffer(), &vec![3.0, -4.0]);
    assert_eq!(held[1].1.as_ref().unwrap().get().buffer(), &vec![11.0, 8.0]);

    let mut opt = Sgd::new(0.5);
    opt.register_parameter(a);
    opt.register_parameter(b);
    opt.grads[0] = Some(held[0].1.take().unwrap().into_tensor());
    opt.step().unwrap();
    assert_eq!(opt.params[0].buffer(), &vec![-0.5, 4.0]);
    assert_eq!(opt.params[1].buffer(), &vec![3.0, 4.0]);
    assert!(opt.grads.iter().all(|g| g.is_none()));
}

//! Small training runs: a forward pass recorded by hand into a gradient
//! graph, the backward pass into the parameters, and plain SGD steps.
use rtensors::access::{AsTensor, TensorAccess};
use rtensors::broadcast::mean_l1_loss;
use rtensors::derivative::{local_gradient, Sgd};
use rtensors::error::TensorError;
use rtensors::grad::{GradContext, GradNode, NodeKey};
use rtensors::tensor::Tensor;
use rtensors::train::{backwards_into_leaves, Grad};

fn filled(v: f32) -> Tensor<f32> {
    Tensor::<f32>::from_buf(vec![v; 6], vec![2, 3]).unwrap()
}

/// A value of the forward pass and the node that produced it.
struct Var {
    key: NodeKey,
    value: Tensor<f32>,
}

/// The gradient graph of one forward pass, with the tensors each derivative
/// rule reads.
struct Tape {
    ctx: GradContext,
    kept: Vec<(NodeKey, Vec<Tensor<f32>>)>,
    params: Vec<(NodeKey, usize)>,
}

impl Tape {
    fn new() -> Tape {
        Tape { ctx: GradContext::new(), kept: Vec::new(), params: Vec::new() }
    }

    fn param(&mut self, opt: &Sgd<f32>, index: usize) -> Var {
        let key = self.ctx.attach(GradNode::Leaf).unwrap();
        self.params.push((key, index));
        Var { key, value: opt.params[index].contiguous() }
    }

    fn input(&mut self, t: &Tensor<f32>) -> Var {
        let key = self.ctx.attach(GradNode::Input).unwrap();
        Var { key, value: t.contiguous() }
    }

    fn add(&mut self, a: &Var, b: &Var) -> Var {
        let key = self.ctx.attach(GradNode::BroadcastAdd { left: Some(a.key), right: Some(b.key) }).unwrap();
        Var { key, value: a.value.add_tensor(&b.value) }
    }

    /// An element-wise operation. The rules of `tanh`, `exp`, `reciprocal`
    /// and `rsqrt` read the forward result, the others the input.
    fn unary(&mut self, a: &Var, node: fn(Option<NodeKey>) -> GradNode, f: fn(&Tensor<f32>) -> Tensor<f32>) -> Var {
        let n = node(Some(a.key));
        let value = f(&a.value);
        let reads_result = matches!(
            n,
            GradNode::Tanh { .. } | GradNode::Exp { .. } | GradNode::Reciprocal { .. } | GradNode::Rsqrt { .. }
        );
        let key = self.ctx.attach(n).unwrap();
        let kept = if reads_result { value.contiguous() } else { a.value.contiguous() };
        self.kept.push((key, vec![kept]));
        Var { key, value }
    }

    /// The mean L1 loss of `y` against `target`: its node and the loss, a
    /// rank-0 tensor.
    fn mean_l1(&mut self, y: &Var, target: &Tensor<f32>) -> Var {
        let key = self.ctx.attach(GradNode::L1 { input: Some(y.key), target: None }).unwrap();
        let n = y.value.buffer().len() as f32;
        let signs = y.value.sub_tensor(target).sign().div_scalar(n);
        self.kept.push((key, vec![signs]));
        Var { key, value: mean_l1_loss(&y.value, target) }
    }

    /// Runs the backward pass from the loss and one step of `opt`.
    fn backwards_and_step(mut self, loss: Var, opt: &mut Sgd<f32>) {
        let kept = &self.kept;
        let local = |k: NodeKey, n: &GradNode, g: &Grad<f32>| -> Result<Vec<Grad<f32>>, TensorError> {
            let empty: Vec<Tensor<f32>> = Vec::new();
            let saved = kept.iter().find(|(key, _)| *key == k).map(|(_, s)| s).unwrap_or(&empty);
            local_gradient(n, saved, 1.0, g.get()).map(|v| v.into_iter().map(Grad::new).collect())
        };
        let plus = |x: Grad<f32>, y: Grad<f32>| Grad::new(x.get().add_tensor(y.get()));
        let mut held: Vec<(NodeKey, Option<Grad<f32>>)> = self.params.iter().map(|(k, _)| (*k, None)).collect();
        backwards_into_leaves(&mut self.ctx, loss.key, &Grad::new(loss.value), local, plus, &mut held).unwrap();
        for ((_, index), (_, g)) in self.params.iter().zip(held.into_iter()) {
            opt.grads[*index] = g.map(|g| g.into_tensor());
        }
        opt.step().unwrap();
    }
}

fn sin(t: &Tensor<f32>) -> Tensor<f32> {
    t.sin()
}
fn cos(t: &Tensor<f32>) -> Tensor<f32> {
    t.cos()
}
fn tanh(t: &Tensor<f32>) -> Tensor<f32> {
    t.tanh()
}
fn sinh(t: &Tensor<f32>) -> Tensor<f32> {
    t.sinh()
}
fn cosh(t: &Tensor<f32>) -> Tensor<f32> {
    t.cosh()
}
fn exp(t: &Tensor<f32>) -> Tensor<f32> {
    t.exp()
}
fn square(t: &Tensor<f32>) -> Tensor<f32> {
    t.square()
}
fn cube(t: &Tensor<f32>) -> Tensor<f32> {
    t.cube()
}
fn reciprocal(t: &Tensor<f32>) -> Tensor<f32> {
    t.reciprocal()
}
fn rsqrt(t: &Tensor<f32>) -> Tensor<f32> {
    t.rsqrt()
}

fn sin_node(input: Option<NodeKey>) -> GradNode {
    GradNode::Sin { input }
}
fn cos_node(input: Option<NodeKey>) -> GradNode {
    GradNode::Cos { input }
}
fn tanh_node(input: Option<NodeKey>) -> GradNode {
    GradNode::Tanh { input }
}
fn sinh_node(input: Option<NodeKey>) -> GradNode {
    GradNode::Sinh { input }
}
fn cosh_node(input: Option<NodeKey>) -> GradNode {
    GradNode::Cosh { input }
}
fn exp_node(input: Option<NodeKey>) -> GradNode {
    GradNode::Exp { input }
}
fn square_node(input: Option<NodeKey>) -> GradNode {
    GradNode::Square { input }
}
fn cube_node(input: Option<NodeKey>) -> GradNode {
    GradNode::Cube { input }
}
fn reciprocal_node(input: Option<NodeKey>) -> GradNode {
    GradNode::Reciprocal { input }
}
fn rsqrt_node(input: Option<NodeKey>) -> GradNode {
    GradNode::Rsqrt { input }
}

/// A model of one parameter, recorded on a fresh tape.
type Model = fn(&mut Tape, &Var, &Var) -> Var;

/// Trains parameter `index` of `opt` on `model` for `iters` steps; the loss
/// before and after.
fn train(opt: &mut Sgd<f32>, index: usize, input: &Tensor<f32>, target: &Tensor<f32>, model: Model, iters: usize) -> (f32, f32) {
    let loss_now = |opt: &Sgd<f32>| -> (Tape, Var) {
        let mut tape = Tape::new();
        let w = tape.param(opt, index);
        let x = tape.input(input);
        let y = model(&mut tape, &w, &x);
        let loss = tape.mean_l1(&y, target);
        (tape, loss)
    };
    let initial = loss_now(opt).1.value.item().unwrap();
    for _ in 0..iters {
        let (tape, loss) = loss_now(opt);
        tape.backwards_and_step(loss, opt);
    }
    (initial, loss_now(opt).1.value.item().unwrap())
}

fn trig(t: &mut Tape, w: &Var, input: &Var) -> Var {
    let x = t.add(input, w);
    let s = t.unary(&x, sin_node, sin);
    let c = t.unary(&x, cos_node, cos);
    let c = t.unary(&c, tanh_node, tanh);
    t.add(&s, &c)
}

fn hyperbolic(t: &mut Tape, w: &Var, input: &Var) -> Var {
    let x = t.add(input, w);
    let a = t.unary(&x, sinh_node, sinh);
    let b = t.unary(&x, cosh_node, cosh);
    t.add(&a, &b)
}

#[test]
fn test_trig_and_hyperbolic() {
    let input = filled(1.0);
    let target = filled(0.0);
    let mut optim = Sgd::new(0.1f32);
    optim.register_parameter(filled(1.0));
    let (initial_loss, final_loss) = train(&mut optim, 0, &input, &target, trig, 10);
    assert!(initial_loss - final_loss > 0.01, "Trig loss should reduce by at least 0.01, initial: {}, final: {}", initial_loss, final_loss);

    optim.register_parameter(filled(1.0));
    let (initial_loss, final_loss) = train(&mut optim, 1, &input, &target, hyperbolic, 10);
    assert!(initial_loss - final_loss > 0.5, "Hyperbolic loss should reduce by at least 0.5, initial: {}, final: {}", initial_loss, final_loss);
}

fn with_exp(t: &mut Tape, w: &Var, input: &Var) -> Var {
    let x = t.add(input, w);
    t.unary(&x, exp_node, exp)
}

fn with_powers(t: &mut Tape, w: &Var, input: &Var) -> Var {
    let x = t.add(input, w);
    let a = t.unary(&x, square_node, square);
    let b = t.unary(&x, cube_node, cube);
    t.add(&a, &b)
}

#[test]
fn test_exp_and_powers() {
    let input = filled(1.0);
    let target = filled(1.0);
    let mut optim = Sgd::new(0.01f32);
    optim.register_parameter(filled(1.0));
    let (initial_loss, final_loss) = train(&mut optim, 0, &input, &target, with_exp, 10);
    assert!(initial_loss - final_loss > 0.1, "Exp loss should reduce by at least 0.1, initial: {}, final: {}", initial_loss, final_loss);

    optim.register_parameter(filled(1.0));
    let (initial_loss, final_loss) = train(&mut optim, 1, &input, &target, with_powers, 10);
    assert!(initial_loss - final_loss > 0.1, "Powers loss should reduce by at least 0.1, initial: {}, final: {}", initial_loss, final_loss);
}

fn with_reciprocal(t: &mut Tape, w: &Var, input: &Var) -> Var {
    let x = t.add(input, w);
    t.unary(&x, reciprocal_node, reciprocal)
}

fn with_rsqrt(t: &mut Tape, w: &Var, input: &Var) -> Var {
    let x = t.add(input, w);
    t.unary(&x, rsqrt_node, rsqrt)
}

#[test]
fn test_reciprocal_and_rsqrt() {
    let input = filled(1.0);
    let target = filled(1.0);
    let mut optim = Sgd::new(0.1f32);
    optim.register_parameter(filled(1.0));
    let (initial_loss, final_loss) = train(&mut optim, 0, &input, &target, with_reciprocal, 10);
    assert!(initial_loss - final_loss > 0.001, "Reciprocal loss should reduce by at least 0.001, initial: {}, final: {}", initial_loss, final_loss);

    optim.register_parameter(filled(1.0));
    let (initial_loss, final_loss) = train(&mut optim, 1, &input, &target, with_rsqrt, 10);
    assert!(initial_loss - final_loss > 0.001, "Rsqrt loss should reduce by at least 0.001, initial: {}, final: {}", initial_loss, final_loss);
}

fn chain(t: &mut Tape, w: &Var, input: &Var) -> Var {
    let x = t.add(input, w);
    let y = t.unary(&x, sin_node, sin);
    let y = t.unary(&y, exp_node, exp);
    t.unary(&y, rsqrt_node, rsqrt)
}

/// The model of two parameters: `(sinh(tanh((input + wa)^2) + wb))^-1`.
fn complex_loss(opt: &Sgd<f32>, input: &Tensor<f32>, target: &Tensor<f32>) -> (Tape, Var) {
    let mut t = Tape::new();
    let wa = t.param(opt, 0);
    let wb = t.param(opt, 1);
    let x = t.input(input);
    let x1 = t.add(&x, &wa);
    let x2 = t.unary(&x1, square_node, square);
    let x2 = t.unary(&x2, tanh_node, tanh);
    let x3 = t.add(&x2, &wb);
    let x4 = t.unary(&x3, sinh_node, sinh);
    let x4 = t.unary(&x4, reciprocal_node, reciprocal);
    let loss = t.mean_l1(&x4, target);
    (t, loss)
}

#[test]
fn test_combined_operations() {
    let input = filled(1.0);
    let target = filled(0.0);
    let mut optim = Sgd::new(0.1f32);
    optim.register_parameter(filled(1.0));
    optim.register_parameter(filled(1.0));
    let initial_loss = complex_loss(&optim, &input, &target).1.value.item().unwrap();
    for _ in 0..10 {
        let (tape, loss) = complex_loss(&optim, &input, &target);
        tape.backwards_and_step(loss, &mut optim);
    }
    let final_loss = complex_loss(&optim, &input, &target).1.value.item().unwrap();
    assert!(initial_loss - final_loss > 0.001, "Complex model loss should reduce by at least 0.001, initial: {}, final: {}", initial_loss, final_loss);

    optim.register_parameter(filled(1.0));
    let (initial_loss, final_loss) = train(&mut optim, 2, &input, &target, chain, 10);
    assert!(initial_loss - final_loss > 0.0001, "Chained operations loss should reduce by at least 0.0001, initial: {}, final: {}", initial_loss, final_loss);
}

fn all_ops(t: &mut Tape, w: &Var, input: &Var) -> Var {
    let x = t.add(input, w);
    let y1 = t.unary(&x, tanh_node, tanh);
    let y2 = t.unary(&x, exp_node, exp);
    let y3 = t.unary(&x, square_node, square);
    let y4 = t.unary(&x, cube_node, cube);
    let y5 = t.unary(&x, reciprocal_node, reciprocal);
    let y6 = t.unary(&x, rsqrt_node, rsqrt);
    let y7 = t.unary(&x, sinh_node, sinh);
    let y8 = t.unary(&x, cosh_node, cosh);
    let s = t.add(&y1, &y2);
    let s = t.add(&s, &y3);
    let s = t.add(&s, &y4);
    let s = t.add(&s, &y5);
    let s = t.add(&s, &y6);
    let s = t.add(&s, &y7);
    t.add(&s, &y8)
}

#[test]
fn test_all_new_ops() {
    let input = filled(1.0);
    let target = filled(0.0);
    let mut optim = Sgd::new(0.01f32);
    optim.register_parameter(filled(1.0));
    let (initial_loss, final_loss) = train(&mut optim, 0, &input, &target, all_ops, 15);
    assert!(initial_loss - final_loss > 1.0, "All ops loss should reduce by at least 1.0, initial: {}, final: {}", initial_loss, final_loss);
}

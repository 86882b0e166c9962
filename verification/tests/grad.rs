//! The gradient graph: topological order, error cases, Graphviz text, and the
//! tracking switch.
use rtensors::access::{AsTensor, TensorAccess};
use rtensors::error::TensorError;
use rtensors::grad::{
    enabled_or_warn, is_enabled, no_grad, when_disabled, when_enabled, with, without_enabled, GradContext,
    GradNode, GradState,
    GradTensor, NodeKey,
};
use rtensors::meta::Idx;
use rtensors::tensor::Tensor;

const V1: u64 = 1u64 << 32;

#[test]
fn toposort_lists_parents_first() {
    let mut ctx = GradContext::new();
    let a = ctx.attach(GradNode::Leaf).unwrap();
    let b = ctx.attach(GradNode::Leaf).unwrap();
    let c = ctx.attach(GradNode::BroadcastAdd { left: Some(a), right: Some(b) }).unwrap();
    let d = ctx.attach(GradNode::Sqrt { input: Some(c) }).unwrap();
    let order = ctx.graph_toposort(Some(d)).unwrap();
    assert_eq!(order.len(), 4);
    let pos = |k: NodeKey| order.iter().position(|x| *x == k).unwrap();
    assert!(pos(a) < pos(c));
    assert!(pos(b) < pos(c));
    assert!(pos(c) < pos(d));
    assert_eq!(*order.last().unwrap(), d);
}

#[test]
fn toposort_shared_parent_listed_once() {
    let mut ctx = GradContext::new();
    let a = ctx.attach(GradNode::Leaf).unwrap();
    let b = ctx.attach(GradNode::Abs { input: Some(a) }).unwrap();
    let c = ctx.attach(GradNode::MatMul { left: Some(a), right: Some(b) }).unwrap();
    let order = ctx.graph_toposort(Some(c)).unwrap();
    assert_eq!(order, vec![a, b, c]);
}

#[test]
fn toposort_untracked_parent_is_placeholder() {
    let mut ctx = GradContext::new();
    let n = ctx.attach(GradNode::Negate { input: None }).unwrap();
    let order = ctx.graph_toposort(Some(n)).unwrap();
    assert_eq!(order, vec![ctx.none_node, n]);
    let order = ctx.graph_toposort(None).unwrap();
    assert_eq!(order, vec![ctx.none_node]);
}

#[test]
fn toposort_reports_cycle() {
    let mut ctx = GradContext::new();
    // keys are handed out in slot order with version 1; the placeholder
    // holds slot 1
    assert_eq!(ctx.none_node, NodeKey(V1 | 1));
    let a = ctx.attach(GradNode::Abs { input: Some(NodeKey(V1 | 3)) }).unwrap();
    let b = ctx.attach(GradNode::Abs { input: Some(a) }).unwrap();
    assert_eq!(a, NodeKey(V1 | 2));
    assert_eq!(b, NodeKey(V1 | 3));
    match ctx.graph_toposort(Some(a)) {
        Err(TensorError::GradError(m)) => assert!(m.contains("cycle")),
        other => panic!("expected a cycle error, got {:?}", other),
    }
}

#[test]
fn toposort_reports_missing_node() {
    let mut ctx = GradContext::new();
    let a = ctx.attach(GradNode::Exp { input: Some(NodeKey(V1 | 77)) }).unwrap();
    match ctx.graph_toposort(Some(a)) {
        Err(TensorError::GradError(m)) => assert!(m.contains("not found")),
        other => panic!("expected a missing-node error, got {:?}", other),
    }
}

#[test]
fn parents_and_labels() {
    let k = NodeKey(V1 | 5);
    let n = GradNode::L1 { input: Some(k), target: None };
    assert_eq!(n.parents(), vec![Some(k), None]);
    assert_eq!(n.label(), "{L1Loss}");
    assert!(GradNode::Leaf.is_leaf());
    assert!(!GradNode::Input.is_leaf());
    assert_eq!(GradNode::Input.label(), "{Leaf|requires_grad=false}");
    assert_eq!(GradNode::Leaf.parents(), vec![]);
}

#[test]
fn graphviz_of_a_chain() {
    let mut ctx = GradContext::new();
    let a = ctx.attach(GradNode::Leaf).unwrap();
    let b = ctx.attach(GradNode::Negate { input: Some(a) }).unwrap();
    let text = ctx.graphviz(Some(b)).unwrap();
    assert_eq!(
        text,
        "digraph Autograd {\n    node [shape=record fontname=monospace];\n\n    node_2v1 [label=\"{Leaf|requires_grad=true}\"];\n    node_3v1 [label=\"{Negate}\"];\n\n    node_2v1 -> node_3v1;\n}\n"
    );
}

#[test]
fn graphviz_draws_untracked_inputs() {
    let mut ctx = GradContext::new();
    let b = ctx.attach(GradNode::BroadcastMul { left: None, right: None }).unwrap();
    let text = ctx.graphviz(Some(b)).unwrap();
    assert_eq!(
        text,
        "digraph Autograd {\n    node [shape=record fontname=monospace];\n\n    node_2v1 [label=\"{BroadcastMul}\"];\n\n    none_0 [label=\"{Leaf|requires_grad=false}\" style=filled fillcolor=lightgray];\n    none_0 -> node_2v1 [style=dashed color=gray];\n    none_1 [label=\"{Leaf|requires_grad=false}\" style=filled fillcolor=lightgray];\n    none_1 -> node_2v1 [style=dashed color=gray];\n}\n"
    );
}

#[test]
fn graphviz_error_on_cycle() {
    let mut ctx = GradContext::new();
    let a = ctx.attach(GradNode::Cos { input: Some(NodeKey(V1 | 2)) }).unwrap();
    assert!(matches!(ctx.graphviz(Some(a)), Err(TensorError::GradError(_))));
}

#[test]
fn no_grad_restores_the_switch() {
    let mut state = GradState::new();
    with(&mut state, |_ctx| {});
    assert!(is_enabled(&state));
    let inside = no_grad(&mut state, |s| is_enabled(s));
    assert!(!inside);
    assert!(!state.disabled);
    assert!(is_enabled(&state));
}

#[test]
fn with_creates_context_unless_disabled() {
    let mut state = GradState::new();
    assert!(!is_enabled(&state));
    state.disabled = true;
    with(&mut state, |_ctx| panic!("must not run while disabled"));
    assert!(state.context.is_none());
    state.disabled = false;
    let mut seen = false;
    with(&mut state, |ctx| {
        assert!(ctx.graph_toposort(None).is_ok());
    });
    seen |= state.context.is_some();
    assert!(seen);
}

#[test]
fn when_enabled_and_when_disabled() {
    let mut state = GradState::new();
    assert_eq!(when_enabled(&state, |_c| 3), None);
    let mut ran = false;
    when_disabled(&state, || ran = true);
    assert!(ran);
    with(&mut state, |_c| {});
    assert_eq!(when_enabled(&state, |_c| 3), Some(3));
    let mut ran2 = false;
    when_disabled(&state, || ran2 = true);
    assert!(!ran2);
}

#[test]
fn grad_tensor_permute_records_node() {
    let mut ctx = GradContext::new();
    let leaf = ctx.attach(GradNode::Leaf).unwrap();
    let t = Tensor::<i32>::from_buf(vec![1, 2, 3, 4, 5, 6], vec![2, 3]).unwrap();
    let g = GradTensor { inner: t, node: leaf };
    assert!(g.is_leaf(&ctx));
    assert_eq!(g.get_ref().shape(), &vec![2, 3]);
    let p = g.permute(&mut ctx, &Idx::Coord(vec![1, 0])).unwrap();
    assert_eq!(p.inner.shape(), &vec![3, 2]);
    assert_eq!(p.inner.strides(), &vec![1isize, 3]);
    assert!(!p.is_leaf(&ctx));
    let order = ctx.graph_toposort(Some(p.node)).unwrap();
    assert_eq!(order, vec![leaf, p.node]);
}

#[test]
fn grad_tensor_permute_rejects_bad_dims() {
    let mut ctx = GradContext::new();
    let leaf = ctx.attach(GradNode::Leaf).unwrap();
    let t = Tensor::<i32>::from_buf(vec![1, 2, 3, 4], vec![2, 2]).unwrap();
    let g = GradTensor { inner: t, node: leaf };
    assert!(matches!(g.permute(&mut ctx, &Idx::Coord(vec![0])), Err(TensorError::WrongDims(_))));
}

#[test]
fn without_enabled_runs_untracked_only_when_enabled() {
    let mut state = GradState::new();
    assert_eq!(without_enabled(&mut state, |s| is_enabled(s)), None);
    with(&mut state, |_c| {});
    assert_eq!(without_enabled(&mut state, |s| is_enabled(s)), Some(false));
    assert!(is_enabled(&state));
    state.disabled = true;
    assert_eq!(without_enabled(&mut state, |_s| 1), None);
    assert!(state.disabled);
}

#[test]
fn enabled_or_warn_reports_when_not_recording() {
    let mut state = GradState::new();
    let mut ran = false;
    let w = enabled_or_warn(&state, |_c| ran = true, "no grad");
    assert_eq!(w, Some("no grad".to_string()));
    assert!(!ran);
    assert!(!is_enabled(&state));
    with(&mut state, |_c| {});
    let mut ran1 = false;
    let w = enabled_or_warn(&state, |_c| ran1 = true, "no grad");
    assert_eq!(w, None);
    assert!(ran1);
    state.disabled = true;
    let mut ran2 = false;
    let w = enabled_or_warn(&state, |_c| ran2 = true, "off");
    assert_eq!(w, Some("off".to_string()));
    assert!(!ran2);
}

fn doubling(_k: NodeKey, n: &GradNode, g: &f64) -> Result<Vec<f64>, TensorError> {
    Ok(vec![*g * 2.0; n.parents().len()])
}

#[test]
fn backwards_hands_gradients_to_parameters() {
    let mut ctx = GradContext::new();
    let a = ctx.attach(GradNode::Leaf).unwrap();
    let b = ctx.attach(GradNode::Leaf).unwrap();
    let c = ctx.attach(GradNode::BroadcastMul { left: Some(a), right: Some(b) }).unwrap();
    let d = ctx.attach(GradNode::L1 { input: Some(c), target: None }).unwrap();
    let grads = ctx.backwards(d, 1.0f64, doubling, |x: f64, y: f64| x + y).unwrap();
    assert_eq!(grads.len(), 2);
    assert!(grads.contains(&(a, 4.0)));
    assert!(grads.contains(&(b, 4.0)));
    // the operations are consumed, the parameters stay
    assert!(ctx.graph_toposort(Some(c)).is_err());
    assert!(ctx.graph_toposort(Some(d)).is_err());
    assert_eq!(ctx.graph_toposort(Some(a)).unwrap(), vec![a]);
    assert_eq!(ctx.graph_toposort(None).unwrap(), vec![ctx.none_node]);
}

#[test]
fn backwards_sums_gradients_in_arrival_order() {
    let mut ctx = GradContext::new();
    let a = ctx.attach(GradNode::Leaf).unwrap();
    let e = ctx.attach(GradNode::BroadcastMul { left: Some(a), right: Some(a) }).unwrap();
    let s = ctx.attach(GradNode::Sqrt { input: Some(a) }).unwrap();
    let m = ctx.attach(GradNode::BroadcastAdd { left: Some(e), right: Some(s) }).unwrap();
    let l = ctx.attach(GradNode::L1 { input: Some(m), target: None }).unwrap();
    let local = |_k: NodeKey, n: &GradNode, g: &Vec<u32>| -> Result<Vec<Vec<u32>>, TensorError> {
        let label = n.label().len() as u32;
        Ok((0..n.parents().len()).map(|j| {
            let mut v = g.clone();
            v.push(label * 10 + j as u32);
            v
        }).collect())
    };
    let grads = ctx
        .backwards(l, vec![], local, |mut x: Vec<u32>, y: Vec<u32>| {
            x.push(0);
            x.extend(y);
            x
        })
        .unwrap();
    assert_eq!(grads.len(), 1);
    assert_eq!(grads[0].0, a);
    // children are done before their parents (the loss, the sum, the
    // product, the square root); `a` gets the product's two gradients, in
    // the order of its parents, then the square root's, summed in that order
    let g = &grads[0].1;
    assert_eq!(g, &vec![80, 140, 140, 0, 80, 140, 141, 0, 80, 141, 60]);
}

#[test]
fn backwards_errors() {
    let mut ctx = GradContext::new();
    let a = ctx.attach(GradNode::Leaf).unwrap();
    let s = ctx.attach(GradNode::Sqrt { input: Some(a) }).unwrap();
    // not a loss
    match ctx.backwards(s, 1.0f64, doubling, |x: f64, y: f64| x + y) {
        Err(TensorError::GradError(_)) => {}
        other => panic!("unexpected {:?}", other),
    }
    assert_eq!(ctx.graph_toposort(Some(s)).unwrap(), vec![a, s]);
    // a missing node
    let l = ctx.attach(GradNode::L1 { input: Some(NodeKey(V1 | 40)), target: None }).unwrap();
    assert!(matches!(
        ctx.backwards(l, 1.0f64, doubling, |x: f64, y: f64| x + y),
        Err(TensorError::GradError(_))
    ));
    // an error of the local gradient ends the pass
    let l2 = ctx.attach(GradNode::L1 { input: Some(s), target: None }).unwrap();
    let failing = |_k: NodeKey, n: &GradNode, g: &f64| -> Result<Vec<f64>, TensorError> {
        if n.is_leaf() {
            Ok(vec![])
        } else if matches!(n, GradNode::Sqrt { .. }) {
            Err(TensorError::UnsupportedOperation("no sqrt".to_string()))
        } else {
            Ok(vec![*g; n.parents().len()])
        }
    };
    assert_eq!(
        ctx.backwards(l2, 1.0f64, failing, |x: f64, y: f64| x + y),
        Err(TensorError::UnsupportedOperation("no sqrt".to_string()))
    );
}

#[test]
fn backwards_permute_applies_the_inverse() {
    let node = GradNode::Permute { input: None, dims: vec![2, 0, 1] };
    let up = Tensor::<i32>::from_buf((0..24).collect(), vec![4, 2, 3]).unwrap();
    let grads = node.backwards_permute(&up).unwrap();
    assert_eq!(grads.len(), 1);
    let g = &grads[0];
    assert_eq!(g.shape(), &vec![2, 3, 4]);
    assert_eq!(g.strides(), &vec![3isize, 1, 6]);
    // element (a, b, c) of the gradient is element (c, a, b) upstream
    for a in 0..2 {
        for b in 0..3 {
            for c in 0..4 {
                assert_eq!(
                    g.get(&Idx::Coord(vec![a, b, c])),
                    up.get(&Idx::Coord(vec![c, a, b]))
                );
            }
        }
    }
    assert_eq!(g.contiguous().shape(), &vec![2, 3, 4]);
}

#[test]
fn backwards_permute_errors() {
    let up = Tensor::<i32>::from_buf((0..6).collect(), vec![2, 3]).unwrap();
    let not_permute = GradNode::Sqrt { input: None };
    assert!(matches!(not_permute.backwards_permute(&up), Err(TensorError::UnsupportedOperation(_))));
    let wrong_rank = GradNode::Permute { input: None, dims: vec![2, 0, 1] };
    assert!(matches!(wrong_rank.backwards_permute(&up), Err(TensorError::WrongDims(_))));
    // a repeated entry: positions are overwritten in turn, giving [1, 0]
    let repeated = GradNode::Permute { input: None, dims: vec![0, 0] };
    let g = repeated.backwards_permute(&up).unwrap();
    assert_eq!(g[0].shape(), &vec![3, 2]);
}

#[test]
fn grad_tensor_records_leaves_inputs_and_transposes() {
    let mut ctx = GradContext::new();
    let w = GradTensor::leaf(&mut ctx, Tensor::<i32>::from_buf((0..6).collect(), vec![2, 3]).unwrap()).unwrap();
    assert!(w.is_leaf(&ctx));
    let x = GradTensor::input(&mut ctx, Tensor::<i32>::scalar(7)).unwrap();
    assert!(!x.is_leaf(&ctx));
    assert_eq!(x.item(), Ok(7));
    assert!(matches!(w.item(), Err(TensorError::WrongDims(_))));
    let w_node = w.node;
    let t = w.transpose(&mut ctx).unwrap();
    assert_eq!(t.get_ref().shape(), &vec![3, 2]);
    assert_eq!(t.get_ref().get(&Idx::Coord(vec![2, 1])), Ok(5));
    assert_eq!(ctx.graph_toposort(Some(t.node)).unwrap(), vec![w_node, t.node]);
    let c = t.copy_tensor();
    assert_eq!(c.buffer(), &vec![0, 3, 1, 4, 2, 5]);
    let op = GradTensor::from_op(&mut ctx, c, GradNode::Abs { input: Some(t.node) }).unwrap();
    assert_eq!(ctx.graph_toposort(Some(op.node)).unwrap(), vec![w_node, t.node, op.node]);
}

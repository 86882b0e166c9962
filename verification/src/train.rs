//! Training: gradients as values that are always well formed, and the
//! backward pass driven from a loss — seeded with ones in the loss's shape —
//! whose results are added into the gradients held for the parameters.
use vstd::prelude::*;
use crate::backward::backward_run;
use crate::derivative::{full_like, plus};
use crate::error::{msg, TensorError};
use crate::grad::{has_cycle_from, has_missing_from, reaches, GradContext, GradNode, NodeKey};
use crate::matmul::same_shape;
use crate::meta::sizes_fit;
use crate::tensor::TensorBase;
use crate::unary::{one_of, one_value, sum_value};

verus! {

broadcast use crate::tensor::group_tensor_parts;

/// A gradient: a well-formed tensor whose sizes fit in memory.
pub struct Grad<T> {
    t: TensorBase<T>,
}

impl<T> Grad<T> {
    #[verifier::type_invariant]
    spec fn inv(self) -> bool {
        self.t.wf() && sizes_fit(self.t.spec_shape())
    }

    /// The tensor the gradient holds.
    pub closed spec fn tensor(self) -> TensorBase<T> {
        self.t
    }

    /// A gradient holding `t`.
    pub fn new(t: TensorBase<T>) -> (g: Self)
        requires
            t.wf(),
            sizes_fit(t.spec_shape()),
        ensures
            g.tensor() == t,
    {
        Grad { t }
    }

    /// The tensor the gradient holds.
    pub fn get(&self) -> (r: &TensorBase<T>)
        ensures
            *r == self.tensor(),
            r.wf(),
            sizes_fit(r.spec_shape()),
    {
        proof {
            use_type_invariant(self);
        }
        &self.t
    }

    /// The tensor the gradient holds, taken out of it.
    pub fn into_tensor(self) -> (t: TensorBase<T>)
        ensures
            t == self.tensor(),
            t.wf(),
            sizes_fit(t.spec_shape()),
    {
        proof {
            use_type_invariant(&self);
        }
        self.t
    }
}

/// `seed` has the shape of `loss` and every element a float one.
pub open spec fn ones_like<T: num_traits::Float>(seed: Grad<T>, loss: Grad<T>) -> bool {
    &&& seed.tensor().spec_shape() == loss.tensor().spec_shape()
    &&& seed.tensor().elems().len() == loss.tensor().elems().len()
    &&& forall|k: int| 0 <= k < seed.tensor().elems().len() ==> #[trigger] one_value(seed.tensor().elems()[k])
}

/// What a parameter's gradient `new` is after the gradient `g` arrives at a
/// gradient `old`: `g` itself when there was none, else `old + g` element by
/// element, each step by float addition.
pub open spec fn accumulated<T: num_traits::Float>(old: Option<Grad<T>>, g: Grad<T>, new: Option<Grad<T>>) -> bool {
    match old {
        None => new matches Some(n) && n.tensor().spec_shape() == g.tensor().spec_shape() && n.tensor().elems()
            == g.tensor().elems(),
        Some(h) => new matches Some(n) && n.tensor().spec_shape() == h.tensor().spec_shape() && n.tensor().elems().len()
            == h.tensor().elems().len() && forall|k: int|
            0 <= k < h.tensor().elems().len() ==> #[trigger] sum_value(
                h.tensor().elems()[k],
                g.tensor().elems()[k],
                n.tensor().elems()[k],
            ),
    }
}

/// `k` is a parameter the backward pass from `root` reaches.
pub open spec fn reached_leaf(g: Map<u64, GradNode>, nk: u64, root: u64, k: u64) -> bool {
    reaches(g, nk, root, k) && g.contains_key(k) && g[k] is Leaf
}

/// Ones in the shape of `loss`, row-major.
fn ones_in_shape_of<T: Copy + num_traits::Float>(loss: &Grad<T>) -> (seed: Grad<T>)
    ensures
        ones_like(seed, *loss),
{
    let l = loss.get();
    let one = one_of::<T>();
    let t = full_like(l, one);
    Grad::new(t)
}

/// Where the gradient for key `k` stands in `v`, if anywhere.
fn find_key<T>(v: &Vec<(NodeKey, Grad<T>)>, k: NodeKey) -> (r: Option<usize>)
    ensures
        r matches Some(t) ==> t < v@.len() && v@[t as int].0 == k,
        r is None ==> forall|t: int| 0 <= t < v@.len() ==> v@[t].0 != k,
{
    let mut t: usize = 0;
    while t < v.len()
        invariant
            t <= v@.len(),
            forall|u: int| 0 <= u < t ==> v@[u].0 != k,
        decreases v@.len() - t,
    {
        if v[t].0 == k {
            return Some(t);
        }
        t = t + 1;
    }
    None
}

/// The gradient a parameter holds after `g` arrives.
fn add_into<T: Copy + num_traits::Float>(old: Option<Grad<T>>, g: &Grad<T>) -> (new: Option<Grad<T>>)
    requires
        old matches Some(h) ==> h.tensor().spec_shape() == g.tensor().spec_shape(),
    ensures
        accumulated(old, *g, new),
{
    match old {
        None => {
            let c = crate::access::AsTensor::contiguous(g.get());
            Some(Grad::new(c))
        },
        Some(h) => {
            let s = plus(h.get(), g.get());
            Some(Grad::new(s))
        },
    }
}

/// Whether every parameter the pass hands a gradient to holds a gradient of
/// the same shape, or none.
fn shapes_agree<T>(held: &Vec<(NodeKey, Option<Grad<T>>)>, v: &Vec<(NodeKey, Grad<T>)>) -> (b: bool)
    ensures
        b <==> forall|j: int, t: int|
            0 <= j < held@.len() && 0 <= t < v@.len() && v@[t].0 == held@[j].0 ==> (held@[j].1 matches Some(h)
                ==> h.tensor().spec_shape() == v@[t].1.tensor().spec_shape()),
{
    let mut j: usize = 0;
    while j < held.len()
        invariant
            j <= held@.len(),
            forall|j2: int, t: int|
                0 <= j2 < j && 0 <= t < v@.len() && v@[t].0 == held@[j2].0 ==> (held@[j2].1 matches Some(h)
                    ==> h.tensor().spec_shape() == v@[t].1.tensor().spec_shape()),
        decreases held@.len() - j,
    {
        match &held[j].1 {
            Some(h) => {
                let mut t: usize = 0;
                while t < v.len()
                    invariant
                        j < held@.len(),
                        t <= v@.len(),
                        held@[j as int].1 == Some(*h),
                        forall|j2: int, t2: int|
                            0 <= j2 < j && 0 <= t2 < v@.len() && v@[t2].0 == held@[j2].0 ==> (held@[j2].1 matches Some(h2)
                                ==> h2.tensor().spec_shape() == v@[t2].1.tensor().spec_shape()),
                        forall|t2: int|
                            0 <= t2 < t && v@[t2].0 == held@[j as int].0 ==> h.tensor().spec_shape()
                                == v@[t2].1.tensor().spec_shape(),
                    decreases v@.len() - t,
                {
                    if v[t].0 == held[j].0 {
                        if !same_shape(h.get().shape(), v[t].1.get().shape()) {
                            return false;
                        }
                    }
                    t = t + 1;
                }
            },
            None => {},
        }
        j = j + 1;
    }
    true
}

/// The backward pass from the loss node `root` whose loss is `loss`: seeded
/// with ones in the shape of `loss`, run by `GradContext::backwards` with the
/// local rule `local` and the sum `plus`, and each resulting gradient added
/// into the gradient `held` for its parameter (`accumulated`). Parameters the
/// pass does not reach keep their gradients.
///
/// Errors: those of `GradContext::backwards`; `SizeMismatch` when a held
/// gradient and the arriving one differ in shape. `held` is unchanged on any
/// error.
pub fn backwards_into_leaves<T, L, A>(
    ctx: &mut GradContext,
    root: NodeKey,
    loss: &Grad<T>,
    local: L,
    plus_fn: A,
    held: &mut Vec<(NodeKey, Option<Grad<T>>)>,
) -> (r: Result<(), TensorError>) where
    T: Copy + num_traits::Float,
    L: Fn(NodeKey, &GradNode, &Grad<T>) -> Result<Vec<Grad<T>>, TensorError>,
    A: Fn(Grad<T>, Grad<T>) -> Grad<T>,

    requires
        old(ctx).wf(),
        forall|k: NodeKey, n: &GradNode, x: &Grad<T>| call_requires(local, (k, n, x)),
        forall|k: NodeKey, n: &GradNode, x: &Grad<T>, out: Result<Vec<Grad<T>>, TensorError>|
            call_ensures(local, (k, n, x), out) ==> (out matches Ok(v) ==> v@.len() == crate::grad::node_parents(
                *n,
            ).len()),
        forall|a: Grad<T>, b: Grad<T>| call_requires(plus_fn, (a, b)),
    ensures
        final(ctx).wf(),
        r is Err ==> final(held)@ == old(held)@,
        has_cycle_from(old(ctx).graph(), old(ctx).none_node.0, root.0) || has_missing_from(
            old(ctx).graph(),
            old(ctx).none_node.0,
            root.0,
        ) ==> (r matches Err(e) && e is GradError),
        !(has_cycle_from(old(ctx).graph(), old(ctx).none_node.0, root.0) || has_missing_from(
            old(ctx).graph(),
            old(ctx).none_node.0,
            root.0,
        )) && !(old(ctx).graph()[root.0] is L1) ==> (r matches Err(e) && e is GradError),
        r matches Err(e) ==> (e is GradError || e is SizeMismatch || exists|k: NodeKey, n: &GradNode, x: &Grad<T>|
            call_ensures(local, (k, n, x), Err::<Vec<Grad<T>>, TensorError>(e))),
        r is Ok ==> exists|seed: Grad<T>, ov: Seq<u64>, outs: Map<u64, Vec<Grad<T>>>, ins: Map<u64, Grad<T>>|
            #![trigger backward_run(old(ctx).graph(), old(ctx).none_node.0, root.0, ov, seed, local, plus_fn, outs, ins)]
            ones_like(seed, *loss) && backward_run(
                old(ctx).graph(),
                old(ctx).none_node.0,
                root.0,
                ov,
                seed,
                local,
                plus_fn,
                outs,
                ins,
            ) && final(held)@.len() == old(held)@.len() && forall|j: int|
                0 <= j < old(held)@.len() ==> #[trigger] final(held)@[j].0 == old(held)@[j].0 && (reached_leaf(
                    old(ctx).graph(),
                    old(ctx).none_node.0,
                    root.0,
                    old(held)@[j].0.0,
                ) ==> accumulated(old(held)@[j].1, ins[old(held)@[j].0.0], final(held)@[j].1)) && (!reached_leaf(
                    old(ctx).graph(),
                    old(ctx).none_node.0,
                    root.0,
                    old(held)@[j].0.0,
                ) ==> final(held)@[j].1 == old(held)@[j].1),
{
    let ghost g0 = ctx.graph();
    let ghost nk = ctx.none_node.0;
    let seed = ones_in_shape_of(loss);
    let ghost seed_g = seed;
    let v = match ctx.backwards(root, seed, local, plus_fn) {
        Ok(v) => v,
        Err(e) => {
            return Err(e);
        },
    };
    let ghost w = choose|ov: Seq<u64>, outs: Map<u64, Vec<Grad<T>>>, ins: Map<u64, Grad<T>>|
        #[trigger] backward_run(g0, nk, root.0, ov, seed_g, local, plus_fn, outs, ins) && forall|t: int|
            0 <= t < v@.len() ==> v@[t].1 == ins[v@[t].0.0];
    let ghost ins = w.2;
    if !shapes_agree(held, &v) {
        return Err(TensorError::SizeMismatch(msg("a parameter's gradient and the arriving gradient differ in shape")));
    }
    let ghost held0 = held@;
    let mut rest: Vec<(NodeKey, Option<Grad<T>>)> = Vec::new();
    std::mem::swap(&mut rest, held);
    let n = rest.len();
    let mut out: Vec<(NodeKey, Option<Grad<T>>)> = Vec::new();
    let mut j: usize = 0;
    while j < n
        invariant
            n == held0.len(),
            j <= n,
            rest@ == held0.subrange(j as int, n as int),
            out@.len() == j,
            forall|j2: int, t: int|
                0 <= j2 < held0.len() && 0 <= t < v@.len() && v@[t].0 == held0[j2].0 ==> (held0[j2].1 matches Some(h)
                    ==> h.tensor().spec_shape() == v@[t].1.tensor().spec_shape()),
            forall|t: int| 0 <= t < v@.len() ==> v@[t].1 == ins[v@[t].0.0],
            forall|k: u64| crate::backward::grad_keys(v@).contains(k) <==> reached_leaf(g0, nk, root.0, k),
            forall|j2: int|
                0 <= j2 < j ==> #[trigger] out@[j2].0 == held0[j2].0 && (reached_leaf(g0, nk, root.0, held0[j2].0.0)
                    ==> accumulated(held0[j2].1, ins[held0[j2].0.0], out@[j2].1)) && (!reached_leaf(
                    g0,
                    nk,
                    root.0,
                    held0[j2].0.0,
                ) ==> out@[j2].1 == held0[j2].1),
        decreases n - j,
    {
        let (k, h) = rest.remove(0);
        proof {
            assert((k, h) == held0[j as int]);
        }
        let found = find_key(&v, k);
        match found {
            Some(t) => {
                proof {
                    assert(crate::backward::grad_keys(v@)[t as int] == k.0);
                    assert(crate::backward::grad_keys(v@).contains(k.0));
                }
                let nh = add_into(h, &v[t].1);
                out.push((k, nh));
            },
            None => {
                proof {
                    if crate::backward::grad_keys(v@).contains(k.0) {
                        let t = choose|t: int| 0 <= t < crate::backward::grad_keys(v@).len() && crate::backward::grad_keys(v@)[t] == k.0;
                        assert(v@[t].0 == k);
                    }
                }
                out.push((k, h));
            },
        }
        proof {
            assert(rest@ =~= held0.subrange(j + 1, n as int));
        }
        j = j + 1;
    }
    *held = out;
    proof {
        assert(ones_like(seed_g, *loss));
        assert(backward_run(g0, nk, root.0, w.0, seed_g, local, plus_fn, w.1, w.2));
        assert(held@.len() == held0.len());
        assert forall|j2: int| 0 <= j2 < held0.len() implies #[trigger] held@[j2].0 == held0[j2].0 && (reached_leaf(
            g0,
            nk,
            root.0,
            held0[j2].0.0,
        ) ==> accumulated(held0[j2].1, ins[held0[j2].0.0], held@[j2].1)) && (!reached_leaf(g0, nk, root.0, held0[j2].0.0)
            ==> held@[j2].1 == held0[j2].1) by {
            assert(out@[j2].0 == held0[j2].0);
        }
        assert(held0 == old(held)@);
        assert(g0 == old(ctx).graph());
        assert(nk == old(ctx).none_node.0);
                assert(exists|seed: Grad<T>, ov: Seq<u64>, outs: Map<u64, Vec<Grad<T>>>, ins2: Map<u64, Grad<T>>|
            #![trigger backward_run(g0, nk, root.0, ov, seed, local, plus_fn, outs, ins2)]
            ones_like(seed, *loss) && backward_run(g0, nk, root.0, ov, seed, local, plus_fn, outs, ins2)
                && held@.len() == held0.len() && forall|j2: int|
                0 <= j2 < held0.len() ==> #[trigger] held@[j2].0 == held0[j2].0 && (reached_leaf(g0, nk, root.0, held0[j2].0.0)
                    ==> accumulated(held0[j2].1, ins2[held0[j2].0.0], held@[j2].1)) && (!reached_leaf(g0, nk, root.0, held0[j2].0.0)
                    ==> held@[j2].1 == held0[j2].1));
    }
    Ok(())
}

} // verus!

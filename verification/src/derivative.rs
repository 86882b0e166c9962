//! The local derivative rules of the backward pass: for an operation, the
//! gradient handed to its input(s) given the tensors the forward pass kept
//! and the gradient `upstream` of its output. Each rule is the tensor
//! arithmetic of its formula, and its contract states every element of the
//! result as the chain of float operations that gives it.
use vstd::prelude::*;
use crate::broadcast::{broadcast_reads, broadcast_shape, broadcast_strides, broadcastable, pairwise};
use crate::laws::law_row_major_elements;
use crate::access::{view_elems, AsView, TensorAccess};
use crate::backward::written_inverse;
use crate::error::{msg, TensorError};
use crate::grad::GradNode;
use crate::matmul::{matmul_accepts, matmul_result};
use crate::meta::{is_row_major, sizes_fit, Idx};
use crate::sums::{is_perm, perm_hits, permuted};
use crate::tensor::{distinct, TensorBase, TensorViewMut};
use crate::unary::{
    cos_value, cosh_value, cube_value, difference_value, exp_value, maps_all, neg_of, neg_value, one_of, one_value, product_value,
    quotient_of, quotient_value, reciprocal_value, sin_value, sinh_value, square_value, sum_of, sum_value,
};

verus! {

broadcast use crate::tensor::group_tensor_parts;

/// A gradient of the shape `shape`, held row-major from offset 0.
pub open spec fn grad_like<T>(g: TensorBase<T>, shape: Seq<usize>) -> bool {
    &&& g.wf()
    &&& g.spec_shape() == shape
    &&& is_row_major(g.spec_shape(), g.spec_strides())
    &&& g.spec_offset() == 0
}

/// Read through the broadcast of its shape with itself, a tensor gives its
/// own elements.
proof fn lemma_same_shape_reads<T>(data: Seq<T>, s: Seq<usize>, st: Seq<isize>, off: int)
    requires
        st.len() == s.len(),
    ensures
        broadcastable(s, s),
        broadcast_shape(s, s) == s,
        broadcast_reads(data, s, st, off, s) == crate::layout::gather(data, crate::layout::layout_positions(s, st, off)),
{
    assert(broadcast_shape(s, s) =~= s);
    assert(broadcast_strides(s, st, s) =~= st);
}

/// The product, element by element, of two tensors of one shape.
fn times<T: Copy + num_traits::Float>(a: &TensorBase<T>, b: &TensorBase<T>) -> (g: TensorBase<T>)
    requires
        a.wf(),
        b.wf(),
        b.spec_shape() == a.spec_shape(),
        sizes_fit(a.spec_shape()),
    ensures
        grad_like(g, a.spec_shape()),
        g.elems().len() == a.elems().len(),
        forall|k: int| 0 <= k < a.elems().len() ==> #[trigger] product_value(a.elems()[k], b.elems()[k], g.elems()[k]),
{
    proof {
        lemma_same_shape_reads(a.data(), a.spec_shape(), a.spec_strides(), a.spec_offset() as int);
        lemma_same_shape_reads(b.data(), b.spec_shape(), b.spec_strides(), b.spec_offset() as int);
        crate::layout::lemma_positions_len(a.spec_shape(), a.spec_strides(), 0, a.spec_offset() as int);
    }
    let g = a.mul_tensor(b);
    proof {
        law_row_major_elements(g.data(), g.spec_shape(), g.spec_strides());
        assert forall|k: int| 0 <= k < a.elems().len() implies #[trigger] product_value(a.elems()[k], b.elems()[k], g.elems()[k]) by {
            assert(g.data()[k] == g.elems()[k]);
        }
    }
    g
}

/// The quotient, element by element, of two tensors of one shape.
fn over<T: Copy + num_traits::Float>(a: &TensorBase<T>, b: &TensorBase<T>) -> (g: TensorBase<T>)
    requires
        a.wf(),
        b.wf(),
        b.spec_shape() == a.spec_shape(),
        sizes_fit(a.spec_shape()),
    ensures
        grad_like(g, a.spec_shape()),
        g.elems().len() == a.elems().len(),
        forall|k: int| 0 <= k < a.elems().len() ==> #[trigger] quotient_value(a.elems()[k], b.elems()[k], g.elems()[k]),
{
    proof {
        lemma_same_shape_reads(a.data(), a.spec_shape(), a.spec_strides(), a.spec_offset() as int);
        lemma_same_shape_reads(b.data(), b.spec_shape(), b.spec_strides(), b.spec_offset() as int);
        crate::layout::lemma_positions_len(a.spec_shape(), a.spec_strides(), 0, a.spec_offset() as int);
    }
    let g = a.div_tensor(b);
    proof {
        law_row_major_elements(g.data(), g.spec_shape(), g.spec_strides());
        assert forall|k: int| 0 <= k < a.elems().len() implies #[trigger] quotient_value(a.elems()[k], b.elems()[k], g.elems()[k]) by {
            assert(g.data()[k] == g.elems()[k]);
        }
    }
    g
}

/// `r` is `cos(x) * u`.
pub open spec fn sin_grad<T: num_traits::Float>(x: T, u: T, r: T) -> bool {
    exists|c: T| cos_value(x, c) && product_value(c, u, r)
}

/// The gradient through `sin` at `input`: `cos(x) * u` for each element
/// `x` of `input` and `u` of `upstream`.
pub fn backwards_sin<T: Copy + num_traits::Float>(input: &TensorBase<T>, upstream: &TensorBase<T>) -> (g: TensorBase<T>)
    requires
        input.wf(),
        upstream.wf(),
        upstream.spec_shape() == input.spec_shape(),
        sizes_fit(input.spec_shape()),
    ensures
        grad_like(g, input.spec_shape()),
        pairwise(input.elems(), upstream.elems(), g.elems(), |x: T, u: T, r: T| sin_grad(x, u, r)),
{
    let c = input.cos();
    let g = times(&c, upstream);
    proof {
        assert forall|k: int| 0 <= k < g.elems().len() implies sin_grad(input.elems()[k], upstream.elems()[k], #[trigger] g.elems()[k]) by {
            assert(cos_value(input.elems()[k], c.elems()[k]));
            assert(product_value(c.elems()[k], upstream.elems()[k], g.elems()[k]));
        }
    }
    g
}

/// `r` is `-sin(x) * u` for `x` and `u`, each step by the float operations.
pub open spec fn cos_grad<T: num_traits::Float>(x: T, u: T, r: T) -> bool {
    exists|s: T, n: T| sin_value(x, s) && neg_value(s, n) && product_value(n, u, r)
}

/// The gradient through the operation at `input`: `-sin(x) * u`, for each element
/// `x` of `input` and `u` of `upstream`.
pub fn backwards_cos<T: Copy + num_traits::Float>(input: &TensorBase<T>, upstream: &TensorBase<T>) -> (g: TensorBase<T>)
    requires
        input.wf(),
        upstream.wf(),
        upstream.spec_shape() == input.spec_shape(),
        sizes_fit(input.spec_shape()),
    ensures
        grad_like(g, input.spec_shape()),
        pairwise(input.elems(), upstream.elems(), g.elems(), |x: T, u: T, r: T| cos_grad(x, u, r)),
{
    let s = input.sin();
    let n = s.neg();
    let g = times(&n, upstream);
    proof {
        assert forall|k: int| 0 <= k < g.elems().len() implies cos_grad(input.elems()[k], upstream.elems()[k], #[trigger] g.elems()[k]) by {
            assert(sin_value(input.elems()[k], s.elems()[k]));
            assert(neg_value(s.elems()[k], n.elems()[k]));
            assert(product_value(n.elems()[k], upstream.elems()[k], g.elems()[k]));
        }
    }
    g
}

/// `r` is `(1 / cos(x)^2) * u` for `x` and `u`, each step by the float operations.
pub open spec fn tan_grad<T: num_traits::Float>(x: T, u: T, r: T) -> bool {
    exists|c: T, q: T, p: T| cos_value(x, c) && square_value(c, q) && reciprocal_value(q, p) && product_value(p, u, r)
}

/// The gradient through the operation at `input`: `(1 / cos(x)^2) * u`, for each element
/// `x` of `input` and `u` of `upstream`.
pub fn backwards_tan<T: Copy + num_traits::Float>(input: &TensorBase<T>, upstream: &TensorBase<T>) -> (g: TensorBase<T>)
    requires
        input.wf(),
        upstream.wf(),
        upstream.spec_shape() == input.spec_shape(),
        sizes_fit(input.spec_shape()),
    ensures
        grad_like(g, input.spec_shape()),
        pairwise(input.elems(), upstream.elems(), g.elems(), |x: T, u: T, r: T| tan_grad(x, u, r)),
{
    let c = input.cos();
    let q = c.square();
    let p = q.reciprocal();
    let g = times(&p, upstream);
    proof {
        assert forall|k: int| 0 <= k < g.elems().len() implies tan_grad(input.elems()[k], upstream.elems()[k], #[trigger] g.elems()[k]) by {
            assert(cos_value(input.elems()[k], c.elems()[k]));
            assert(square_value(c.elems()[k], q.elems()[k]));
            assert(reciprocal_value(q.elems()[k], p.elems()[k]));
            assert(product_value(p.elems()[k], upstream.elems()[k], g.elems()[k]));
        }
    }
    g
}

/// `r` is `cosh(x) * u` for `x` and `u`, each step by the float operations.
pub open spec fn sinh_grad<T: num_traits::Float>(x: T, u: T, r: T) -> bool {
    exists|c: T| cosh_value(x, c) && product_value(c, u, r)
}

/// The gradient through the operation at `input`: `cosh(x) * u`, for each element
/// `x` of `input` and `u` of `upstream`.
pub fn backwards_sinh<T: Copy + num_traits::Float>(input: &TensorBase<T>, upstream: &TensorBase<T>) -> (g: TensorBase<T>)
    requires
        input.wf(),
        upstream.wf(),
        upstream.spec_shape() == input.spec_shape(),
        sizes_fit(input.spec_shape()),
    ensures
        grad_like(g, input.spec_shape()),
        pairwise(input.elems(), upstream.elems(), g.elems(), |x: T, u: T, r: T| sinh_grad(x, u, r)),
{
    let c = input.cosh();
    let g = times(&c, upstream);
    proof {
        assert forall|k: int| 0 <= k < g.elems().len() implies sinh_grad(input.elems()[k], upstream.elems()[k], #[trigger] g.elems()[k]) by {
            assert(cosh_value(input.elems()[k], c.elems()[k]));
            assert(product_value(c.elems()[k], upstream.elems()[k], g.elems()[k]));
        }
    }
    g
}

/// `r` is `sinh(x) * u` for `x` and `u`, each step by the float operations.
pub open spec fn cosh_grad<T: num_traits::Float>(x: T, u: T, r: T) -> bool {
    exists|c: T| sinh_value(x, c) && product_value(c, u, r)
}

/// The gradient through the operation at `input`: `sinh(x) * u`, for each element
/// `x` of `input` and `u` of `upstream`.
pub fn backwards_cosh<T: Copy + num_traits::Float>(input: &TensorBase<T>, upstream: &TensorBase<T>) -> (g: TensorBase<T>)
    requires
        input.wf(),
        upstream.wf(),
        upstream.spec_shape() == input.spec_shape(),
        sizes_fit(input.spec_shape()),
    ensures
        grad_like(g, input.spec_shape()),
        pairwise(input.elems(), upstream.elems(), g.elems(), |x: T, u: T, r: T| cosh_grad(x, u, r)),
{
    let c = input.sinh();
    let g = times(&c, upstream);
    proof {
        assert forall|k: int| 0 <= k < g.elems().len() implies cosh_grad(input.elems()[k], upstream.elems()[k], #[trigger] g.elems()[k]) by {
            assert(sinh_value(input.elems()[k], c.elems()[k]));
            assert(product_value(c.elems()[k], upstream.elems()[k], g.elems()[k]));
        }
    }
    g
}

/// `r` is `exp(x) * u` for `x` and `u`, each step by the float operations.
pub open spec fn expm1_grad<T: num_traits::Float>(x: T, u: T, r: T) -> bool {
    exists|c: T| exp_value(x, c) && product_value(c, u, r)
}

/// The gradient through the operation at `input`: `exp(x) * u`, for each element
/// `x` of `input` and `u` of `upstream`.
pub fn backwards_expm1<T: Copy + num_traits::Float>(input: &TensorBase<T>, upstream: &TensorBase<T>) -> (g: TensorBase<T>)
    requires
        input.wf(),
        upstream.wf(),
        upstream.spec_shape() == input.spec_shape(),
        sizes_fit(input.spec_shape()),
    ensures
        grad_like(g, input.spec_shape()),
        pairwise(input.elems(), upstream.elems(), g.elems(), |x: T, u: T, r: T| expm1_grad(x, u, r)),
{
    let c = input.exp();
    let g = times(&c, upstream);
    proof {
        assert forall|k: int| 0 <= k < g.elems().len() implies expm1_grad(input.elems()[k], upstream.elems()[k], #[trigger] g.elems()[k]) by {
            assert(exp_value(input.elems()[k], c.elems()[k]));
            assert(product_value(c.elems()[k], upstream.elems()[k], g.elems()[k]));
        }
    }
    g
}

/// `r` is `(1 / (x + 1)) * u` for `x` and `u`, each step by the float operations.
pub open spec fn ln1p_grad<T: num_traits::Float>(x: T, u: T, r: T) -> bool {
    exists|o: T, p: T, q: T| one_value(o) && sum_value(x, o, p) && reciprocal_value(p, q) && product_value(q, u, r)
}

/// The gradient through the operation at `input`: `(1 / (x + 1)) * u`, for each element
/// `x` of `input` and `u` of `upstream`.
pub fn backwards_ln1p<T: Copy + num_traits::Float>(input: &TensorBase<T>, upstream: &TensorBase<T>) -> (g: TensorBase<T>)
    requires
        input.wf(),
        upstream.wf(),
        upstream.spec_shape() == input.spec_shape(),
        sizes_fit(input.spec_shape()),
    ensures
        grad_like(g, input.spec_shape()),
        pairwise(input.elems(), upstream.elems(), g.elems(), |x: T, u: T, r: T| ln1p_grad(x, u, r)),
{
    let one = one_of::<T>();
    let p = input.add_scalar(one);
    let q = p.reciprocal();
    let g = times(&q, upstream);
    proof {
        assert forall|k: int| 0 <= k < g.elems().len() implies ln1p_grad(input.elems()[k], upstream.elems()[k], #[trigger] g.elems()[k]) by {
            assert(sum_value(input.elems()[k], one, p.elems()[k]));
            assert(reciprocal_value(p.elems()[k], q.elems()[k]));
            assert(product_value(q.elems()[k], upstream.elems()[k], g.elems()[k]));
        }
    }
    g
}

/// `r` is `x * 2 * u` for `x` and `u`, each step by the float operations.
pub open spec fn square_grad<T: num_traits::Float>(x: T, u: T, r: T) -> bool {
    exists|o: T, t: T, a: T| one_value(o) && sum_value(o, o, t) && product_value(x, t, a) && product_value(a, u, r)
}

/// The gradient through the operation at `input`: `x * 2 * u`, with `2` as `1 + 1`, for each element
/// `x` of `input` and `u` of `upstream`.
pub fn backwards_square<T: Copy + num_traits::Float>(input: &TensorBase<T>, upstream: &TensorBase<T>) -> (g: TensorBase<T>)
    requires
        input.wf(),
        upstream.wf(),
        upstream.spec_shape() == input.spec_shape(),
        sizes_fit(input.spec_shape()),
    ensures
        grad_like(g, input.spec_shape()),
        pairwise(input.elems(), upstream.elems(), g.elems(), |x: T, u: T, r: T| square_grad(x, u, r)),
{
    let one = one_of::<T>();
    let two = sum_of(one, one);
    let a = input.mul_scalar(two);
    let g = times(&a, upstream);
    proof {
        assert forall|k: int| 0 <= k < g.elems().len() implies square_grad(input.elems()[k], upstream.elems()[k], #[trigger] g.elems()[k]) by {
            assert(product_value(input.elems()[k], two, a.elems()[k]));
            assert(product_value(a.elems()[k], upstream.elems()[k], g.elems()[k]));
        }
    }
    g
}

/// `r` is `x^2 * 3 * u` for `x` and `u`, each step by the float operations.
pub open spec fn cube_grad<T: num_traits::Float>(x: T, u: T, r: T) -> bool {
    exists|o: T, t: T, h: T, q: T, a: T| one_value(o) && sum_value(o, o, t) && sum_value(t, o, h) && square_value(x, q) && product_value(q, h, a) && product_value(a, u, r)
}

/// The gradient through the operation at `input`: `x^2 * 3 * u`, with `3` as `(1 + 1) + 1`, for each element
/// `x` of `input` and `u` of `upstream`.
pub fn backwards_cube<T: Copy + num_traits::Float>(input: &TensorBase<T>, upstream: &TensorBase<T>) -> (g: TensorBase<T>)
    requires
        input.wf(),
        upstream.wf(),
        upstream.spec_shape() == input.spec_shape(),
        sizes_fit(input.spec_shape()),
    ensures
        grad_like(g, input.spec_shape()),
        pairwise(input.elems(), upstream.elems(), g.elems(), |x: T, u: T, r: T| cube_grad(x, u, r)),
{
    let one = one_of::<T>();
    let two = sum_of(one, one);
    let three = sum_of(two, one);
    let q = input.square();
    let a = q.mul_scalar(three);
    let g = times(&a, upstream);
    proof {
        assert forall|k: int| 0 <= k < g.elems().len() implies cube_grad(input.elems()[k], upstream.elems()[k], #[trigger] g.elems()[k]) by {
            assert(square_value(input.elems()[k], q.elems()[k]));
            assert(product_value(q.elems()[k], three, a.elems()[k]));
            assert(product_value(a.elems()[k], upstream.elems()[k], g.elems()[k]));
        }
    }
    g
}

/// `r` is `(1 - y^2) * u` for the forward result `y` for `x` and `u`, each step by the float operations.
pub open spec fn tanh_grad<T: num_traits::Float>(x: T, u: T, r: T) -> bool {
    exists|o: T, q: T, n: T, p: T| one_value(o) && square_value(x, q) && neg_value(q, n) && sum_value(n, o, p) && product_value(p, u, r)
}

/// The gradient through the operation at `result`: `(1 - y^2) * u` for the forward result `y`, as `(-(y^2) + 1) * u`, for each element
/// `x` of `result` and `u` of `upstream`.
pub fn backwards_tanh<T: Copy + num_traits::Float>(result: &TensorBase<T>, upstream: &TensorBase<T>) -> (g: TensorBase<T>)
    requires
        result.wf(),
        upstream.wf(),
        upstream.spec_shape() == result.spec_shape(),
        sizes_fit(result.spec_shape()),
    ensures
        grad_like(g, result.spec_shape()),
        pairwise(result.elems(), upstream.elems(), g.elems(), |x: T, u: T, r: T| tanh_grad(x, u, r)),
{
    let one = one_of::<T>();
    let q = result.square();
    let n = q.neg();
    let p = n.add_scalar(one);
    let g = times(&p, upstream);
    proof {
        assert forall|k: int| 0 <= k < g.elems().len() implies tanh_grad(result.elems()[k], upstream.elems()[k], #[trigger] g.elems()[k]) by {
            assert(square_value(result.elems()[k], q.elems()[k]));
            assert(neg_value(q.elems()[k], n.elems()[k]));
            assert(sum_value(n.elems()[k], one, p.elems()[k]));
            assert(product_value(p.elems()[k], upstream.elems()[k], g.elems()[k]));
        }
    }
    g
}

/// `r` is `-(y^2) * u` for the forward result `y` for `x` and `u`, each step by the float operations.
pub open spec fn reciprocal_grad<T: num_traits::Float>(x: T, u: T, r: T) -> bool {
    exists|q: T, n: T| square_value(x, q) && neg_value(q, n) && product_value(n, u, r)
}

/// The gradient through the operation at `result`: `-(y^2) * u` for the forward result `y`, for each element
/// `x` of `result` and `u` of `upstream`.
pub fn backwards_reciprocal<T: Copy + num_traits::Float>(result: &TensorBase<T>, upstream: &TensorBase<T>) -> (g: TensorBase<T>)
    requires
        result.wf(),
        upstream.wf(),
        upstream.spec_shape() == result.spec_shape(),
        sizes_fit(result.spec_shape()),
    ensures
        grad_like(g, result.spec_shape()),
        pairwise(result.elems(), upstream.elems(), g.elems(), |x: T, u: T, r: T| reciprocal_grad(x, u, r)),
{
    let q = result.square();
    let n = q.neg();
    let g = times(&n, upstream);
    proof {
        assert forall|k: int| 0 <= k < g.elems().len() implies reciprocal_grad(result.elems()[k], upstream.elems()[k], #[trigger] g.elems()[k]) by {
            assert(square_value(result.elems()[k], q.elems()[k]));
            assert(neg_value(q.elems()[k], n.elems()[k]));
            assert(product_value(n.elems()[k], upstream.elems()[k], g.elems()[k]));
        }
    }
    g
}

/// `r` is `y^3 * (-1/2) * u` for the forward result `y` for `x` and `u`, each step by the float operations.
pub open spec fn rsqrt_grad<T: num_traits::Float>(x: T, u: T, r: T) -> bool {
    exists|o: T, t: T, h: T, m: T, c: T, a: T| one_value(o) && sum_value(o, o, t) && quotient_value(o, t, h) && neg_value(h, m) && cube_value(x, c) && product_value(c, m, a) && product_value(a, u, r)
}

/// The gradient through the operation at `result`: `y^3 * (-1/2) * u` for the forward result `y`, with `-1/2` as `-(1 / (1 + 1))`, for each element
/// `x` of `result` and `u` of `upstream`.
pub fn backwards_rsqrt<T: Copy + num_traits::Float>(result: &TensorBase<T>, upstream: &TensorBase<T>) -> (g: TensorBase<T>)
    requires
        result.wf(),
        upstream.wf(),
        upstream.spec_shape() == result.spec_shape(),
        sizes_fit(result.spec_shape()),
    ensures
        grad_like(g, result.spec_shape()),
        pairwise(result.elems(), upstream.elems(), g.elems(), |x: T, u: T, r: T| rsqrt_grad(x, u, r)),
{
    let one = one_of::<T>();
    let two = sum_of(one, one);
    let half = quotient_of(one, two);
    let neg_half = neg_of(half);
    let c = result.cube();
    let a = c.mul_scalar(neg_half);
    let g = times(&a, upstream);
    proof {
        assert forall|k: int| 0 <= k < g.elems().len() implies rsqrt_grad(result.elems()[k], upstream.elems()[k], #[trigger] g.elems()[k]) by {
            assert(cube_value(result.elems()[k], c.elems()[k]));
            assert(product_value(c.elems()[k], neg_half, a.elems()[k]));
            assert(product_value(a.elems()[k], upstream.elems()[k], g.elems()[k]));
        }
    }
    g
}

/// `r` is `y * u` for the forward result `y` for `x` and `u`, each step by the float operations.
pub open spec fn exp_grad<T: num_traits::Float>(x: T, u: T, r: T) -> bool {
    product_value(x, u, r)
}

/// The gradient through the operation at `result`: `y * u` for the forward result `y`, for each element
/// `x` of `result` and `u` of `upstream`.
pub fn backwards_exp<T: Copy + num_traits::Float>(result: &TensorBase<T>, upstream: &TensorBase<T>) -> (g: TensorBase<T>)
    requires
        result.wf(),
        upstream.wf(),
        upstream.spec_shape() == result.spec_shape(),
        sizes_fit(result.spec_shape()),
    ensures
        grad_like(g, result.spec_shape()),
        pairwise(result.elems(), upstream.elems(), g.elems(), |x: T, u: T, r: T| exp_grad(x, u, r)),
{
    let g = times(result, upstream);
    proof {
        assert forall|k: int| 0 <= k < g.elems().len() implies exp_grad(result.elems()[k], upstream.elems()[k], #[trigger] g.elems()[k]) by {
            assert(product_value(result.elems()[k], upstream.elems()[k], g.elems()[k]));
        }
    }
    g
}

/// `r` is `(1 / x) * u` for `x` and `u`, each step by the float operations.
pub open spec fn ln_grad<T: num_traits::Float>(x: T, u: T, r: T) -> bool {
    product_value(x, u, r)
}

/// The gradient through the operation at `x_reciprocal`: `(1 / x) * u`, given the reciprocals `1 / x` kept by the forward pass, for each element
/// `x` of `x_reciprocal` and `u` of `upstream`.
pub fn backwards_ln<T: Copy + num_traits::Float>(x_reciprocal: &TensorBase<T>, upstream: &TensorBase<T>) -> (g: TensorBase<T>)
    requires
        x_reciprocal.wf(),
        upstream.wf(),
        upstream.spec_shape() == x_reciprocal.spec_shape(),
        sizes_fit(x_reciprocal.spec_shape()),
    ensures
        grad_like(g, x_reciprocal.spec_shape()),
        pairwise(x_reciprocal.elems(), upstream.elems(), g.elems(), |x: T, u: T, r: T| ln_grad(x, u, r)),
{
    let g = times(x_reciprocal, upstream);
    proof {
        assert forall|k: int| 0 <= k < g.elems().len() implies ln_grad(x_reciprocal.elems()[k], upstream.elems()[k], #[trigger] g.elems()[k]) by {
            assert(product_value(x_reciprocal.elems()[k], upstream.elems()[k], g.elems()[k]));
        }
    }
    g
}

/// `r` is `m * u` for the mask `m` (1 where the input was positive for `x` and `u`, each step by the float operations.
pub open spec fn relu_grad<T: num_traits::Float>(x: T, u: T, r: T) -> bool {
    product_value(x, u, r)
}

/// The gradient through the operation at `grad_map`: `m * u` for the mask `m` (1 where the input was positive, else 0) kept by the forward pass, for each element
/// `x` of `grad_map` and `u` of `upstream`.
pub fn backwards_relu<T: Copy + num_traits::Float>(grad_map: &TensorBase<T>, upstream: &TensorBase<T>) -> (g: TensorBase<T>)
    requires
        grad_map.wf(),
        upstream.wf(),
        upstream.spec_shape() == grad_map.spec_shape(),
        sizes_fit(grad_map.spec_shape()),
    ensures
        grad_like(g, grad_map.spec_shape()),
        pairwise(grad_map.elems(), upstream.elems(), g.elems(), |x: T, u: T, r: T| relu_grad(x, u, r)),
{
    let g = times(grad_map, upstream);
    proof {
        assert forall|k: int| 0 <= k < g.elems().len() implies relu_grad(grad_map.elems()[k], upstream.elems()[k], #[trigger] g.elems()[k]) by {
            assert(product_value(grad_map.elems()[k], upstream.elems()[k], g.elems()[k]));
        }
    }
    g
}

/// `r` is `m * u` for the signs `m` of the input kept by the forward pass for `x` and `u`, each step by the float operations.
pub open spec fn abs_grad<T: num_traits::Float>(x: T, u: T, r: T) -> bool {
    product_value(x, u, r)
}

/// The gradient through the operation at `grad_map`: `m * u` for the signs `m` of the input kept by the forward pass, for each element
/// `x` of `grad_map` and `u` of `upstream`.
pub fn backwards_abs<T: Copy + num_traits::Float>(grad_map: &TensorBase<T>, upstream: &TensorBase<T>) -> (g: TensorBase<T>)
    requires
        grad_map.wf(),
        upstream.wf(),
        upstream.spec_shape() == grad_map.spec_shape(),
        sizes_fit(grad_map.spec_shape()),
    ensures
        grad_like(g, grad_map.spec_shape()),
        pairwise(grad_map.elems(), upstream.elems(), g.elems(), |x: T, u: T, r: T| abs_grad(x, u, r)),
{
    let g = times(grad_map, upstream);
    proof {
        assert forall|k: int| 0 <= k < g.elems().len() implies abs_grad(grad_map.elems()[k], upstream.elems()[k], #[trigger] g.elems()[k]) by {
            assert(product_value(grad_map.elems()[k], upstream.elems()[k], g.elems()[k]));
        }
    }
    g
}

/// `r` is `y * (1 - y) * u` for the forward result `y` for `x` and `u`, each step by the float operations.
pub open spec fn sigmoid_grad<T: num_traits::Float>(x: T, u: T, r: T) -> bool {
    exists|o: T, n: T, p: T, q: T| one_value(o) && neg_value(x, n) && sum_value(n, o, p) && product_value(x, p, q) && product_value(q, u, r)
}

/// The gradient through the operation at `result`: `y * (1 - y) * u` for the forward result `y`, as `(y * (-y + 1)) * u`, for each element
/// `x` of `result` and `u` of `upstream`.
pub fn backwards_sigmoid<T: Copy + num_traits::Float>(result: &TensorBase<T>, upstream: &TensorBase<T>) -> (g: TensorBase<T>)
    requires
        result.wf(),
        upstream.wf(),
        upstream.spec_shape() == result.spec_shape(),
        sizes_fit(result.spec_shape()),
    ensures
        grad_like(g, result.spec_shape()),
        pairwise(result.elems(), upstream.elems(), g.elems(), |x: T, u: T, r: T| sigmoid_grad(x, u, r)),
{
    let one = one_of::<T>();
    let n = result.neg();
    let p = n.add_scalar(one);
    let q = times(result, &p);
    let g = times(&q, upstream);
    proof {
        assert forall|k: int| 0 <= k < g.elems().len() implies sigmoid_grad(result.elems()[k], upstream.elems()[k], #[trigger] g.elems()[k]) by {
            assert(neg_value(result.elems()[k], n.elems()[k]));
            assert(sum_value(n.elems()[k], one, p.elems()[k]));
            assert(product_value(result.elems()[k], p.elems()[k], q.elems()[k]));
            assert(product_value(q.elems()[k], upstream.elems()[k], g.elems()[k]));
        }
    }
    g
}

/// The gradient through a negation: `-u` for each element `u` of `upstream`.
pub fn backwards_negate<T: Copy + num_traits::Float>(upstream: &TensorBase<T>) -> (g: TensorBase<T>)
    requires
        upstream.wf(),
        sizes_fit(upstream.spec_shape()),
    ensures
        g.wf(),
        g.spec_shape() == upstream.spec_shape(),
        is_row_major(g.spec_shape(), g.spec_strides()),
        maps_all(upstream.elems(), g.elems(), |u: T, r: T| neg_value(u, r)),
{
    upstream.neg()
}

/// `r` is `u / (y * 2)`, with `2` as `1 + 1`, each step by the float
/// operations.
pub open spec fn sqrt_grad<T: num_traits::Float>(y: T, u: T, r: T) -> bool {
    exists|o: T, t: T, d: T| one_value(o) && sum_value(o, o, t) && product_value(y, t, d) && quotient_value(u, d, r)
}

/// The gradient through a square root with forward result `output`:
/// `u / (y * 2)` for each element `y` of `output` and `u` of `upstream`.
pub fn backwards_sqrt<T: Copy + num_traits::Float>(output: &TensorBase<T>, upstream: &TensorBase<T>) -> (g: TensorBase<T>)
    requires
        output.wf(),
        upstream.wf(),
        upstream.spec_shape() == output.spec_shape(),
        sizes_fit(output.spec_shape()),
    ensures
        grad_like(g, output.spec_shape()),
        pairwise(output.elems(), upstream.elems(), g.elems(), |y: T, u: T, r: T| sqrt_grad(y, u, r)),
{
    let one = one_of::<T>();
    let two = sum_of(one, one);
    let d = output.mul_scalar(two);
    let g = over(upstream, &d);
    proof {
        crate::layout::lemma_positions_len(output.spec_shape(), output.spec_strides(), 0, output.spec_offset() as int);
        crate::layout::lemma_positions_len(upstream.spec_shape(), upstream.spec_strides(), 0, upstream.spec_offset() as int);
        assert forall|k: int| 0 <= k < g.elems().len() implies sqrt_grad(output.elems()[k], upstream.elems()[k], #[trigger] g.elems()[k]) by {
            assert(product_value(output.elems()[k], two, d.elems()[k]));
            assert(quotient_value(upstream.elems()[k], d.elems()[k], g.elems()[k]));
        }
    }
    g
}

/// The gradient through adding a scalar: `upstream` itself, as a row-major
/// copy.
pub fn backwards_add_scalar<T: Copy + num_traits::Float>(upstream: &TensorBase<T>) -> (g: TensorBase<T>)
    requires
        upstream.wf(),
        sizes_fit(upstream.spec_shape()),
    ensures
        g.wf(),
        g.spec_shape() == upstream.spec_shape(),
        is_row_major(g.spec_shape(), g.spec_strides()),
        g.elems() == upstream.elems(),
{
    crate::access::AsTensor::contiguous(upstream)
}

/// The gradient through multiplying by the scalar `s`: `u * s` for each
/// element `u` of `upstream`.
pub fn backwards_mul_scalar<T: Copy + num_traits::Float>(upstream: &TensorBase<T>, s: T) -> (g: TensorBase<T>)
    requires
        upstream.wf(),
        sizes_fit(upstream.spec_shape()),
    ensures
        g.wf(),
        g.spec_shape() == upstream.spec_shape(),
        is_row_major(g.spec_shape(), g.spec_strides()),
        maps_all(upstream.elems(), g.elems(), |u: T, r: T| product_value(u, s, r)),
{
    upstream.mul_scalar(s)
}

/// The gradient through dividing by the scalar `s`: `u / s` for each
/// element `u` of `upstream`.
pub fn backwards_div_scalar<T: Copy + num_traits::Float>(upstream: &TensorBase<T>, s: T) -> (g: TensorBase<T>)
    requires
        upstream.wf(),
        sizes_fit(upstream.spec_shape()),
    ensures
        g.wf(),
        g.spec_shape() == upstream.spec_shape(),
        is_row_major(g.spec_shape(), g.spec_strides()),
        maps_all(upstream.elems(), g.elems(), |u: T, r: T| quotient_value(u, s, r)),
{
    upstream.div_scalar(s)
}

/// `r` is `-m * u`, each step by the float operations.
pub open spec fn neg_times<T: num_traits::Float>(m: T, u: T, r: T) -> bool {
    exists|n: T| neg_value(m, n) && product_value(n, u, r)
}

/// The elements of `u` as `n` gradient elements meet them: its own
/// elements, or, when `u` has rank 0, its one element at every place.
pub open spec fn spread<T>(u: TensorBase<T>, n: nat) -> Seq<T> {
    if u.spec_shape().len() == 0 {
        Seq::new(n, |k: int| u.elems()[0])
    } else {
        u.elems()
    }
}

/// A row-major tensor of the shape of `t` with every element `v`.
pub(crate) fn full_like<T: Copy>(t: &TensorBase<T>, v: T) -> (f: TensorBase<T>)
    requires
        t.wf(),
        sizes_fit(t.spec_shape()),
    ensures
        grad_like(f, t.spec_shape()),
        f.elems().len() == t.elems().len(),
        forall|k: int| 0 <= k < f.elems().len() ==> #[trigger] f.elems()[k] == v,
{
    let shape = t.shape().clone();
    proof {
        crate::layout::lemma_positions_len(t.spec_shape(), t.spec_strides(), 0, t.spec_offset() as int);
        assert(sizes_fit(shape@) ==> crate::layout::size_from(shape@, 0) <= isize::MAX);
    }
    let n = crate::meta::shape_size_of(&shape);
    let buf = crate::conv::filled_vec(v, n);
    let strides = crate::meta::shape_to_stride(&shape);
    proof {
        crate::fits::lemma_row_major_fits(shape@, strides@, buf@.len() as int);
    }
    let f = TensorBase::from_parts(buf, crate::meta::MetaTensor::new(shape, strides, 0));
    proof {
        law_row_major_elements(f.data(), f.spec_shape(), f.spec_strides());
    }
    f
}

/// The single element of a rank-0 tensor.
fn single<T: Copy>(u: &TensorBase<T>) -> (x: T)
    requires
        u.wf(),
        u.spec_shape().len() == 0,
    ensures
        u.elems().len() == 1,
        x == u.elems()[0],
{
    proof {
        crate::layout::lemma_positions_len(u.spec_shape(), u.spec_strides(), 0, u.spec_offset() as int);
        assert(u.spec_positions() == seq![u.spec_offset()]);
        assert(crate::layout::valid_coord(u.spec_shape(), Seq::<usize>::empty()));
        assert(crate::layout::lin_from(Seq::<usize>::empty(), u.spec_strides(), 0) == 0);
    }
    let off = u.offset();
    u.buffer()[off]
}

/// The gradients through the L1 loss, for the input and for the target:
/// `m * u` and `-m * u` for each element `m` of the signs kept by the
/// forward pass and `u` of `upstream` (its one element, when it has rank
/// 0, as the gradient of a mean or sum loss).
pub fn backwards_l1<T: Copy + num_traits::Float>(grad_map: &TensorBase<T>, upstream: &TensorBase<T>) -> (gs: (TensorBase<T>, TensorBase<T>))
    requires
        grad_map.wf(),
        upstream.wf(),
        upstream.spec_shape() == grad_map.spec_shape() || upstream.spec_shape().len() == 0,
        sizes_fit(grad_map.spec_shape()),
    ensures
        grad_like(gs.0, grad_map.spec_shape()),
        grad_like(gs.1, grad_map.spec_shape()),
        pairwise(
            grad_map.elems(),
            spread(*upstream, grad_map.elems().len()),
            gs.0.elems(),
            |m: T, u: T, r: T| product_value(m, u, r),
        ),
        pairwise(grad_map.elems(), spread(*upstream, grad_map.elems().len()), gs.1.elems(), |m: T, u: T, r: T| neg_times(m, u, r)),
{
    let full;
    let up: &TensorBase<T> = if upstream.shape().len() == 0 {
        let x = single(upstream);
        full = full_like(grad_map, x);
        &full
    } else {
        upstream
    };
    let ghost us = spread(*upstream, grad_map.elems().len());
    proof {
        crate::layout::lemma_positions_len(grad_map.spec_shape(), grad_map.spec_strides(), 0, grad_map.spec_offset() as int);
        crate::layout::lemma_positions_len(upstream.spec_shape(), upstream.spec_strides(), 0, upstream.spec_offset() as int);
        assert forall|k: int| 0 <= k < grad_map.elems().len() implies #[trigger] up.elems()[k] == us[k] by {}
    }
    let g0 = times(grad_map, up);
    let n = grad_map.neg();
    let g1 = times(&n, up);
    proof {
        assert forall|k: int| 0 <= k < g1.elems().len() implies neg_times(grad_map.elems()[k], us[k], #[trigger] g1.elems()[k]) by {
            assert(neg_value(grad_map.elems()[k], n.elems()[k]));
            assert(up.elems()[k] == us[k]);
            assert(product_value(n.elems()[k], up.elems()[k], g1.elems()[k]));
        }
        assert forall|k: int| 0 <= k < g0.elems().len() implies product_value(grad_map.elems()[k], us[k], #[trigger] g0.elems()[k]) by {
            assert(up.elems()[k] == us[k]);
        }
    }
    (g0, g1)
}

/// The gradients through a sum of two tensors of one shape: `u` for each
/// operand, as row-major copies of `upstream`.
pub fn backwards_add<T: Copy + num_traits::Float>(upstream: &TensorBase<T>) -> (gs: (TensorBase<T>, TensorBase<T>))
    requires
        upstream.wf(),
        sizes_fit(upstream.spec_shape()),
    ensures
        gs.0.wf() && gs.0.spec_shape() == upstream.spec_shape() && gs.0.elems() == upstream.elems(),
        gs.1.wf() && gs.1.spec_shape() == upstream.spec_shape() && gs.1.elems() == upstream.elems(),
{
    (crate::access::AsTensor::contiguous(upstream), crate::access::AsTensor::contiguous(upstream))
}

/// The gradients through a difference of two tensors of one shape: `u` for
/// the left operand and `-u` for the right one.
pub fn backwards_sub<T: Copy + num_traits::Float>(upstream: &TensorBase<T>) -> (gs: (TensorBase<T>, TensorBase<T>))
    requires
        upstream.wf(),
        sizes_fit(upstream.spec_shape()),
    ensures
        gs.0.wf() && gs.0.spec_shape() == upstream.spec_shape() && gs.0.elems() == upstream.elems(),
        gs.1.wf() && gs.1.spec_shape() == upstream.spec_shape(),
        maps_all(upstream.elems(), gs.1.elems(), |u: T, r: T| neg_value(u, r)),
{
    (crate::access::AsTensor::contiguous(upstream), upstream.neg())
}

/// The gradients through a product of two tensors of one shape: `u * b`
/// for the left operand `a` and `u * a` for the right operand `b`.
pub fn backwards_mul<T: Copy + num_traits::Float>(
    lhs_input: &TensorBase<T>,
    rhs_input: &TensorBase<T>,
    upstream: &TensorBase<T>,
) -> (gs: (TensorBase<T>, TensorBase<T>))
    requires
        lhs_input.wf(),
        rhs_input.wf(),
        upstream.wf(),
        rhs_input.spec_shape() == lhs_input.spec_shape(),
        upstream.spec_shape() == lhs_input.spec_shape(),
        sizes_fit(lhs_input.spec_shape()),
    ensures
        grad_like(gs.0, lhs_input.spec_shape()),
        grad_like(gs.1, lhs_input.spec_shape()),
        pairwise(upstream.elems(), rhs_input.elems(), gs.0.elems(), |u: T, b: T, r: T| product_value(u, b, r)),
        pairwise(upstream.elems(), lhs_input.elems(), gs.1.elems(), |u: T, a: T, r: T| product_value(u, a, r)),
{
    let g0 = times(upstream, rhs_input);
    let g1 = times(upstream, lhs_input);
    proof {
        assert forall|k: int| 0 <= k < g0.elems().len() implies product_value(upstream.elems()[k], rhs_input.elems()[k], #[trigger] g0.elems()[k]) by {}
        assert forall|k: int| 0 <= k < g1.elems().len() implies product_value(upstream.elems()[k], lhs_input.elems()[k], #[trigger] g1.elems()[k]) by {}
    }
    (g0, g1)
}

/// `r` is `u * -(a * q^2)`, each step by the float operations.
pub open spec fn div_rhs_grad<T: num_traits::Float>(u: T, a: T, q: T, r: T) -> bool {
    exists|s: T, p: T, n: T| square_value(q, s) && product_value(a, s, p) && neg_value(p, n) && product_value(u, n, r)
}

/// The gradients through a quotient `a / b` of two tensors of one shape,
/// given `a` and the reciprocals `q = 1 / b` kept by the forward pass:
/// `u * q` for `a` and `u * -(a * q^2)` for `b`.
pub fn backwards_div<T: Copy + num_traits::Float>(
    lhs_input: &TensorBase<T>,
    rhs_input_reciprocal: &TensorBase<T>,
    upstream: &TensorBase<T>,
) -> (gs: (TensorBase<T>, TensorBase<T>))
    requires
        lhs_input.wf(),
        rhs_input_reciprocal.wf(),
        upstream.wf(),
        rhs_input_reciprocal.spec_shape() == lhs_input.spec_shape(),
        upstream.spec_shape() == lhs_input.spec_shape(),
        sizes_fit(lhs_input.spec_shape()),
    ensures
        grad_like(gs.0, lhs_input.spec_shape()),
        grad_like(gs.1, lhs_input.spec_shape()),
        pairwise(upstream.elems(), rhs_input_reciprocal.elems(), gs.0.elems(), |u: T, q: T, r: T| product_value(u, q, r)),
        forall|k: int|
            0 <= k < gs.1.elems().len() ==> #[trigger] div_rhs_grad(
                upstream.elems()[k],
                lhs_input.elems()[k],
                rhs_input_reciprocal.elems()[k],
                gs.1.elems()[k],
            ),
{
    let g0 = times(upstream, rhs_input_reciprocal);
    let s = rhs_input_reciprocal.square();
    let p = times(lhs_input, &s);
    let n = p.neg();
    let g1 = times(upstream, &n);
    proof {
        crate::layout::lemma_positions_len(lhs_input.spec_shape(), lhs_input.spec_strides(), 0, lhs_input.spec_offset() as int);
        crate::layout::lemma_positions_len(upstream.spec_shape(), upstream.spec_strides(), 0, upstream.spec_offset() as int);
        crate::layout::lemma_positions_len(rhs_input_reciprocal.spec_shape(), rhs_input_reciprocal.spec_strides(), 0, rhs_input_reciprocal.spec_offset() as int);
        assert forall|k: int| 0 <= k < g0.elems().len() implies product_value(upstream.elems()[k], rhs_input_reciprocal.elems()[k], #[trigger] g0.elems()[k]) by {}
        assert forall|k: int| 0 <= k < g1.elems().len() implies #[trigger] div_rhs_grad(
            upstream.elems()[k],
            lhs_input.elems()[k],
            rhs_input_reciprocal.elems()[k],
            g1.elems()[k],
        ) by {
            assert(square_value(rhs_input_reciprocal.elems()[k], s.elems()[k]));
            assert(product_value(lhs_input.elems()[k], s.elems()[k], p.elems()[k]));
            assert(neg_value(p.elems()[k], n.elems()[k]));
            assert(product_value(upstream.elems()[k], n.elems()[k], g1.elems()[k]));
        }
    }
    (g0, g1)
}

/// The difference, element by element, of two tensors of one shape.
fn minus<T: Copy + num_traits::Float>(a: &TensorBase<T>, b: &TensorBase<T>) -> (g: TensorBase<T>)
    requires
        a.wf(),
        b.wf(),
        b.spec_shape() == a.spec_shape(),
        sizes_fit(a.spec_shape()),
    ensures
        grad_like(g, a.spec_shape()),
        g.spec_offset() == 0,
        g.data() == g.elems(),
        g.elems().len() == a.elems().len(),
        forall|k: int| 0 <= k < a.elems().len() ==> #[trigger] difference_value(a.elems()[k], b.elems()[k], g.elems()[k]),
{
    proof {
        lemma_same_shape_reads(a.data(), a.spec_shape(), a.spec_strides(), a.spec_offset() as int);
        lemma_same_shape_reads(b.data(), b.spec_shape(), b.spec_strides(), b.spec_offset() as int);
        crate::layout::lemma_positions_len(a.spec_shape(), a.spec_strides(), 0, a.spec_offset() as int);
    }
    let g = a.sub_tensor(b);
    proof {
        law_row_major_elements(g.data(), g.spec_shape(), g.spec_strides());
        assert forall|k: int| 0 <= k < a.elems().len() implies #[trigger] difference_value(a.elems()[k], b.elems()[k], g.elems()[k]) by {
            assert(g.data()[k] == g.elems()[k]);
        }
    }
    g
}

/// `r` is `p - g * lr`, each step by the float operations.
pub open spec fn sgd_value<T: num_traits::Float>(p: T, g: T, lr: T, r: T) -> bool {
    exists|d: T| product_value(g, lr, d) && difference_value(p, d, r)
}

/// One step of stochastic gradient descent on a parameter: every element
/// `p` becomes `p - g * learning_rate` for its gradient `g`; the rest of the
/// buffer is unchanged.
pub fn sgd_step<T: Copy + num_traits::Float>(param: &mut TensorViewMut<T>, grad: &TensorBase<T>, learning_rate: T)
    requires
        old(param).wf(),
        grad.wf(),
        grad.spec_shape() == old(param).spec_shape(),
        sizes_fit(grad.spec_shape()),
    ensures
        final(param).wf(),
        final(param).spec_shape() == old(param).spec_shape(),
        final(param).spec_strides() == old(param).spec_strides(),
        final(param).spec_offset() == old(param).spec_offset(),
        forall|i: int|
            0 <= i < old(param).data().len() && !old(param).spec_positions().contains(i)
                ==> final(param).data()[i] == old(param).data()[i],
        distinct(old(param).spec_positions()) ==> forall|k: int|
            0 <= k < old(param).elems().len() ==> #[trigger] sgd_value(
                old(param).elems()[k],
                grad.elems()[k],
                learning_rate,
                final(param).elems()[k],
            ),
{
    let update = grad.mul_scalar(learning_rate);
    let cur = param.view_ref().to_contiguous();
    let next = minus(&cur, &update);
    proof {
        crate::layout::lemma_positions_len(cur.spec_shape(), cur.spec_strides(), 0, cur.spec_offset() as int);
        crate::layout::lemma_positions_len(grad.spec_shape(), grad.spec_strides(), 0, grad.spec_offset() as int);
        crate::layout::lemma_positions_len(old(param).spec_shape(), old(param).spec_strides(), 0, old(param).spec_offset() as int);
        assert(next.buf@ == next.elems());
    }
    param.write_elems(&next.buf);
    proof {
        if distinct(old(param).spec_positions()) {
            assert forall|k: int| 0 <= k < old(param).elems().len() implies #[trigger] sgd_value(
                old(param).elems()[k],
                grad.elems()[k],
                learning_rate,
                param.elems()[k],
            ) by {
                assert(product_value(grad.elems()[k], learning_rate, update.elems()[k]));
                assert(difference_value(cur.elems()[k], update.elems()[k], next.elems()[k]));
            }
        }
    }
}

/// The last two dimensions of a rank-`r` tensor in swapped order, as the
/// index list `[r - 1, r - 2]`.
fn swap_dims(r: usize) -> (d: Idx)
    requires
        r >= 2,
    ensures
        d.coord() == seq![(r - 1) as usize, (r - 2) as usize],
        r == 2 ==> is_perm(d.coord(), 2),
{
    let mut v: Vec<usize> = Vec::new();
    v.push(r - 1);
    v.push(r - 2);
    let d = Idx::Coord(v);
    proof {
        assert(d.coord() =~= seq![(r - 1) as usize, (r - 2) as usize]);
        if r == 2 {
            assert(perm_hits(d.coord(), 2, 0)) by {
                assert(d.coord()[1] == 0);
            }
            assert(perm_hits(d.coord(), 2, 1)) by {
                assert(d.coord()[0] == 1);
            }
        }
    }
    d
}

/// The elements of a rank-2 tensor read with its two dimensions swapped
/// (its transpose), in row-major order of the swapped shape.
pub open spec fn transposed_elems<T>(t: TensorBase<T>) -> Seq<T> {
    view_elems(
        t.data(),
        permuted(t.spec_shape(), seq![1usize, 0usize]),
        permuted(t.spec_strides(), seq![1usize, 0usize]),
        t.spec_offset() as int,
    )
}

/// The gradients through a matrix product `a @ b` of rank-2 tensors: `u @ b^T`
/// for `a` and `a^T @ u` for `b`, as matrix products (see `matmul_view`).
///
/// Errors: `WrongDims` when `b` or (after the first product) `a` does not
/// have rank 2; the errors of the matrix products when the shapes do not
/// fit.
pub fn backwards_matmul<T: Copy + num_traits::Float>(
    left_input: &TensorBase<T>,
    right_input: &TensorBase<T>,
    upstream: &TensorBase<T>,
) -> (r: Result<(TensorBase<T>, TensorBase<T>), TensorError>)
    requires
        left_input.wf(),
        right_input.wf(),
        upstream.wf(),
        left_input.spec_shape().len() >= 2,
        right_input.spec_shape().len() >= 2,
        sizes_fit(left_input.spec_shape()),
        sizes_fit(right_input.spec_shape()),
        sizes_fit(upstream.spec_shape()),
        right_input.spec_shape().len() == 2 ==> sizes_fit(permuted(right_input.spec_shape(), seq![1usize, 0usize])),
        left_input.spec_shape().len() == 2 ==> sizes_fit(permuted(left_input.spec_shape(), seq![1usize, 0usize])),
        upstream.spec_shape().len() == 2 && right_input.spec_shape().len() == 2 ==> sizes_fit(
            seq![upstream.spec_shape()[0], right_input.spec_shape()[0]],
        ),
        upstream.spec_shape().len() == 2 && left_input.spec_shape().len() == 2 ==> sizes_fit(
            seq![left_input.spec_shape()[1], upstream.spec_shape()[1]],
        ),
    ensures
        right_input.spec_shape().len() != 2 ==> (r matches Err(e) && e is WrongDims),
        right_input.spec_shape().len() == 2 && !matmul_accepts(
            upstream.spec_shape(),
            permuted(right_input.spec_shape(), seq![1usize, 0usize]),
        ) ==> r is Err,
        right_input.spec_shape().len() == 2 && matmul_accepts(
            upstream.spec_shape(),
            permuted(right_input.spec_shape(), seq![1usize, 0usize]),
        ) && left_input.spec_shape().len() != 2 ==> (r matches Err(e) && e is WrongDims),
        right_input.spec_shape().len() == 2 && left_input.spec_shape().len() == 2 && matmul_accepts(
            upstream.spec_shape(),
            permuted(right_input.spec_shape(), seq![1usize, 0usize]),
        ) && !matmul_accepts(permuted(left_input.spec_shape(), seq![1usize, 0usize]), upstream.spec_shape())
            ==> r is Err,
        right_input.spec_shape().len() == 2 && left_input.spec_shape().len() == 2 && matmul_accepts(
            upstream.spec_shape(),
            permuted(right_input.spec_shape(), seq![1usize, 0usize]),
        ) && matmul_accepts(permuted(left_input.spec_shape(), seq![1usize, 0usize]), upstream.spec_shape())
            ==> (r matches Ok(gs) && gs.0.wf() && gs.1.wf() && matmul_result(
            upstream.elems(),
            upstream.spec_shape(),
            transposed_elems(*right_input),
            permuted(right_input.spec_shape(), seq![1usize, 0usize]),
            gs.0.data(),
        ) && matmul_result(
            transposed_elems(*left_input),
            permuted(left_input.spec_shape(), seq![1usize, 0usize]),
            upstream.elems(),
            upstream.spec_shape(),
            gs.1.data(),
        )),
{
    let dr = swap_dims(right_input.rank());
    let rt = right_input.permute(&dr)?;
    proof {
        assert(dr.coord() =~= seq![1usize, 0usize]);
        assert(permuted(right_input.spec_shape(), seq![1usize, 0usize]) =~= seq![right_input.spec_shape()[1], right_input.spec_shape()[0]]);
    }
    let grad_lhs = upstream.matmul(&rt)?;
    let dl = swap_dims(left_input.rank());
    let lt = left_input.permute(&dl)?;
    proof {
        assert(dl.coord() =~= seq![1usize, 0usize]);
        assert(permuted(left_input.spec_shape(), seq![1usize, 0usize]) =~= seq![left_input.spec_shape()[1], left_input.spec_shape()[0]]);
    }
    let grad_rhs = lt.matmul(upstream)?;
    Ok((grad_lhs, grad_rhs))
}

/// The gradient a parameter holds after `upstream` arrives: `upstream`
/// itself (as a row-major copy) when it held none, else the sum, element by
/// element, of what it held and `upstream`.
pub fn accumulate_grad<T: Copy + num_traits::Float>(held: &mut Option<TensorBase<T>>, upstream: &TensorBase<T>)
    requires
        upstream.wf(),
        sizes_fit(upstream.spec_shape()),
        *old(held) matches Some(h) ==> h.wf() && h.spec_shape() == upstream.spec_shape(),
    ensures
        *final(held) matches Some(g) && g.wf() && g.spec_shape() == upstream.spec_shape(),
        *old(held) is None ==> (*final(held) matches Some(g) && g.elems() == upstream.elems()),
        *old(held) matches Some(h) ==> (*final(held) matches Some(g) && g.elems().len() == h.elems().len()
            && forall|k: int| 0 <= k < h.elems().len() ==> #[trigger] sum_value(h.elems()[k], upstream.elems()[k], g.elems()[k])),
{
    match held {
        Some(h) => {
            let g = plus(h, upstream);
            *held = Some(g);
        },
        None => {
            *held = Some(crate::access::AsTensor::contiguous(upstream));
        },
    }
}

/// The sum, element by element, of two tensors of one shape.
pub(crate) fn plus<T: Copy + num_traits::Float>(a: &TensorBase<T>, b: &TensorBase<T>) -> (g: TensorBase<T>)
    requires
        a.wf(),
        b.wf(),
        b.spec_shape() == a.spec_shape(),
        sizes_fit(a.spec_shape()),
    ensures
        grad_like(g, a.spec_shape()),
        g.elems().len() == a.elems().len(),
        forall|k: int| 0 <= k < a.elems().len() ==> #[trigger] sum_value(a.elems()[k], b.elems()[k], g.elems()[k]),
{
    proof {
        lemma_same_shape_reads(a.data(), a.spec_shape(), a.spec_strides(), a.spec_offset() as int);
        lemma_same_shape_reads(b.data(), b.spec_shape(), b.spec_strides(), b.spec_offset() as int);
        crate::layout::lemma_positions_len(a.spec_shape(), a.spec_strides(), 0, a.spec_offset() as int);
    }
    let g = a.add_tensor(b);
    proof {
        law_row_major_elements(g.data(), g.spec_shape(), g.spec_strides());
        assert forall|k: int| 0 <= k < a.elems().len() implies #[trigger] sum_value(a.elems()[k], b.elems()[k], g.elems()[k]) by {
            assert(g.data()[k] == g.elems()[k]);
        }
    }
    g
}

/// How many kept tensors the derivative rule of a node reads.
pub open spec fn saved_needed(node: GradNode) -> nat {
    match node {
        GradNode::Sin { .. } => 1,
        GradNode::Cos { .. } => 1,
        GradNode::Tan { .. } => 1,
        GradNode::Sinh { .. } => 1,
        GradNode::Cosh { .. } => 1,
        GradNode::ExpM1 { .. } => 1,
        GradNode::Ln1p { .. } => 1,
        GradNode::Square { .. } => 1,
        GradNode::Cube { .. } => 1,
        GradNode::Tanh { .. } => 1,
        GradNode::Reciprocal { .. } => 1,
        GradNode::Rsqrt { .. } => 1,
        GradNode::Exp { .. } => 1,
        GradNode::Ln { .. } => 1,
        GradNode::ReLU { .. } => 1,
        GradNode::Abs { .. } => 1,
        GradNode::Sigmoid { .. } => 1,
        GradNode::Sqrt { .. } => 1,
        GradNode::BroadcastMul { .. } => 2,
        GradNode::BroadcastDiv { .. } => 2,
        GradNode::MatMul { .. } => 2,
        GradNode::L1 { .. } => 1,
        _ => 0,
    }
}

/// The derivative rules collected: for node `node`, with the tensors
/// `saved` the forward pass kept for it (its input, its result or its
/// mask, as each rule names them) and the scalar `s` of a scalar product or
/// quotient, `v` are the gradients of its inputs for the upstream gradient
/// `u`.
pub open spec fn local_result<T: num_traits::Float>(
    node: GradNode,
    saved: Seq<TensorBase<T>>,
    s: T,
    u: TensorBase<T>,
    v: Seq<TensorBase<T>>,
) -> bool {
    match node {
        GradNode::Sin { .. } => v.len() == 1 && grad_like(v[0], u.spec_shape()) && pairwise(
            saved[0].elems(),
            u.elems(),
            v[0].elems(),
            |x: T, w: T, r: T| sin_grad(x, w, r),
        ),
        GradNode::Cos { .. } => v.len() == 1 && grad_like(v[0], u.spec_shape()) && pairwise(
            saved[0].elems(),
            u.elems(),
            v[0].elems(),
            |x: T, w: T, r: T| cos_grad(x, w, r),
        ),
        GradNode::Tan { .. } => v.len() == 1 && grad_like(v[0], u.spec_shape()) && pairwise(
            saved[0].elems(),
            u.elems(),
            v[0].elems(),
            |x: T, w: T, r: T| tan_grad(x, w, r),
        ),
        GradNode::Sinh { .. } => v.len() == 1 && grad_like(v[0], u.spec_shape()) && pairwise(
            saved[0].elems(),
            u.elems(),
            v[0].elems(),
            |x: T, w: T, r: T| sinh_grad(x, w, r),
        ),
        GradNode::Cosh { .. } => v.len() == 1 && grad_like(v[0], u.spec_shape()) && pairwise(
            saved[0].elems(),
            u.elems(),
            v[0].elems(),
            |x: T, w: T, r: T| cosh_grad(x, w, r),
        ),
        GradNode::ExpM1 { .. } => v.len() == 1 && grad_like(v[0], u.spec_shape()) && pairwise(
            saved[0].elems(),
            u.elems(),
            v[0].elems(),
            |x: T, w: T, r: T| expm1_grad(x, w, r),
        ),
        GradNode::Ln1p { .. } => v.len() == 1 && grad_like(v[0], u.spec_shape()) && pairwise(
            saved[0].elems(),
            u.elems(),
            v[0].elems(),
            |x: T, w: T, r: T| ln1p_grad(x, w, r),
        ),
        GradNode::Square { .. } => v.len() == 1 && grad_like(v[0], u.spec_shape()) && pairwise(
            saved[0].elems(),
            u.elems(),
            v[0].elems(),
            |x: T, w: T, r: T| square_grad(x, w, r),
        ),
        GradNode::Cube { .. } => v.len() == 1 && grad_like(v[0], u.spec_shape()) && pairwise(
            saved[0].elems(),
            u.elems(),
            v[0].elems(),
            |x: T, w: T, r: T| cube_grad(x, w, r),
        ),
        GradNode::Tanh { .. } => v.len() == 1 && grad_like(v[0], u.spec_shape()) && pairwise(
            saved[0].elems(),
            u.elems(),
            v[0].elems(),
            |x: T, w: T, r: T| tanh_grad(x, w, r),
        ),
        GradNode::Reciprocal { .. } => v.len() == 1 && grad_like(v[0], u.spec_shape()) && pairwise(
            saved[0].elems(),
            u.elems(),
            v[0].elems(),
            |x: T, w: T, r: T| reciprocal_grad(x, w, r),
        ),
        GradNode::Rsqrt { .. } => v.len() == 1 && grad_like(v[0], u.spec_shape()) && pairwise(
            saved[0].elems(),
            u.elems(),
            v[0].elems(),
            |x: T, w: T, r: T| rsqrt_grad(x, w, r),
        ),
        GradNode::Exp { .. } => v.len() == 1 && grad_like(v[0], u.spec_shape()) && pairwise(
            saved[0].elems(),
            u.elems(),
            v[0].elems(),
            |x: T, w: T, r: T| exp_grad(x, w, r),
        ),
        GradNode::Ln { .. } => v.len() == 1 && grad_like(v[0], u.spec_shape()) && pairwise(
            saved[0].elems(),
            u.elems(),
            v[0].elems(),
            |x: T, w: T, r: T| ln_grad(x, w, r),
        ),
        GradNode::ReLU { .. } => v.len() == 1 && grad_like(v[0], u.spec_shape()) && pairwise(
            saved[0].elems(),
            u.elems(),
            v[0].elems(),
            |x: T, w: T, r: T| relu_grad(x, w, r),
        ),
        GradNode::Abs { .. } => v.len() == 1 && grad_like(v[0], u.spec_shape()) && pairwise(
            saved[0].elems(),
            u.elems(),
            v[0].elems(),
            |x: T, w: T, r: T| abs_grad(x, w, r),
        ),
        GradNode::Sigmoid { .. } => v.len() == 1 && grad_like(v[0], u.spec_shape()) && pairwise(
            saved[0].elems(),
            u.elems(),
            v[0].elems(),
            |x: T, w: T, r: T| sigmoid_grad(x, w, r),
        ),
        GradNode::Sqrt { .. } => v.len() == 1 && grad_like(v[0], u.spec_shape()) && pairwise(
            saved[0].elems(),
            u.elems(),
            v[0].elems(),
            |x: T, w: T, r: T| sqrt_grad(x, w, r),
        ),
        GradNode::Leaf => v.len() == 1 && v[0].wf() && v[0].spec_shape() == u.spec_shape() && v[0].elems() == u.elems(),
        GradNode::Input => v.len() == 0,
        GradNode::Negate { .. } => v.len() == 1 && v[0].wf() && v[0].spec_shape() == u.spec_shape() && maps_all(
            u.elems(),
            v[0].elems(),
            |w: T, r: T| neg_value(w, r),
        ),
        GradNode::AddScalar { .. } => v.len() == 1 && v[0].wf() && v[0].spec_shape() == u.spec_shape() && v[0].elems()
            == u.elems(),
        GradNode::MulScalar { .. } => v.len() == 1 && v[0].wf() && v[0].spec_shape() == u.spec_shape() && maps_all(
            u.elems(),
            v[0].elems(),
            |w: T, r: T| product_value(w, s, r),
        ),
        GradNode::DivScalar { .. } => v.len() == 1 && v[0].wf() && v[0].spec_shape() == u.spec_shape() && maps_all(
            u.elems(),
            v[0].elems(),
            |w: T, r: T| quotient_value(w, s, r),
        ),
        GradNode::BroadcastAdd { .. } => v.len() == 2 && v[0].wf() && v[1].wf() && v[0].spec_shape() == u.spec_shape()
            && v[1].spec_shape() == u.spec_shape() && v[0].elems() == u.elems() && v[1].elems() == u.elems(),
        GradNode::BroadcastSub { .. } => v.len() == 2 && v[0].wf() && v[1].wf() && v[0].spec_shape() == u.spec_shape()
            && v[1].spec_shape() == u.spec_shape() && v[0].elems() == u.elems() && maps_all(
            u.elems(),
            v[1].elems(),
            |w: T, r: T| neg_value(w, r),
        ),
        GradNode::BroadcastMul { .. } => v.len() == 2 && grad_like(v[0], u.spec_shape()) && grad_like(v[1], u.spec_shape())
            && pairwise(u.elems(), saved[1].elems(), v[0].elems(), |w: T, b: T, r: T| product_value(w, b, r))
            && pairwise(u.elems(), saved[0].elems(), v[1].elems(), |w: T, a: T, r: T| product_value(w, a, r)),
        GradNode::BroadcastDiv { .. } => v.len() == 2 && grad_like(v[0], u.spec_shape()) && grad_like(v[1], u.spec_shape())
            && pairwise(u.elems(), saved[1].elems(), v[0].elems(), |w: T, q: T, r: T| product_value(w, q, r))
            && forall|k: int|
            0 <= k < v[1].elems().len() ==> #[trigger] div_rhs_grad(
                u.elems()[k],
                saved[0].elems()[k],
                saved[1].elems()[k],
                v[1].elems()[k],
            ),
        GradNode::L1 { .. } => v.len() == 2 && grad_like(v[0], saved[0].spec_shape()) && grad_like(
            v[1],
            saved[0].spec_shape(),
        ) && pairwise(
            saved[0].elems(),
            spread(u, saved[0].elems().len()),
            v[0].elems(),
            |m: T, w: T, r: T| product_value(m, w, r),
        ) && pairwise(saved[0].elems(), spread(u, saved[0].elems().len()), v[1].elems(), |m: T, w: T, r: T| neg_times(m, w, r)),
        GradNode::MatMul { .. } => v.len() == 2 && v[0].wf() && v[1].wf() && matmul_result(
            u.elems(),
            u.spec_shape(),
            transposed_elems(saved[1]),
            permuted(saved[1].spec_shape(), seq![1usize, 0usize]),
            v[0].data(),
        ) && matmul_result(
            transposed_elems(saved[0]),
            permuted(saved[0].spec_shape(), seq![1usize, 0usize]),
            u.elems(),
            u.spec_shape(),
            v[1].data(),
        ),
        GradNode::Permute { dims, .. } => v.len() == 1 && v[0].wf() && v[0].data() == u.data() && v[0].spec_shape()
            == permuted(u.spec_shape(), written_inverse(dims@, dims@.len() as int)) && v[0].spec_strides() == permuted(
            u.spec_strides(),
            written_inverse(dims@, dims@.len() as int),
        ) && v[0].spec_offset() == u.spec_offset(),
    }
}

/// A vector of one gradient.
fn one_grad<T>(g: TensorBase<T>) -> (v: Vec<TensorBase<T>>)
    ensures
        v@ == seq![g],
{
    let mut v = Vec::new();
    v.push(g);
    v
}

/// A vector of two gradients.
fn two_grads<T>(a: TensorBase<T>, b: TensorBase<T>) -> (v: Vec<TensorBase<T>>)
    ensures
        v@ == seq![a, b],
{
    let mut v = Vec::new();
    v.push(a);
    v.push(b);
    v
}

/// The gradients of the inputs of `node` for the upstream gradient
/// `upstream`, by the node's derivative rule, given the tensors `saved` the
/// forward pass kept for it and the scalar `s` of a scalar product or
/// quotient. A parameter (`Leaf`) hands `upstream` on; an input that needs
/// no gradient hands on nothing. The L1 loss also takes a rank-0
/// `upstream`, the gradient of a mean or sum loss, for every element.
///
/// Errors: `UnsupportedOperation` when fewer tensors are kept than the
/// rule reads; those of `backwards_matmul` and `backwards_permute`.
pub fn local_gradient<T: Copy + num_traits::Float>(
    node: &GradNode,
    saved: &Vec<TensorBase<T>>,
    s: T,
    upstream: &TensorBase<T>,
) -> (r: Result<Vec<TensorBase<T>>, TensorError>)
    requires
        upstream.wf(),
        sizes_fit(upstream.spec_shape()),
        forall|i: int| 0 <= i < saved@.len() ==> (#[trigger] saved@[i]).wf(),
        !(*node is MatMul) && !(*node is L1) ==> forall|i: int| 0 <= i < saved@.len() ==> (#[trigger] saved@[i]).spec_shape() == upstream.spec_shape(),
        *node is L1 ==> forall|i: int| 0 <= i < saved@.len() ==> ((#[trigger] saved@[i]).spec_shape() == upstream.spec_shape()
            || upstream.spec_shape().len() == 0) && sizes_fit(saved@[i].spec_shape()),
        *node is MatMul && saved@.len() >= 2 ==> {
            &&& saved@[0].spec_shape().len() >= 2
            &&& saved@[1].spec_shape().len() >= 2
            &&& sizes_fit(saved@[0].spec_shape())
            &&& sizes_fit(saved@[1].spec_shape())
            &&& saved@[1].spec_shape().len() == 2 ==> sizes_fit(permuted(saved@[1].spec_shape(), seq![1usize, 0usize]))
            &&& saved@[0].spec_shape().len() == 2 ==> sizes_fit(permuted(saved@[0].spec_shape(), seq![1usize, 0usize]))
            &&& upstream.spec_shape().len() == 2 && saved@[1].spec_shape().len() == 2 ==> sizes_fit(
                seq![upstream.spec_shape()[0], saved@[1].spec_shape()[0]],
            )
            &&& upstream.spec_shape().len() == 2 && saved@[0].spec_shape().len() == 2 ==> sizes_fit(
                seq![saved@[0].spec_shape()[1], upstream.spec_shape()[1]],
            )
        },
        *node matches GradNode::Permute { dims, .. } ==> forall|i: int| 0 <= i < dims@.len() ==> #[trigger] dims@[i] < dims@.len(),
    ensures
        saved@.len() < saved_needed(*node) ==> (r matches Err(e) && e is UnsupportedOperation),
        saved@.len() >= saved_needed(*node) && !(*node is MatMul) && !(*node is Permute) ==> r is Ok,
        r matches Ok(v) ==> local_result(*node, saved@, s, *upstream, v@),
{
    if saved.len() < saved_count(node) {
        return Err(TensorError::UnsupportedOperation(msg("the tensors kept for this node are missing")));
    }
    match node {
        GradNode::Sin { .. } => {
            let g = backwards_sin(&saved[0], upstream);
            Ok(one_grad(g))
        },
        GradNode::Cos { .. } => {
            let g = backwards_cos(&saved[0], upstream);
            Ok(one_grad(g))
        },
        GradNode::Tan { .. } => {
            let g = backwards_tan(&saved[0], upstream);
            Ok(one_grad(g))
        },
        GradNode::Sinh { .. } => {
            let g = backwards_sinh(&saved[0], upstream);
            Ok(one_grad(g))
        },
        GradNode::Cosh { .. } => {
            let g = backwards_cosh(&saved[0], upstream);
            Ok(one_grad(g))
        },
        GradNode::ExpM1 { .. } => {
            let g = backwards_expm1(&saved[0], upstream);
            Ok(one_grad(g))
        },
        GradNode::Ln1p { .. } => {
            let g = backwards_ln1p(&saved[0], upstream);
            Ok(one_grad(g))
        },
        GradNode::Square { .. } => {
            let g = backwards_square(&saved[0], upstream);
            Ok(one_grad(g))
        },
        GradNode::Cube { .. } => {
            let g = backwards_cube(&saved[0], upstream);
            Ok(one_grad(g))
        },
        GradNode::Tanh { .. } => {
            let g = backwards_tanh(&saved[0], upstream);
            Ok(one_grad(g))
        },
        GradNode::Reciprocal { .. } => {
            let g = backwards_reciprocal(&saved[0], upstream);
            Ok(one_grad(g))
        },
        GradNode::Rsqrt { .. } => {
            let g = backwards_rsqrt(&saved[0], upstream);
            Ok(one_grad(g))
        },
        GradNode::Exp { .. } => {
            let g = backwards_exp(&saved[0], upstream);
            Ok(one_grad(g))
        },
        GradNode::Ln { .. } => {
            let g = backwards_ln(&saved[0], upstream);
            Ok(one_grad(g))
        },
        GradNode::ReLU { .. } => {
            let g = backwards_relu(&saved[0], upstream);
            Ok(one_grad(g))
        },
        GradNode::Abs { .. } => {
            let g = backwards_abs(&saved[0], upstream);
            Ok(one_grad(g))
        },
        GradNode::Sigmoid { .. } => {
            let g = backwards_sigmoid(&saved[0], upstream);
            Ok(one_grad(g))
        },
        GradNode::Sqrt { .. } => {
            let g = backwards_sqrt(&saved[0], upstream);
            Ok(one_grad(g))
        },
        GradNode::Leaf => Ok(one_grad(backwards_add_scalar(upstream))),
        GradNode::Input => Ok(Vec::new()),
        GradNode::Negate { .. } => Ok(one_grad(backwards_negate(upstream))),
        GradNode::AddScalar { .. } => Ok(one_grad(backwards_add_scalar(upstream))),
        GradNode::MulScalar { .. } => Ok(one_grad(backwards_mul_scalar(upstream, s))),
        GradNode::DivScalar { .. } => Ok(one_grad(backwards_div_scalar(upstream, s))),
        GradNode::BroadcastAdd { .. } => {
            let (a, b) = backwards_add(upstream);
            Ok(two_grads(a, b))
        },
        GradNode::BroadcastSub { .. } => {
            let (a, b) = backwards_sub(upstream);
            Ok(two_grads(a, b))
        },
        GradNode::BroadcastMul { .. } => {
            let (a, b) = backwards_mul(&saved[0], &saved[1], upstream);
            Ok(two_grads(a, b))
        },
        GradNode::BroadcastDiv { .. } => {
            let (a, b) = backwards_div(&saved[0], &saved[1], upstream);
            Ok(two_grads(a, b))
        },
        GradNode::L1 { .. } => {
            let (a, b) = backwards_l1(&saved[0], upstream);
            Ok(two_grads(a, b))
        },
        GradNode::MatMul { .. } => {
            let (a, b) = backwards_matmul(&saved[0], &saved[1], upstream)?;
            Ok(two_grads(a, b))
        },
        GradNode::Permute { .. } => node.backwards_permute(upstream),
    }
}

/// How many kept tensors the derivative rule of a node reads.
fn saved_count(node: &GradNode) -> (n: usize)
    ensures
        n == saved_needed(*node),
{
    match node {
        GradNode::Sin { .. } => 1,
        GradNode::Cos { .. } => 1,
        GradNode::Tan { .. } => 1,
        GradNode::Sinh { .. } => 1,
        GradNode::Cosh { .. } => 1,
        GradNode::ExpM1 { .. } => 1,
        GradNode::Ln1p { .. } => 1,
        GradNode::Square { .. } => 1,
        GradNode::Cube { .. } => 1,
        GradNode::Tanh { .. } => 1,
        GradNode::Reciprocal { .. } => 1,
        GradNode::Rsqrt { .. } => 1,
        GradNode::Exp { .. } => 1,
        GradNode::Ln { .. } => 1,
        GradNode::ReLU { .. } => 1,
        GradNode::Abs { .. } => 1,
        GradNode::Sigmoid { .. } => 1,
        GradNode::Sqrt { .. } => 1,
        GradNode::BroadcastMul { .. } => 2,
        GradNode::BroadcastDiv { .. } => 2,
        GradNode::MatMul { .. } => 2,
        GradNode::L1 { .. } => 1,
        _ => 0,
    }
}

/// `p1` is the parameter `p0` after one step with gradient `g0` and
/// learning rate `lr`: unchanged without a gradient; else the same layout
/// over a buffer of the same length, with every element `p` now
/// `p - g * lr` (when no position of the layout repeats) and the rest of the
/// buffer as it was.
pub open spec fn stepped<T: num_traits::Float>(p0: TensorBase<T>, g0: Option<TensorBase<T>>, lr: T, p1: TensorBase<T>) -> bool {
    match g0 {
        None => p1 == p0,
        Some(g) => {
            &&& p1.wf()
            &&& p1.spec_shape() == p0.spec_shape()
            &&& p1.spec_strides() == p0.spec_strides()
            &&& p1.spec_offset() == p0.spec_offset()
            &&& p1.data().len() == p0.data().len()
            &&& forall|i: int|
                0 <= i < p0.data().len() && !p0.spec_positions().contains(i) ==> p1.data()[i] == p0.data()[i]
            &&& distinct(p0.spec_positions()) ==> forall|k: int|
                0 <= k < p0.elems().len() ==> #[trigger] sgd_value(p0.elems()[k], g.elems()[k], lr, p1.elems()[k])
        },
    }
}

/// A parameter that can be stepped: well formed, and its gradient, if any,
/// well formed and of its shape.
pub open spec fn param_ok<T>(p: TensorBase<T>, g: Option<TensorBase<T>>) -> bool {
    &&& p.wf()
    &&& sizes_fit(p.spec_shape())
    &&& g matches Some(h) ==> h.wf() && h.spec_shape() == p.spec_shape()
}

/// One step of gradient descent on an owned parameter (see `sgd_step`).
fn sgd_update<T: Copy + num_traits::Float>(p: &mut TensorBase<T>, g: &TensorBase<T>, lr: T)
    requires
        param_ok(*old(p), Some(*g)),
    ensures
        stepped(*old(p), Some(*g), lr, *final(p)),
        param_ok(*final(p), None),
{
    let update = g.mul_scalar(lr);
    let cur = crate::access::AsView::view(&*p).to_contiguous();
    let next = minus(&cur, &update);
    proof {
        crate::layout::lemma_positions_len(cur.spec_shape(), cur.spec_strides(), 0, cur.spec_offset() as int);
        crate::layout::lemma_positions_len(g.spec_shape(), g.spec_strides(), 0, g.spec_offset() as int);
        crate::layout::lemma_positions_len(old(p).spec_shape(), old(p).spec_strides(), 0, old(p).spec_offset() as int);
        assert(next.buf@ == next.elems());
    }
    p.write_elems(&next.buf);
    proof {
        if distinct(old(p).spec_positions()) {
            assert forall|k: int| 0 <= k < old(p).elems().len() implies #[trigger] sgd_value(
                old(p).elems()[k],
                g.elems()[k],
                lr,
                p.elems()[k],
            ) by {
                assert(product_value(g.elems()[k], lr, update.elems()[k]));
                assert(difference_value(cur.elems()[k], update.elems()[k], next.elems()[k]));
            }
        }
    }
}

/// Gradient descent over owned parameters: `params[i]` is stepped by
/// `grads[i]` (when it has one) with the learning rate.
pub struct Sgd<T> {
    pub params: Vec<TensorBase<T>>,
    pub grads: Vec<Option<TensorBase<T>>>,
    pub learning_rate: T,
}

impl<T: Copy + num_traits::Float> Sgd<T> {
    /// Each parameter has one gradient slot and can be stepped.
    pub open spec fn ok(&self) -> bool {
        &&& self.params@.len() == self.grads@.len()
        &&& forall|i: int| 0 <= i < self.params@.len() ==> #[trigger] param_ok(self.params@[i], self.grads@[i])
    }

    /// An optimizer with no parameters.
    pub fn new(learning_rate: T) -> (o: Self)
        ensures
            o.ok(),
            o.params@.len() == 0,
            o.learning_rate == learning_rate,
    {
        Sgd { params: Vec::new(), grads: Vec::new(), learning_rate }
    }

    /// Adds a parameter, with no gradient yet.
    pub fn register_parameter(&mut self, param: TensorBase<T>)
        requires
            old(self).ok(),
            param.wf(),
            sizes_fit(param.spec_shape()),
        ensures
            final(self).ok(),
            final(self).params@ == old(self).params@.push(param),
            final(self).grads@ == old(self).grads@.push(None),
            final(self).learning_rate == old(self).learning_rate,
    {
        self.params.push(param);
        self.grads.push(None);
        assert(param_ok(self.params@[self.params@.len() - 1], self.grads@[self.grads@.len() - 1]));
    }

    /// One step: every parameter with a gradient moves to `p - g * lr`
    /// element by element (see `stepped`), every parameter without one is
    /// left as it is, and every gradient is cleared.
    pub fn step(&mut self) -> (r: Result<(), TensorError>)
        requires
            old(self).ok(),
        ensures
            r is Ok,
            final(self).ok(),
            final(self).learning_rate == old(self).learning_rate,
            final(self).params@.len() == old(self).params@.len(),
            forall|i: int| 0 <= i < old(self).params@.len() ==> #[trigger] final(self).grads@[i] is None,
            forall|i: int|
                0 <= i < old(self).params@.len() ==> stepped(
                    old(self).params@[i],
                    old(self).grads@[i],
                    old(self).learning_rate,
                    #[trigger] final(self).params@[i],
                ),
    {
        let lr = self.learning_rate;
        let mut ps: Vec<TensorBase<T>> = Vec::new();
        std::mem::swap(&mut ps, &mut self.params);
        let mut gs: Vec<Option<TensorBase<T>>> = Vec::new();
        std::mem::swap(&mut gs, &mut self.grads);
        let ghost ps0 = ps@;
        let ghost gs0 = gs@;
        let n = ps.len();
        let mut out_p: Vec<TensorBase<T>> = Vec::new();
        let mut out_g: Vec<Option<TensorBase<T>>> = Vec::new();
        let mut i: usize = 0;
        while i < n
            invariant
                n == ps0.len(),
                ps0.len() == gs0.len(),
                i <= n,
                ps@ == ps0.subrange(i as int, n as int),
                gs@ == gs0.subrange(i as int, n as int),
                out_p@.len() == i,
                out_g@.len() == i,
                forall|j: int| 0 <= j < n ==> #[trigger] param_ok(ps0[j], gs0[j]),
                forall|j: int|
                    0 <= j < i ==> stepped(ps0[j], gs0[j], lr, #[trigger] out_p@[j]) && param_ok(out_p@[j], out_g@[j])
                        && out_g@[j] is None,
                forall|j: int| 0 <= j < i ==> (#[trigger] out_g@[j]) is None,
            decreases n - i,
        {
            let mut p = ps.remove(0);
            let g = gs.remove(0);
            proof {
                assert(p == ps0[i as int]);
                assert(g == gs0[i as int]);
                assert(param_ok(ps0[i as int], gs0[i as int]));
            }
            match g {
                Some(gt) => {
                    sgd_update(&mut p, &gt, lr);
                },
                None => {},
            }
            out_p.push(p);
            out_g.push(None);
            proof {
                assert(ps@ =~= ps0.subrange(i + 1, n as int));
                assert(gs@ =~= gs0.subrange(i + 1, n as int));
            }
            i = i + 1;
        }
        self.params = out_p;
        self.grads = out_g;
        Ok(())
    }
}

} // verus!

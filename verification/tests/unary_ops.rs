//! Element-wise unary operations, checked against the scalar functions on
//! contiguous tensors, on a strided 1-d view and on a strided 2-d view.
use num_traits::Float;
use rtensors::access::{TensorAccessMut};
use rtensors::meta::Slice;
use rtensors::tensor::{TensorBase, TensorViewMut};
use std::fmt::Debug;

/// Marker for the host backend.
pub struct Cpu;
/// Marker for the device backend; the library computes on the host for both.
pub struct Cuda;

fn assert_close<T: Float + Debug>(got: T, want: T) {
    if want.is_nan() {
        assert!(got.is_nan(), "got {:?}, want NaN", got);
        return;
    }
    if want.is_infinite() {
        assert_eq!(got, want);
        return;
    }
    let tol = T::from(1e-5).unwrap() * (T::one() + want.abs());
    assert!((got - want).abs() <= tol, "got {:?}, want {:?}", got, want);
}

/// Applies `op` to a row-major 1-d tensor holding `input` and compares every
/// element with `expected` of the input element.
fn unary_assert_contiguous<T, F, G, B>(input: impl Into<Vec<T>>, expected: F, op: G)
where
    T: Float + Debug,
    F: Fn(T) -> T,
    G: FnOnce(&mut TensorBase<T>),
{
    let input: Vec<T> = input.into();
    let n = input.len();
    let mut t = TensorBase::from_buf(input.clone(), vec![n]).unwrap();
    op(&mut t);
    assert_eq!(t.shape(), &vec![n]);
    assert_eq!(t.buffer().len(), n);
    for i in 0..n {
        assert_close(t.buffer()[i], expected(input[i]));
    }
}

/// Applies `op` to the view of every second element of a 1-d tensor; the
/// elements outside the view must keep their values.
fn unary_assert_1d_strided<T, F, G, B>(input: impl Into<Vec<T>>, expected: F, op: G)
where
    T: Float + Debug,
    F: Fn(T) -> T,
    G: for<'a> FnOnce(&mut TensorViewMut<'a, T>),
{
    let input: Vec<T> = input.into();
    let n = input.len();
    let mut t = TensorBase::from_buf(input.clone(), vec![n]).unwrap();
    {
        let mut v = t.slice_mut(0, Slice::full().step(2)).unwrap();
        assert_eq!(v.meta().shape(), &vec![(n + 1) / 2]);
        assert_eq!(v.meta().strides(), &vec![2isize]);
        op(&mut v);
    }
    for i in 0..n {
        if i % 2 == 0 {
            assert_close(t.buffer()[i], expected(input[i]));
        } else {
            assert_eq!(t.buffer()[i], input[i]);
        }
    }
}

/// Applies `op` to a transposed view of the even columns of a 4 x 4 tensor;
/// the odd columns must keep their values.
fn unary_assert_nd_strided<T, F, G, B>(input: impl Into<Vec<T>>, expected: F, op: G)
where
    T: Float + Debug,
    F: Fn(T) -> T,
    G: for<'a> FnOnce(&mut TensorViewMut<'a, T>),
{
    let input: Vec<T> = input.into();
    assert_eq!(input.len(), 16);
    let mut t = TensorBase::from_buf(input.clone(), vec![4, 4]).unwrap();
    {
        let mut v = t.slice_mut(1, Slice::full().step(2)).unwrap();
        let mut w = v.transpose_mut();
        assert_eq!(w.meta().shape(), &vec![2, 4]);
        assert_eq!(w.meta().strides(), &vec![2isize, 4]);
        op(&mut w);
    }
    for i in 0..16 {
        if i % 2 == 0 {
            assert_close(t.buffer()[i], expected(input[i]));
        } else {
            assert_eq!(t.buffer()[i], input[i]);
        }
    }
}

#[test]
fn test_unary_negate_contiguous() {
    unary_assert_contiguous::<f64, _, _, Cpu>([1.0, 1.0], std::ops::Neg::neg, |f| {
        f.neg_inplace()
    });
}

#[test]
fn test_unary_negate_1d_strided() {
    unary_assert_1d_strided::<f64, _, _, Cpu>([1.0, 1.0, 1.0], std::ops::Neg::neg, |f| {
        f.neg_inplace()
    });
}

#[test]
fn test_unary_negate_nd_strided() {
    unary_assert_nd_strided::<f64, _, _, Cpu>([1.0; 16], std::ops::Neg::neg, |f| {
        f.neg_inplace()
    });
}

#[test]
fn test_unary_relu_contiguous() {
    unary_assert_contiguous::<f64, _, _, Cpu>([-1.0, 1.0], |f| f.max(0.0), |f| f.relu_inplace());
}

#[test]
fn test_unary_relu_1d_strided() {
    unary_assert_1d_strided::<f64, _, _, Cpu>(
        [-1.0, 1.0, -1.0],
        |f| f.max(0.0),
        |f| f.relu_inplace(),
    );
}

#[test]
fn test_unary_relu_nd_strided() {
    unary_assert_nd_strided::<f64, _, _, Cpu>(
        [
            -1.0, 1.0, 0.0, 2.0, 1.0, 2.3, -0.3, 0.4, 0.0, -0.3, 0.4, 0.5, -0.2, 0.1, 0.2, -0.5,
        ],
        |f| f.max(0.0),
        |f| f.relu_inplace(),
    );
}

#[test]
fn test_unary_sigmoid_contiguous() {
    unary_assert_contiguous::<f64, _, _, Cpu>(
        [1.0, 1.0],
        |f| 1. / (1. + (-f).exp()),
        |f| f.sigmoid_inplace(),
    );
}

#[test]
fn test_unary_sigmoid_1d_strided() {
    unary_assert_1d_strided::<f64, _, _, Cpu>(
        [1.0, 1.0, 1.0],
        |f| 1. / (1. + (-f).exp()),
        |f| f.sigmoid_inplace(),
    );
}

#[test]
fn test_unary_sigmoid_nd_strided() {
    unary_assert_nd_strided::<f64, _, _, Cpu>(
        [1.0; 16],
        |f| 1. / (1. + (-f).exp()),
        |f| f.sigmoid_inplace(),
    );
}

#[test]
fn test_unary_silu_contiguous() {
    unary_assert_contiguous::<f64, _, _, Cpu>(
        [1.0, 1.0],
        |f| f / (1. + (-f).exp()),
        |f| f.silu_inplace(),
    );
}

#[test]
fn test_unary_silu_1d_strided() {
    unary_assert_1d_strided::<f64, _, _, Cpu>(
        [1.0, 1.0, 1.0],
        |f| f / (1. + (-f).exp()),
        |f| f.silu_inplace(),
    );
}

#[test]
fn test_unary_silu_nd_strided() {
    unary_assert_nd_strided::<f64, _, _, Cpu>(
        [1.0; 16],
        |f| f / (1. + (-f).exp()),
        |f| f.silu_inplace(),
    );
}

#[test]
fn test_unary_tanh_contiguous() {
    unary_assert_contiguous::<f64, _, _, Cpu>(
        [1.0, 1.0],
        |f| (f.exp() - (-f).exp()) / (f.exp() + (-f).exp()),
        |f| f.tanh_inplace(),
    );
}

#[test]
fn test_unary_tanh_1d_strided() {
    unary_assert_1d_strided::<f64, _, _, Cpu>(
        [1.0, 1.0, 1.0],
        |f| (f.exp() - (-f).exp()) / (f.exp() + (-f).exp()),
        |f| f.tanh_inplace(),
    );
}

#[test]
fn test_unary_tanh_nd_strided() {
    unary_assert_nd_strided::<f64, _, _, Cpu>(
        [1.0; 16],
        |f| (f.exp() - (-f).exp()) / (f.exp() + (-f).exp()),
        |f| f.tanh_inplace(),
    );
}

#[test]
fn test_unary_sqrt_nd_strided() {
    unary_assert_nd_strided::<f64, _, _, Cpu>([1.0; 16], |f| f.sqrt(), |f| f.sqrt_inplace());
}

#[test]
fn test_unary_sqrt_1d_strided() {
    unary_assert_1d_strided::<f64, _, _, Cpu>(
        [1.0, 1.0, 1.0],
        |f| f.sqrt(),
        |f| f.sqrt_inplace(),
    );
}

#[test]
fn test_unary_sqrt_contiguous() {
    unary_assert_contiguous::<f64, _, _, Cpu>([1.0; 2], |f| f.sqrt(), |f| f.sqrt_inplace());
}

#[test]
fn test_unary_ln_nd_strided() {
    unary_assert_nd_strided::<f64, _, _, Cpu>([1.0; 16], |f| f.ln(), |f| f.ln_inplace());
}

#[test]
fn test_unary_ln_1d_strided() {
    unary_assert_1d_strided::<f64, _, _, Cpu>(
        [1.0, 1.0, 1.0],
        |f| f.ln(),
        |f| f.ln_inplace(),
    );
}

#[test]
fn test_unary_ln_contiguous() {
    unary_assert_contiguous::<f64, _, _, Cpu>([1.0; 2], |f| f.ln(), |f| f.ln_inplace());
}

#[test]
fn test_unary_ln_nd_strided_f32() {
    unary_assert_nd_strided::<f32, _, _, Cpu>([1.5; 16], |f| f.ln(), |f| f.ln_inplace());
}

#[test]
fn test_unary_ln_1d_strided_f32() {
    unary_assert_1d_strided::<f32, _, _, Cpu>(
        [1.5, 1.5, 1.5],
        |f| f.ln(),
        |f| f.ln_inplace(),
    );
}

#[test]
fn test_unary_ln_contiguous_f32() {
    unary_assert_contiguous::<f32, _, _, Cpu>([1.5; 2], |f| f.ln(), |f| f.ln_inplace());
}

#[test]
fn test_unary_expm1_nd_strided_f32() {
    unary_assert_nd_strided::<f32, _, _, Cpu>([1.5; 16], |f| f.exp_m1(), |f| f.expm1_inplace());
}

#[test]
fn test_unary_expm1_1d_strided_f32() {
    unary_assert_1d_strided::<f32, _, _, Cpu>(
        [1.5, 1.5, 1.5],
        |f| f.exp_m1(),
        |f| f.expm1_inplace(),
    );
}

#[test]
fn test_unary_expm1_contiguous_f32() {
    unary_assert_contiguous::<f32, _, _, Cpu>([1.5; 2], |f| f.exp_m1(), |f| f.expm1_inplace());
}

#[test]
fn test_unary_ln1p_nd_strided_f32() {
    unary_assert_nd_strided::<f32, _, _, Cpu>([0.5; 16], |f| f.ln_1p(), |f| f.ln1p_inplace());
}

#[test]
fn test_unary_ln1p_1d_strided_f32() {
    unary_assert_1d_strided::<f32, _, _, Cpu>(
        [0.5, 0.5, 0.5],
        |f| f.ln_1p(),
        |f| f.ln1p_inplace(),
    );
}

#[test]
fn test_unary_ln1p_contiguous_f32() {
    unary_assert_contiguous::<f32, _, _, Cpu>([0.5; 2], |f| f.ln_1p(), |f| f.ln1p_inplace());
}

#[test]
fn test_unary_floor_nd_strided_f32() {
    unary_assert_nd_strided::<f32, _, _, Cpu>([1.7; 16], |f| f.floor(), |f| f.floor_inplace());
}

#[test]
fn test_unary_floor_1d_strided_f32() {
    unary_assert_1d_strided::<f32, _, _, Cpu>(
        [1.7, 2.3, 3.9],
        |f| f.floor(),
        |f| f.floor_inplace(),
    );
}

#[test]
fn test_unary_floor_contiguous_f32() {
    unary_assert_contiguous::<f32, _, _, Cpu>([1.7, 2.3], |f| f.floor(), |f| f.floor_inplace());
}

#[test]
fn test_unary_ceil_nd_strided_f32() {
    unary_assert_nd_strided::<f32, _, _, Cpu>([1.3; 16], |f| f.ceil(), |f| f.ceil_inplace());
}

#[test]
fn test_unary_ceil_1d_strided_f32() {
    unary_assert_1d_strided::<f32, _, _, Cpu>(
        [1.3, 2.7, 3.1],
        |f| f.ceil(),
        |f| f.ceil_inplace(),
    );
}

#[test]
fn test_unary_ceil_contiguous_f32() {
    unary_assert_contiguous::<f32, _, _, Cpu>([1.3, 2.7], |f| f.ceil(), |f| f.ceil_inplace());
}

#[test]
fn test_unary_round_nd_strided_f32() {
    unary_assert_nd_strided::<f32, _, _, Cpu>([1.4; 16], |f| f.round(), |f| f.round_inplace());
}

#[test]
fn test_unary_round_1d_strided_f32() {
    unary_assert_1d_strided::<f32, _, _, Cpu>(
        [1.4, 2.6, 3.5],
        |f| f.round(),
        |f| f.round_inplace(),
    );
}

#[test]
fn test_unary_round_contiguous_f32() {
    unary_assert_contiguous::<f32, _, _, Cpu>([1.4, 2.6], |f| f.round(), |f| f.round_inplace());
}

#[test]
fn test_unary_trunc_nd_strided_f32() {
    unary_assert_nd_strided::<f32, _, _, Cpu>([-1.4; 16], |f| f.trunc(), |f| f.trunc_inplace());
}

#[test]
fn test_unary_trunc_1d_strided_f32() {
    unary_assert_1d_strided::<f32, _, _, Cpu>(
        [-1.4, 2.6, 3.5],
        |f| f.trunc(),
        |f| f.trunc_inplace(),
    );
}

#[test]
fn test_unary_trunc_contiguous_f32() {
    unary_assert_contiguous::<f32, _, _, Cpu>([-1.4, 2.6], |f| f.trunc(), |f| f.trunc_inplace());
}

// Trigonometric function tests
#[test]
fn test_unary_sin_contiguous() {
    unary_assert_contiguous::<f64, _, _, Cpu>([1.0, 1.0], f64::sin, |f| f.sin_inplace());
}

#[test]
fn test_unary_sin_1d_strided() {
    unary_assert_1d_strided::<f64, _, _, Cpu>([1.0, 1.0, 1.0], f64::sin, |f| f.sin_inplace());
}

#[test]
fn test_unary_sin_nd_strided() {
    unary_assert_nd_strided::<f64, _, _, Cpu>([1.0; 16], f64::sin, |f| f.sin_inplace());
}

#[test]
fn test_unary_cos_contiguous() {
    unary_assert_contiguous::<f64, _, _, Cpu>([1.0, 1.0], f64::cos, |f| f.cos_inplace());
}

#[test]
fn test_unary_cos_1d_strided() {
    unary_assert_1d_strided::<f64, _, _, Cpu>([1.0, 1.0, 1.0], f64::cos, |f| f.cos_inplace());
}

#[test]
fn test_unary_cos_nd_strided() {
    unary_assert_nd_strided::<f64, _, _, Cpu>([1.0; 16], f64::cos, |f| f.cos_inplace());
}

#[test]
fn test_unary_tan_contiguous() {
    unary_assert_contiguous::<f64, _, _, Cpu>([1.0, 1.0], f64::tan, |f| f.tan_inplace());
}

#[test]
fn test_unary_tan_1d_strided() {
    unary_assert_1d_strided::<f64, _, _, Cpu>([1.0, 1.0, 1.0], f64::tan, |f| f.tan_inplace());
}

#[test]
fn test_unary_tan_nd_strided() {
    unary_assert_nd_strided::<f64, _, _, Cpu>([1.0; 16], f64::tan, |f| f.tan_inplace());
}

// Inverse trigonometric functions
#[test]
fn test_unary_asin_contiguous() {
    unary_assert_contiguous::<f64, _, _, Cpu>([0.5, 0.5], f64::asin, |f| f.asin_inplace());
}

#[test]
fn test_unary_asin_1d_strided() {
    unary_assert_1d_strided::<f64, _, _, Cpu>([0.5, 0.5, 0.5], f64::asin, |f| f.asin_inplace());
}

#[test]
fn test_unary_asin_nd_strided() {
    unary_assert_nd_strided::<f64, _, _, Cpu>([0.5; 16], f64::asin, |f| f.asin_inplace());
}

#[test]
fn test_unary_acos_contiguous() {
    unary_assert_contiguous::<f64, _, _, Cpu>([0.5, 0.5], f64::acos, |f| f.acos_inplace());
}

#[test]
fn test_unary_acos_1d_strided() {
    unary_assert_1d_strided::<f64, _, _, Cpu>([0.5, 0.5, 0.5], f64::acos, |f| f.acos_inplace());
}

#[test]
fn test_unary_acos_nd_strided() {
    unary_assert_nd_strided::<f64, _, _, Cpu>([0.5; 16], f64::acos, |f| f.acos_inplace());
}

#[test]
fn test_unary_atan_contiguous() {
    unary_assert_contiguous::<f64, _, _, Cpu>([1.0, 1.0], f64::atan, |f| f.atan_inplace());
}

#[test]
fn test_unary_atan_1d_strided() {
    unary_assert_1d_strided::<f64, _, _, Cpu>([1.0, 1.0, 1.0], f64::atan, |f| f.atan_inplace());
}

#[test]
fn test_unary_atan_nd_strided() {
    unary_assert_nd_strided::<f64, _, _, Cpu>([1.0; 16], f64::atan, |f| f.atan_inplace());
}

// Hyperbolic functions
#[test]
fn test_unary_sinh_contiguous() {
    unary_assert_contiguous::<f64, _, _, Cpu>([1.0, 1.0], f64::sinh, |f| f.sinh_inplace());
}

#[test]
fn test_unary_sinh_1d_strided() {
    unary_assert_1d_strided::<f64, _, _, Cpu>([1.0, 1.0, 1.0], f64::sinh, |f| f.sinh_inplace());
}

#[test]
fn test_unary_sinh_nd_strided() {
    unary_assert_nd_strided::<f64, _, _, Cpu>([1.0; 16], f64::sinh, |f| f.sinh_inplace());
}

#[test]
fn test_unary_cosh_contiguous() {
    unary_assert_contiguous::<f64, _, _, Cpu>([1.0, 1.0], f64::cosh, |f| f.cosh_inplace());
}

#[test]
fn test_unary_cosh_1d_strided() {
    unary_assert_1d_strided::<f64, _, _, Cpu>([1.0, 1.0, 1.0], f64::cosh, |f| f.cosh_inplace());
}

#[test]
fn test_unary_cosh_nd_strided() {
    unary_assert_nd_strided::<f64, _, _, Cpu>([1.0; 16], f64::cosh, |f| f.cosh_inplace());
}

// Inverse hyperbolic functions
#[test]
fn test_unary_asinh_contiguous() {
    unary_assert_contiguous::<f64, _, _, Cpu>([1.0, 1.0], f64::asinh, |f| f.asinh_inplace());
}

#[test]
fn test_unary_asinh_1d_strided() {
    unary_assert_1d_strided::<f64, _, _, Cpu>([1.0, 1.0, 1.0], f64::asinh, |f| f.asinh_inplace());
}

#[test]
fn test_unary_asinh_nd_strided() {
    unary_assert_nd_strided::<f64, _, _, Cpu>([0.5; 16], f64::asinh, |f| f.asinh_inplace());
}

#[test]
fn test_unary_acosh_contiguous() {
    unary_assert_contiguous::<f64, _, _, Cpu>([1.0, 1.0], f64::acosh, |f| f.acosh_inplace());
}

#[test]
fn test_unary_acosh_1d_strided() {
    unary_assert_1d_strided::<f64, _, _, Cpu>([1.0, 1.0, 1.0], f64::acosh, |f| f.acosh_inplace());
}

#[test]
fn test_unary_acosh_nd_strided() {
    unary_assert_nd_strided::<f64, _, _, Cpu>([1.0; 16], f64::acosh, |f| f.acosh_inplace());
}

#[test]
fn test_unary_atanh_contiguous() {
    unary_assert_contiguous::<f64, _, _, Cpu>([0.5, 0.25], f64::atanh, |f| f.atanh_inplace());
}

#[test]
fn test_unary_atanh_1d_strided() {
    unary_assert_1d_strided::<f64, _, _, Cpu>([0.125, 0.5, 0.25], f64::atanh, |f| f.atanh_inplace());
}

#[test]
fn test_unary_atanh_nd_strided() {
    unary_assert_nd_strided::<f64, _, _, Cpu>([0.5; 16], f64::atanh, |f| f.atanh_inplace());
}

// Other unary operations
#[test]
fn test_unary_rsqrt_contiguous() {
    unary_assert_contiguous::<f64, _, _, Cpu>([0.5, 0.25], |f| (1. / f.sqrt()), |f| f.rsqrt_inplace());
}

#[test]
fn test_unary_rsqrt_1d_strided() {
    unary_assert_1d_strided::<f64, _, _, Cpu>([0.125, 0.5, 0.25], |f| (1. / f.sqrt()), |f| f.rsqrt_inplace());
}

#[test]
fn test_unary_rsqrt_nd_strided() {
    unary_assert_nd_strided::<f64, _, _, Cpu>([0.5; 16], |f| (1. / f.sqrt()), |f| f.rsqrt_inplace());
}

#[test]
fn test_unary_reciprocal_contiguous() {
    unary_assert_contiguous::<f64, _, _, Cpu>([0.5, 0.25], |f| 1. / f, |f| f.reciprocal_inplace());
}

#[test]
fn test_unary_reciprocal_1d_strided() {
    unary_assert_1d_strided::<f64, _, _, Cpu>([0.125, 0.5, 0.25], |f| 1. / f, |f| f.reciprocal_inplace());
}

#[test]
fn test_unary_reciprocal_nd_strided() {
    unary_assert_nd_strided::<f64, _, _, Cpu>([0.5; 16], |f| 1. / f, |f| f.reciprocal_inplace());
}

#[test]
fn test_unary_square_contiguous() {
    unary_assert_contiguous::<f64, _, _, Cpu>([0.5, 0.25], |f| f * f, |f| f.square_inplace());
}

#[test]
fn test_unary_square_1d_strided() {
    unary_assert_1d_strided::<f64, _, _, Cpu>([0.125, 0.5, 0.25], |f| f * f, |f| f.square_inplace());
}

#[test]
fn test_unary_square_nd_strided() {
    unary_assert_nd_strided::<f64, _, _, Cpu>([0.5; 16], |f| f * f, |f| f.square_inplace());
}

#[test]
fn test_unary_cube_contiguous() {
    unary_assert_contiguous::<f64, _, _, Cpu>([0.5, 0.25], |f| f * f * f, |f| f.cube_inplace());
}

#[test]
fn test_unary_cube_1d_strided() {
    unary_assert_1d_strided::<f64, _, _, Cpu>([0.125, 0.5, 0.25], |f| f * f * f, |f| f.cube_inplace());
}

#[test]
fn test_unary_cube_nd_strided() {
    unary_assert_nd_strided::<f64, _, _, Cpu>([0.5; 16], |f| f * f * f, |f| f.cube_inplace());
}

#[test]
fn test_unary_exp_contiguous() {
    unary_assert_contiguous::<f64, _, _, Cpu>([0.5, 0.25], f64::exp, |f| f.exp_inplace());
}

#[test]
fn test_unary_exp_1d_strided() {
    unary_assert_1d_strided::<f64, _, _, Cpu>([0.125, 0.5, 0.25], f64::exp, |f| f.exp_inplace());
}

#[test]
fn test_unary_exp_nd_strided() {
    unary_assert_nd_strided::<f64, _, _, Cpu>([0.5; 16], f64::exp, |f| f.exp_inplace());
}

#[test]
fn test_unary_sign_contiguous() {
    unary_assert_contiguous::<f64, _, _, Cpu>([0.5, -0.25], f64::signum, |f| f.sign_inplace());
}

#[test]
fn test_unary_sign_1d_strided() {
    unary_assert_1d_strided::<f64, _, _, Cpu>([-0.125, 0.5, -0.25], f64::signum, |f| f.sign_inplace());
}

#[test]
fn test_unary_sign_nd_strided() {
    unary_assert_nd_strided::<f64, _, _, Cpu>([0.5; 16], f64::signum, |f| f.sign_inplace());
}

#[test]
fn test_unary_negate_continous_cuda() {
    unary_assert_contiguous::<f64, _, _, Cuda>([1.0, 1.0], std::ops::Neg::neg, |f| {
        f.neg_inplace()
    });
}

#[test]
fn test_unary_negate_1d_strided_cuda() {
    unary_assert_1d_strided::<f64, _, _, Cuda>([1.0, 1.0, 1.0], std::ops::Neg::neg, |f| {
        f.neg_inplace()
    });
}

#[test]
fn mod_test_unary_negate_nd_strided() {
    unary_assert_nd_strided::<f64, _, _, Cuda>([1.0; 16], std::ops::Neg::neg, |f| {
        f.neg_inplace()
    });
}

#[test]
fn test_unary_cos_continous_cuda() {
    unary_assert_contiguous::<f64, _, _, Cuda>([1.0, 1.0], f64::cos, |f| {
        f.cos_inplace()
    });
}

#[test]
fn test_unary_cos_1d_strided_cuda() {
    unary_assert_1d_strided::<f64, _, _, Cuda>([1.0, 1.0, 1.0], f64::cos, |f| {
        f.cos_inplace()
    });
}

#[test]
fn test_unary_cos_nd_strided_cuda() {
    unary_assert_nd_strided::<f64, _, _, Cuda>([1.0; 16], f64::cos, |f| {
        f.cos_inplace()
    });
}

#[test]
fn test_unary_sin_continous_cuda() {
    unary_assert_contiguous::<f64, _, _, Cuda>([1.0, 1.0], f64::sin, |f| {
        f.sin_inplace()
    });
}

#[test]
fn test_unary_sin_1d_strided_cuda() {
    unary_assert_1d_strided::<f64, _, _, Cuda>([1.0, 1.0, 1.0], f64::sin, |f| {
        f.sin_inplace()
    });
}

#[test]
fn test_unary_sin_nd_strided_cuda() {
    unary_assert_nd_strided::<f64, _, _, Cuda>([1.0; 16], f64::sin, |f| {
        f.sin_inplace()
    });
}

#[test]
fn test_unary_tan_continous_cuda() {
    unary_assert_contiguous::<f64, _, _, Cuda>([1.0, 1.0], f64::tan, |f| {
        f.tan_inplace()
    });
}

#[test]
fn test_unary_tan_1d_strided_cuda() {
    unary_assert_1d_strided::<f64, _, _, Cuda>([1.0, 1.0, 1.0], f64::tan, |f| {
        f.tan_inplace()
    });
}

#[test]
fn test_unary_tan_nd_strided_cuda() {
    unary_assert_nd_strided::<f64, _, _, Cuda>([1.0; 16], f64::tan, |f| {
        f.tan_inplace()
    });
}


/*
ARCTRIG
 */

#[test]
fn test_unary_acos_continous_cuda() {
    unary_assert_contiguous::<f64, _, _, Cuda>([1.0, 1.0], f64::acos, |f| {
        f.acos_inplace()
    });
}

#[test]
fn test_unary_acos_1d_strided_cuda() {
    unary_assert_1d_strided::<f64, _, _, Cuda>([1.0, 1.0, 1.0], f64::acos, |f| {
        f.acos_inplace()
    });
}

#[test]
fn test_unary_acos_nd_strided_cuda() {
    unary_assert_nd_strided::<f64, _, _, Cuda>([1.0; 16], f64::acos, |f| {
        f.acos_inplace()
    });
}

#[test]
fn test_unary_asin_continous_cuda() {
    unary_assert_contiguous::<f64, _, _, Cuda>([1.0, 1.0], f64::asin, |f| {
        f.asin_inplace()
    });
}

#[test]
fn test_unary_asin_1d_strided_cuda() {
    unary_assert_1d_strided::<f64, _, _, Cuda>([1.0, 1.0, 1.0], f64::asin, |f| {
        f.asin_inplace()
    });
}

#[test]
fn test_unary_asin_nd_strided_cuda() {
    unary_assert_nd_strided::<f64, _, _, Cuda>([1.0; 16], f64::asin, |f| {
        f.asin_inplace()
    });
}

#[test]
fn test_unary_atan_continous_cuda() {
    unary_assert_contiguous::<f64, _, _, Cuda>([1.0, 1.0], f64::atan, |f| {
        f.atan_inplace()
    });
}

#[test]
fn test_unary_atan_1d_strided_cuda() {
    unary_assert_1d_strided::<f64, _, _, Cuda>([1.0, 1.0, 1.0], f64::atan, |f| {
        f.atan_inplace()
    });
}

#[test]
fn test_unary_atan_nd_strided_cuda() {
    unary_assert_nd_strided::<f64, _, _, Cuda>([1.0; 16], f64::atan, |f| {
        f.atan_inplace()
    });
}


/**
 * 
 * HYPERBOLIC ARC TRIG
 */

 #[test]
fn test_unary_cosh_continous_cuda() {
    unary_assert_contiguous::<f64, _, _, Cuda>([1.0, 1.0], f64::cosh, |f| {
        f.cosh_inplace()
    });
}

#[test]
fn test_unary_cosh_1d_strided_cuda() {
    unary_assert_1d_strided::<f64, _, _, Cuda>([1.0, 1.0, 1.0], f64::cosh, |f| {
        f.cosh_inplace()
    });
}

#[test]
fn test_unary_cosh_nd_strided_cuda() {
    unary_assert_nd_strided::<f64, _, _, Cuda>([1.0; 16], f64::cosh, |f| {
        f.cosh_inplace()
    });
}

#[test]
fn test_unary_sinh_continous_cuda() {
    unary_assert_contiguous::<f64, _, _, Cuda>([1.0, 1.0], f64::sinh, |f| {
        f.sinh_inplace()
    });
}

#[test]
fn test_unary_sinh_1d_strided_cuda() {
    unary_assert_1d_strided::<f64, _, _, Cuda>([1.0, 1.0, 1.0], f64::sinh, |f| {
        f.sinh_inplace()
    });
}

#[test]
fn test_unary_sinh_nd_strided_cuda() {
    unary_assert_nd_strided::<f64, _, _, Cuda>([1.0; 16], f64::sinh, |f| {
        f.sinh_inplace()
    });
}




/*
ARCTRIG
 */

#[test]
fn test_unary_acosh_continous_cuda() {
    unary_assert_contiguous::<f64, _, _, Cuda>([1.0, 1.0], f64::acosh, |f| {
        f.acosh_inplace()
    });
}

#[test]
fn test_unary_acosh_1d_strided_cuda() {
    unary_assert_1d_strided::<f64, _, _, Cuda>([1.0, 1.0, 1.0], f64::acosh, |f| {
        f.acosh_inplace()
    });
}

#[test]
fn test_unary_acosh_nd_strided_cuda() {
    unary_assert_nd_strided::<f64, _, _, Cuda>([1.0; 16], f64::acosh, |f| {
        f.acosh_inplace()
    });
}

#[test]
fn test_unary_asinh_continous_cuda() {
    unary_assert_contiguous::<f64, _, _, Cuda>([1.0, 1.0], f64::asinh, |f| {
        f.asinh_inplace()
    });
}

#[test]
fn test_unary_asinh_1d_strided_cuda() {
    unary_assert_1d_strided::<f64, _, _, Cuda>([1.0, 1.0, 1.0], f64::asinh, |f| {
        f.asinh_inplace()
    });
}

#[test]
fn test_unary_asinh_nd_strided_cuda() {
    unary_assert_nd_strided::<f64, _, _, Cuda>([0.5; 16], f64::asinh, |f| {
        f.asinh_inplace()
    });
}

#[test]
fn test_unary_atanh_continous_cuda() {
    unary_assert_contiguous::<f64, _, _, Cuda>([0.5, 0.25], f64::atanh, |f| {
        f.atanh_inplace()
    });
}

#[test]
fn test_unary_atanh_1d_strided_cuda() {
    unary_assert_1d_strided::<f64, _, _, Cuda>([0.125, 0.5, 0.25], f64::atanh, |f| {
        f.atanh_inplace()
    });
}

#[test]
fn test_unary_atanh_nd_strided_cuda() {
    unary_assert_nd_strided::<f64, _, _, Cuda>([0.5; 16], f64::atanh, |f| {
        f.atanh_inplace()
    });
}


/*
RSQRT */

#[test]
fn test_unary_rsqrt_continous_cuda() {
    unary_assert_contiguous::<f64, _, _, Cuda>([0.5, 0.25], |f| (1. / f.sqrt()), |f| {
        f.rsqrt_inplace()
    });
}

#[test]
fn test_unary_rsqrt_1d_strided_cuda() {
    unary_assert_1d_strided::<f64, _, _, Cuda>([0.125, 0.5, 0.25], |f| (1. / f.sqrt()), |f| {
        f.rsqrt_inplace()
    });
}

#[test]
fn test_unary_rsqrt_nd_strided_cuda() {
    unary_assert_nd_strided::<f64, _, _, Cuda>([0.5; 16], |f| (1. / f.sqrt()), |f| {
        f.rsqrt_inplace()
    });
}

#[test]
fn test_unary_sign_continous_cuda() {
    unary_assert_contiguous::<f64, _, _, Cuda>([0.5, 0.25], f64::signum, |f| {
        f.sign_inplace()
    });
}

#[test]
fn test_unary_sign_1d_strided_cuda() {
    unary_assert_1d_strided::<f64, _, _, Cuda>([0.125, 0.5, 0.25], f64::signum, |f| {
        f.sign_inplace()
    });
}

#[test]
fn test_unary_sign_nd_strided_cuda() {
    unary_assert_nd_strided::<f64, _, _, Cuda>([0.5; 16], f64::signum, |f| {
        f.sign_inplace()
    });
}

#[test]
fn test_unary_exp_continous_cuda() {
    unary_assert_contiguous::<f64, _, _, Cuda>([0.5, 0.25], f64::exp, |f| {
        f.exp_inplace()
    });
}

#[test]
fn test_unary_exp_1d_strided_cuda() {
    unary_assert_1d_strided::<f64, _, _, Cuda>([0.125, 0.5, 0.25], f64::exp, |f| {
        f.exp_inplace()
    });
}

#[test]
fn test_unary_exp_nd_strided_cuda() {
    unary_assert_nd_strided::<f64, _, _, Cuda>([0.5; 16], f64::exp, |f| {
        f.exp_inplace()
    });
}

#[test]
fn test_unary_square_continous_cuda() {
    unary_assert_contiguous::<f64, _, _, Cuda>([0.5, 0.25], |f| f * f, |f| {
        f.square_inplace()
    });
}

#[test]
fn test_unary_square_1d_strided_cuda() {
    unary_assert_1d_strided::<f64, _, _, Cuda>([0.125, 0.5, 0.25], |f| f * f, |f| {
        f.square_inplace()
    });
}

#[test]
fn test_unary_square_nd_strided_cuda() {
    unary_assert_nd_strided::<f64, _, _, Cuda>([0.5; 16], |f| f * f, |f| {
        f.square_inplace()
    });
}

 #[test]
fn test_unary_cube_continous_cuda() {
    unary_assert_contiguous::<f64, _, _, Cuda>([0.5, 0.25], |f| f * f * f, |f| {
        f.cube_inplace()
    });
}

#[test]
fn test_unary_cube_1d_strided_cuda() {
    unary_assert_1d_strided::<f64, _, _, Cuda>([0.125, 0.5, 0.25], |f| f * f * f, |f| {
        f.cube_inplace()
    });
}

#[test]
fn test_unary_cube_nd_strided_cuda() {
    unary_assert_nd_strided::<f64, _, _, Cuda>([0.5; 16], |f| f * f * f, |f| {
        f.cube_inplace()
    });
}

 #[test]
fn test_unary_reciprocal_continous_cuda() {
    unary_assert_contiguous::<f64, _, _, Cuda>([0.5, 0.25], |f| 1. / f, |f| {
        f.reciprocal_inplace()
    });
}

#[test]
fn test_unary_reciprocal_1d_strided_cuda() {
    unary_assert_1d_strided::<f64, _, _, Cuda>([0.125, 0.5, 0.25], |f| 1. / f, |f| {
        f.reciprocal_inplace()
    });
}

#[test]
fn test_unary_reciprocal_nd_strided_cuda() {
    unary_assert_nd_strided::<f64, _, _, Cuda>([0.5; 16], |f| 1. / f, |f| {
        f.reciprocal_inplace()
    });
}


#[test]
fn test_unary_abs_continous_cuda() {
    unary_assert_contiguous::<f64, _, _, Cuda>([-1.0, 1.3], |f| f.abs(), |f| f.abs_inplace());
}

#[test]
fn test_unary_abs_1d_strided_cuda() {
    unary_assert_1d_strided::<f64, _, _, Cuda>(
        [1.0, -1.0, 3.0],
        |f| f.abs(),
        |f| f.abs_inplace(),
    );
}

#[test]
fn test_unary_abs_nd_strided() {
    unary_assert_nd_strided::<f64, _, _, Cuda>([-1.0; 16], |f| f.abs(), |f| f.abs_inplace());
}

#[test]
fn test_unary_relu_contiguous_cuda() {
    unary_assert_contiguous::<f64, _, _, Cuda>([-1.0, 1.0], |f| f.max(0.0), |f| f.relu_inplace());
}

#[test]
fn test_unary_relu_1d_strided_cuda() {
    unary_assert_1d_strided::<f64, _, _, Cuda>(
        [-1.0, 1.0, -1.0],
        |f| f.max(0.0),
        |f| f.relu_inplace(),
    );
}

#[test]
fn test_unary_relu_nd_strided_cuda() {
    unary_assert_nd_strided::<f64, _, _, Cuda>(
        [
            -1.0, 1.0, 0.0, 2.0, 1.0, 2.3, -0.3, 0.4, 0.0, -0.3, 0.4, 0.5, -0.2, 0.1, 0.2, -0.5,
        ],
        |f| f.max(0.0),
        |f| f.relu_inplace(),
    );
}

#[test]
fn test_unary_sigmoid_contiguous_cuda() {
    unary_assert_contiguous::<f64, _, _, Cuda>(
        [1.0, 1.0],
        |f| 1. / (1. + (-f).exp()),
        |f| f.sigmoid_inplace(),
    );
}

#[test]
fn test_unary_sigmoid_1d_strided_cuda() {
    unary_assert_1d_strided::<f64, _, _, Cuda>(
        [1.0, 1.0, 1.0],
        |f| 1. / (1. + (-f).exp()),
        |f| f.sigmoid_inplace(),
    );
}

#[test]
fn test_unary_sigmoid_nd_strided_cuda() {
    unary_assert_nd_strided::<f64, _, _, Cuda>(
        [1.0; 16],
        |f| 1. / (1. + (-f).exp()),
        |f| f.sigmoid_inplace(),
    );
}

#[test]
fn test_unary_silu_contiguous_cuda() {
    unary_assert_contiguous::<f64, _, _, Cuda>(
        [1.0, 1.0],
        |f| f / (1. + (-f).exp()),
        |f| f.silu_inplace(),
    );
}

#[test]
fn test_unary_silu_1d_strided_cuda() {
    unary_assert_1d_strided::<f64, _, _, Cuda>(
        [1.0, 1.0, 1.0],
        |f| f / (1. + (-f).exp()),
        |f| f.silu_inplace(),
    );
}

#[test]
fn test_unary_silu_nd_strided_cuda() {
    unary_assert_nd_strided::<f64, _, _, Cuda>(
        [1.0; 16],
        |f| f / (1. + (-f).exp()),
        |f| f.silu_inplace(),
    );
}

#[test]
fn test_unary_tanh_contiguous_cuda() {
    unary_assert_contiguous::<f64, _, _, Cuda>(
        [1.0, 1.0],
        |f| (f.exp() - (-f).exp()) / (f.exp() + (-f).exp()),
        |f| f.tanh_inplace(),
    );
}

#[test]
fn test_unary_tanh_1d_strided_cuda() {
    unary_assert_1d_strided::<f64, _, _, Cuda>(
        [1.0, 1.0, 1.0],
        |f| (f.exp() - (-f).exp()) / (f.exp() + (-f).exp()),
        |f| f.tanh_inplace(),
    );
}

#[test]
fn test_unary_tanh_nd_strided_cuda() {
    unary_assert_nd_strided::<f64, _, _, Cuda>(
        [1.0; 16],
        |f| (f.exp() - (-f).exp()) / (f.exp() + (-f).exp()),
        |f| f.tanh_inplace(),
    );
}

#[test]
fn mod_test_unary_sqrt_nd_strided() {
    unary_assert_nd_strided::<f64, _, _, Cuda>([1.0; 16], |f| f.sqrt(), |f| f.sqrt_inplace());
}

#[test]
fn mod_test_unary_sqrt_1d_strided() {
    unary_assert_1d_strided::<f64, _, _, Cuda>(
        [1.0, 1.0, 1.0],
        |f| f.sqrt(),
        |f| f.sqrt_inplace(),
    );
}

#[test]
fn mod_test_unary_sqrt_contiguous() {
    unary_assert_contiguous::<f64, _, _, Cuda>([1.0; 2], |f| f.sqrt(), |f| f.sqrt_inplace());
}

#[test]
fn test_unary_sqrt_nd_strided_f32() {
    unary_assert_nd_strided::<f32, _, _, Cuda>([1.0; 16], |f| f.sqrt(), |f| f.sqrt_inplace());
}

#[test]
fn test_unary_sqrt_1d_strided_f32() {
    unary_assert_1d_strided::<f32, _, _, Cuda>(
        [1.0, 1.0, 1.0],
        |f| f.sqrt(),
        |f| f.sqrt_inplace(),
    );
}

#[test]
fn test_unary_sqrt_contiguous_f32() {
    unary_assert_contiguous::<f32, _, _, Cuda>([1.0; 2], |f| f.sqrt(), |f| f.sqrt_inplace());
}

#[test]
fn mod_test_unary_ln_nd_strided_f32() {
    unary_assert_nd_strided::<f32, _, _, Cuda>([1.0; 16], |f| f.ln(), |f| f.ln_inplace());
}

#[test]
fn mod_test_unary_ln_1d_strided_f32() {
    unary_assert_1d_strided::<f32, _, _, Cuda>(
        [1.0, 1.0, 1.0],
        |f| f.ln(),
        |f| f.ln_inplace(),
    );
}

#[test]
fn mod_test_unary_ln_contiguous_f32() {
    unary_assert_contiguous::<f32, _, _, Cuda>([1.0; 2], |f| f.ln(), |f| f.ln_inplace());
}

#[test]
fn test_unary_ln_nd_strided_f64() {
    unary_assert_nd_strided::<f64, _, _, Cuda>([1.5; 16], |f| f.ln(), |f| f.ln_inplace());
}

#[test]
fn test_unary_ln_1d_strided_f64() {
    unary_assert_1d_strided::<f64, _, _, Cuda>(
        [1.5, 1.1, 1.5],
        |f| f.ln(),
        |f| f.ln_inplace(),
    );
}

#[test]
fn test_unary_ln_contiguous_f64() {
    unary_assert_contiguous::<f64, _, _, Cuda>([1.5; 2], |f| f.ln(), |f| f.ln_inplace());
}

#[test]
fn test_unary_expm1_nd_strided_f64() {
    unary_assert_nd_strided::<f64, _, _, Cuda>([1.5; 16], |f| f.exp_m1(), |f| f.expm1_inplace());
}

#[test]
fn test_unary_expm1_1d_strided_f64() {
    unary_assert_1d_strided::<f64, _, _, Cuda>(
        [1.5, 1.1, 1.5],
        |f| f.exp_m1(),
        |f| f.expm1_inplace(),
    );
}

#[test]
fn test_unary_expm1_contiguous_f64() {
    unary_assert_contiguous::<f64, _, _, Cuda>([1.5; 2], |f| f.exp_m1(), |f| f.expm1_inplace());
}

#[test]
fn mod_test_unary_expm1_nd_strided_f32() {
    unary_assert_nd_strided::<f32, _, _, Cuda>([1.5; 16], |f| f.exp_m1(), |f| f.expm1_inplace());
}

#[test]
fn mod_test_unary_expm1_1d_strided_f32() {
    unary_assert_1d_strided::<f32, _, _, Cuda>(
        [1.5, 1.1, 1.5],
        |f| f.exp_m1(),
        |f| f.expm1_inplace(),
    );
}

#[test]
fn mod_test_unary_expm1_contiguous_f32() {
    unary_assert_contiguous::<f64, _, _, Cuda>([1.5; 2], |f| f.exp_m1(), |f| f.expm1_inplace());
}

#[test]
fn test_unary_ln1p_nd_strided_f64() {
    unary_assert_nd_strided::<f64, _, _, Cuda>([0.5; 16], |f| f.ln_1p(), |f| f.ln1p_inplace());
}

#[test]
fn test_unary_ln1p_1d_strided_f64() {
    unary_assert_1d_strided::<f64, _, _, Cuda>(
        [0.5, 0.1, 0.5],
        |f| f.ln_1p(),
        |f| f.ln1p_inplace(),
    );
}

#[test]
fn test_unary_ln1p_contiguous_f64() {
    unary_assert_contiguous::<f64, _, _, Cuda>([0.5; 2], |f| f.ln_1p(), |f| f.ln1p_inplace());
}

#[test]
fn mod_test_unary_ln1p_nd_strided_f32() {
    unary_assert_nd_strided::<f32, _, _, Cuda>([0.5; 16], |f| f.ln_1p(), |f| f.ln1p_inplace());
}

#[test]
fn mod_test_unary_ln1p_1d_strided_f32() {
    unary_assert_1d_strided::<f32, _, _, Cuda>(
        [0.5, 0.1, 0.5],
        |f| f.ln_1p(),
        |f| f.ln1p_inplace(),
    );
}

#[test]
fn mod_test_unary_ln1p_contiguous_f32() {
    unary_assert_contiguous::<f32, _, _, Cuda>([0.5; 2], |f| f.ln_1p(), |f| f.ln1p_inplace());
}

#[test]
fn test_unary_floor_nd_strided_f64() {
    unary_assert_nd_strided::<f64, _, _, Cuda>([1.7; 16], |f| f.floor(), |f| f.floor_inplace());
}

#[test]
fn test_unary_floor_1d_strided_f64() {
    unary_assert_1d_strided::<f64, _, _, Cuda>(
        [1.7, 2.3, 3.9],
        |f| f.floor(),
        |f| f.floor_inplace(),
    );
}

#[test]
fn test_unary_floor_contiguous_f64() {
    unary_assert_contiguous::<f64, _, _, Cuda>([1.7, 2.3], |f| f.floor(), |f| f.floor_inplace());
}

#[test]
fn mod_test_unary_floor_nd_strided_f32() {
    unary_assert_nd_strided::<f32, _, _, Cuda>([1.7; 16], |f| f.floor(), |f| f.floor_inplace());
}

#[test]
fn mod_test_unary_floor_1d_strided_f32() {
    unary_assert_1d_strided::<f32, _, _, Cuda>(
        [1.7, 2.3, 3.9],
        |f| f.floor(),
        |f| f.floor_inplace(),
    );
}

#[test]
fn mod_test_unary_floor_contiguous_f32() {
    unary_assert_contiguous::<f32, _, _, Cuda>([1.7, 2.3], |f| f.floor(), |f| f.floor_inplace());
}

#[test]
fn test_unary_ceil_nd_strided_f64() {
    unary_assert_nd_strided::<f64, _, _, Cuda>([1.3; 16], |f| f.ceil(), |f| f.ceil_inplace());
}

#[test]
fn test_unary_ceil_1d_strided_f64() {
    unary_assert_1d_strided::<f64, _, _, Cuda>(
        [1.3, 2.7, 3.1],
        |f| f.ceil(),
        |f| f.ceil_inplace(),
    );
}

#[test]
fn test_unary_ceil_contiguous_f64() {
    unary_assert_contiguous::<f64, _, _, Cuda>([1.3, 2.7], |f| f.ceil(), |f| f.ceil_inplace());
}

#[test]
fn mod_test_unary_ceil_nd_strided_f32() {
    unary_assert_nd_strided::<f32, _, _, Cuda>([1.3; 16], |f| f.ceil(), |f| f.ceil_inplace());
}

#[test]
fn mod_test_unary_ceil_1d_strided_f32() {
    unary_assert_1d_strided::<f32, _, _, Cuda>(
        [1.3, 2.7, 3.1],
        |f| f.ceil(),
        |f| f.ceil_inplace(),
    );
}

#[test]
fn mod_test_unary_ceil_contiguous_f32() {
    unary_assert_contiguous::<f32, _, _, Cuda>([1.3, 2.7], |f| f.ceil(), |f| f.ceil_inplace());
}

#[test]
fn test_unary_round_nd_strided_f64() {
    unary_assert_nd_strided::<f64, _, _, Cuda>([1.3; 16], |f| f.round(), |f| {
        f.round_inplace()
    });
}

#[test]
fn test_unary_round_1d_strided_f64() {
    unary_assert_1d_strided::<f64, _, _, Cuda>(
        [1.3, 2.7, 3.1],
        |f| f.round(),
        |f| f.round_inplace(),
    );
}

#[test]
fn test_unary_round_contiguous_f64() {
    unary_assert_contiguous::<f64, _, _, Cuda>([1.3, 2.7], |f| f.round(), |f| {
        f.round_inplace()
    });
}

#[test]
fn mod_test_unary_round_nd_strided_f32() {
    unary_assert_nd_strided::<f32, _, _, Cuda>([1.3; 16], |f| f.round(), |f| {
        f.round_inplace()
    });
}

#[test]
fn mod_test_unary_round_1d_strided_f32() {
    unary_assert_1d_strided::<f32, _, _, Cuda>(
        [1.3, 2.7, 3.1],
        |f| f.round(),
        |f| f.round_inplace(),
    );
}

#[test]
fn mod_test_unary_round_contiguous_f32() {
    unary_assert_contiguous::<f32, _, _, Cuda>([-1.3, 2.7], |f| f.round(), |f| {
        f.round_inplace()
    });
}

#[test]
fn test_unary_trunc_nd_strided_f64() {
    unary_assert_nd_strided::<f64, _, _, Cuda>([-1.3; 16], |f| f.trunc(), |f| {
        f.trunc_inplace()
    });
}

#[test]
fn test_unary_trunc_1d_strided_f64() {
    unary_assert_1d_strided::<f64, _, _, Cuda>(
        [-1.3, 2.7, 3.1],
        |f| f.trunc(),
        |f| f.trunc_inplace(),
    );
}

#[test]
fn test_unary_trunc_contiguous_f64() {
    unary_assert_contiguous::<f64, _, _, Cuda>([-1.3, 2.7], |f| f.trunc(), |f| {
        f.trunc_inplace()
    });
}

#[test]
fn mod_test_unary_trunc_nd_strided_f32() {
    unary_assert_nd_strided::<f32, _, _, Cuda>([-1.3; 16], |f| f.trunc(), |f| {
        f.trunc_inplace()
    });
}

#[test]
fn mod_test_unary_trunc_1d_strided_f32() {
    unary_assert_1d_strided::<f32, _, _, Cuda>(
        [-1.3, 2.7, 3.1],
        |f| f.trunc(),
        |f| f.trunc_inplace(),
    );
}

#[test]
fn mod_test_unary_trunc_contiguous_f32() {
    unary_assert_contiguous::<f32, _, _, Cuda>([-1.3, 2.7], |f| f.trunc(), |f| {
        f.trunc_inplace()
    });
}

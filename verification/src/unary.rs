//! Element-wise unary operations on floating-point tensors.
//!
//! The floating-point functions themselves come from `num_traits::Float`; the
//! traversal of a (possibly strided) view is verified: every element of the
//! view is visited once and the rest of the buffer is left unchanged.
use vstd::prelude::*;
use crate::access::AsTensor;
use crate::meta::{is_row_major, sizes_fit};
use crate::tensor::{distinct, TensorBase, TensorView, TensorViewMut};

verus! {

broadcast use crate::tensor::group_tensor_parts;

/// Calls `num_traits::Float::sin` (sine); nothing is claimed of the result.
#[verifier::external_body]
fn float_sin<T: num_traits::Float>(x: T) -> T {
    x.sin()
}

/// Calls `num_traits::Float::cos` (cosine); nothing is claimed of the result.
#[verifier::external_body]
fn float_cos<T: num_traits::Float>(x: T) -> T {
    x.cos()
}

/// Calls `num_traits::Float::tan` (tangent); nothing is claimed of the result.
#[verifier::external_body]
fn float_tan<T: num_traits::Float>(x: T) -> T {
    x.tan()
}

/// Calls `num_traits::Float::asin` (arcsine); nothing is claimed of the result.
#[verifier::external_body]
fn float_asin<T: num_traits::Float>(x: T) -> T {
    x.asin()
}

/// Calls `num_traits::Float::acos` (arccosine); nothing is claimed of the result.
#[verifier::external_body]
fn float_acos<T: num_traits::Float>(x: T) -> T {
    x.acos()
}

/// Calls `num_traits::Float::atan` (arctangent); nothing is claimed of the result.
#[verifier::external_body]
fn float_atan<T: num_traits::Float>(x: T) -> T {
    x.atan()
}

/// Calls `num_traits::Float::sinh` (hyperbolic sine); nothing is claimed of the result.
#[verifier::external_body]
fn float_sinh<T: num_traits::Float>(x: T) -> T {
    x.sinh()
}

/// Calls `num_traits::Float::cosh` (hyperbolic cosine); nothing is claimed of the result.
#[verifier::external_body]
fn float_cosh<T: num_traits::Float>(x: T) -> T {
    x.cosh()
}

/// Calls `num_traits::Float::tanh` (hyperbolic tangent); nothing is claimed of the result.
#[verifier::external_body]
fn float_tanh<T: num_traits::Float>(x: T) -> T {
    x.tanh()
}

/// Calls `num_traits::Float::asinh` (inverse hyperbolic sine); nothing is claimed of the result.
#[verifier::external_body]
fn float_asinh<T: num_traits::Float>(x: T) -> T {
    x.asinh()
}

/// Calls `num_traits::Float::acosh` (inverse hyperbolic cosine); nothing is claimed of the result.
#[verifier::external_body]
fn float_acosh<T: num_traits::Float>(x: T) -> T {
    x.acosh()
}

/// Calls `num_traits::Float::atanh` (inverse hyperbolic tangent); nothing is claimed of the result.
#[verifier::external_body]
fn float_atanh<T: num_traits::Float>(x: T) -> T {
    x.atanh()
}

/// Calls `num_traits::Float::sqrt` (square root); nothing is claimed of the result.
#[verifier::external_body]
fn float_sqrt<T: num_traits::Float>(x: T) -> T {
    x.sqrt()
}

/// Calls `num_traits::Float::exp` (exponential); nothing is claimed of the result.
#[verifier::external_body]
fn float_exp<T: num_traits::Float>(x: T) -> T {
    x.exp()
}

/// Calls `num_traits::Float::exp_m1` (`exp(x) - 1`); nothing is claimed of the result.
#[verifier::external_body]
fn float_expm1<T: num_traits::Float>(x: T) -> T {
    x.exp_m1()
}

/// Calls `num_traits::Float::ln` (natural logarithm); nothing is claimed of the result.
#[verifier::external_body]
fn float_ln<T: num_traits::Float>(x: T) -> T {
    x.ln()
}

/// Calls `num_traits::Float::ln_1p` (`ln(1 + x)`); nothing is claimed of the result.
#[verifier::external_body]
fn float_ln1p<T: num_traits::Float>(x: T) -> T {
    x.ln_1p()
}

/// Calls `num_traits::Float::floor` (largest integer not above); nothing is claimed of the result.
#[verifier::external_body]
fn float_floor<T: num_traits::Float>(x: T) -> T {
    x.floor()
}

/// Calls `num_traits::Float::ceil` (smallest integer not below); nothing is claimed of the result.
#[verifier::external_body]
fn float_ceil<T: num_traits::Float>(x: T) -> T {
    x.ceil()
}

/// Calls `num_traits::Float::round` (nearest integer (halves away from zero)); nothing is claimed of the result.
#[verifier::external_body]
fn float_round<T: num_traits::Float>(x: T) -> T {
    x.round()
}

/// Calls `num_traits::Float::trunc` (integer part); nothing is claimed of the result.
#[verifier::external_body]
fn float_trunc<T: num_traits::Float>(x: T) -> T {
    x.trunc()
}

/// Calls `num_traits::Float::signum` (sign (`1`, `-1`, or NaN)); nothing is claimed of the result.
#[verifier::external_body]
fn float_sign<T: num_traits::Float>(x: T) -> T {
    x.signum()
}

/// Calls `num_traits::Float::abs` (absolute value); nothing is claimed of the result.
#[verifier::external_body]
pub(crate) fn float_abs<T: num_traits::Float>(x: T) -> T {
    x.abs()
}

/// Calls `num_traits::Float::recip` (reciprocal `1 / x`); nothing is claimed of the result.
#[verifier::external_body]
fn float_reciprocal<T: num_traits::Float>(x: T) -> T {
    x.recip()
}

/// Calls `num_traits::Float::max`; nothing is claimed of the result.
#[verifier::external_body]
fn float_max<T: num_traits::Float>(x: T, y: T) -> T {
    x.max(y)
}

/// Calls `num_traits::Zero::zero` for a float type; nothing is claimed of the result.
#[verifier::external_body]
pub(crate) fn float_zero<T: num_traits::Float>() -> T {
    T::zero()
}

/// Calls `num_traits::One::one` for a float type; nothing is claimed of the result.
#[verifier::external_body]
pub(crate) fn float_one<T: num_traits::Float>() -> T {
    T::one()
}

/// Calls `std::ops::Neg::neg` on a float; nothing is claimed of the result.
#[verifier::external_body]
pub(crate) fn float_neg<T: num_traits::Float>(x: T) -> T {
    -x
}

/// Calls `std::ops::Add::add` on floats; nothing is claimed of the result.
#[verifier::external_body]
pub(crate) fn float_add<T: num_traits::Float>(x: T, y: T) -> T {
    x + y
}

/// Calls `std::ops::Sub::sub` on floats; nothing is claimed of the result.
#[verifier::external_body]
pub(crate) fn float_sub<T: num_traits::Float>(x: T, y: T) -> T {
    x - y
}

/// Calls `std::ops::Mul::mul` on floats; nothing is claimed of the result.
#[verifier::external_body]
pub(crate) fn float_mul<T: num_traits::Float>(x: T, y: T) -> T {
    x * y
}

/// Calls `std::ops::Div::div` on floats; nothing is claimed of the result.
#[verifier::external_body]
pub(crate) fn float_div<T: num_traits::Float>(x: T, y: T) -> T {
    x / y
}

/// A buffer after an element-wise operation on the elements of a layout:
/// same length, every position outside the layout keeps its value, and, when
/// no position of the layout repeats, each position of the layout holds a
/// value `y` with `rel(x, y)` for its old value `x`.
pub open spec fn maps_each<T>(old: Seq<T>, new: Seq<T>, ps: Seq<int>, rel: spec_fn(T, T) -> bool) -> bool {
    &&& new.len() == old.len()
    &&& forall|i: int| 0 <= i < old.len() && !ps.contains(i) ==> new[i] == old[i]
    &&& distinct(ps) ==> forall|k: int| 0 <= k < ps.len() ==> rel(old[ps[k]], #[trigger] new[ps[k]])
}

/// `new` holds, in order, a value `y` with `rel(x, y)` for each element `x`
/// of `old`.
pub open spec fn maps_all<T>(old: Seq<T>, new: Seq<T>, rel: spec_fn(T, T) -> bool) -> bool {
    &&& new.len() == old.len()
    &&& forall|k: int| 0 <= k < old.len() ==> rel(old[k], #[trigger] new[k])
}

/// An element-wise operation in place on a row-major tensor maps its
/// logical elements one by one.
pub proof fn lemma_row_major_mapped<T>(t0: TensorBase<T>, t1: TensorBase<T>, rel: spec_fn(T, T) -> bool)
    requires
        t0.wf(),
        is_row_major(t0.spec_shape(), t0.spec_strides()),
        t1.spec_shape() == t0.spec_shape(),
        t1.spec_strides() == t0.spec_strides(),
        t1.spec_offset() == t0.spec_offset(),
        maps_each(t0.data(), t1.data(), t0.spec_positions(), rel),
    ensures
        maps_all(t0.elems(), t1.elems(), rel),
{
    crate::layout::lemma_row_major_positions(t0.spec_shape(), t0.spec_strides(), 0, t0.spec_offset() as int);
    let ps = t0.spec_positions();
    assert(distinct(ps));
    assert forall|k: int| 0 <= k < t0.elems().len() implies rel(t0.elems()[k], #[trigger] t1.elems()[k]) by {
        assert(rel(t0.data()[ps[k]], t1.data()[ps[k]]));
    }
}

/// `y` is a value that `num_traits::Float::sin` gives for `x`.
pub closed spec fn sin_value<T: num_traits::Float>(x: T, y: T) -> bool {
    call_ensures(float_sin::<T>, (x,), y)
}

/// `y` is a value that `num_traits::Float::cos` gives for `x`.
pub closed spec fn cos_value<T: num_traits::Float>(x: T, y: T) -> bool {
    call_ensures(float_cos::<T>, (x,), y)
}

/// `y` is a value that `num_traits::Float::tan` gives for `x`.
pub closed spec fn tan_value<T: num_traits::Float>(x: T, y: T) -> bool {
    call_ensures(float_tan::<T>, (x,), y)
}

/// `y` is a value that `num_traits::Float::asin` gives for `x`.
pub closed spec fn asin_value<T: num_traits::Float>(x: T, y: T) -> bool {
    call_ensures(float_asin::<T>, (x,), y)
}

/// `y` is a value that `num_traits::Float::acos` gives for `x`.
pub closed spec fn acos_value<T: num_traits::Float>(x: T, y: T) -> bool {
    call_ensures(float_acos::<T>, (x,), y)
}

/// `y` is a value that `num_traits::Float::atan` gives for `x`.
pub closed spec fn atan_value<T: num_traits::Float>(x: T, y: T) -> bool {
    call_ensures(float_atan::<T>, (x,), y)
}

/// `y` is a value that `num_traits::Float::sinh` gives for `x`.
pub closed spec fn sinh_value<T: num_traits::Float>(x: T, y: T) -> bool {
    call_ensures(float_sinh::<T>, (x,), y)
}

/// `y` is a value that `num_traits::Float::cosh` gives for `x`.
pub closed spec fn cosh_value<T: num_traits::Float>(x: T, y: T) -> bool {
    call_ensures(float_cosh::<T>, (x,), y)
}

/// `y` is a value that `num_traits::Float::tanh` gives for `x`.
pub closed spec fn tanh_value<T: num_traits::Float>(x: T, y: T) -> bool {
    call_ensures(float_tanh::<T>, (x,), y)
}

/// `y` is a value that `num_traits::Float::asinh` gives for `x`.
pub closed spec fn asinh_value<T: num_traits::Float>(x: T, y: T) -> bool {
    call_ensures(float_asinh::<T>, (x,), y)
}

/// `y` is a value that `num_traits::Float::acosh` gives for `x`.
pub closed spec fn acosh_value<T: num_traits::Float>(x: T, y: T) -> bool {
    call_ensures(float_acosh::<T>, (x,), y)
}

/// `y` is a value that `num_traits::Float::atanh` gives for `x`.
pub closed spec fn atanh_value<T: num_traits::Float>(x: T, y: T) -> bool {
    call_ensures(float_atanh::<T>, (x,), y)
}

/// `y` is a value that `num_traits::Float::sqrt` gives for `x`.
pub closed spec fn sqrt_value<T: num_traits::Float>(x: T, y: T) -> bool {
    call_ensures(float_sqrt::<T>, (x,), y)
}

/// `y` is a value that `num_traits::Float::exp` gives for `x`.
pub closed spec fn exp_value<T: num_traits::Float>(x: T, y: T) -> bool {
    call_ensures(float_exp::<T>, (x,), y)
}

/// `y` is a value that `num_traits::Float::exp_m1` gives for `x`.
pub closed spec fn expm1_value<T: num_traits::Float>(x: T, y: T) -> bool {
    call_ensures(float_expm1::<T>, (x,), y)
}

/// `y` is a value that `num_traits::Float::ln` gives for `x`.
pub closed spec fn ln_value<T: num_traits::Float>(x: T, y: T) -> bool {
    call_ensures(float_ln::<T>, (x,), y)
}

/// `y` is a value that `num_traits::Float::ln_1p` gives for `x`.
pub closed spec fn ln1p_value<T: num_traits::Float>(x: T, y: T) -> bool {
    call_ensures(float_ln1p::<T>, (x,), y)
}

/// `y` is a value that `num_traits::Float::floor` gives for `x`.
pub closed spec fn floor_value<T: num_traits::Float>(x: T, y: T) -> bool {
    call_ensures(float_floor::<T>, (x,), y)
}

/// `y` is a value that `num_traits::Float::ceil` gives for `x`.
pub closed spec fn ceil_value<T: num_traits::Float>(x: T, y: T) -> bool {
    call_ensures(float_ceil::<T>, (x,), y)
}

/// `y` is a value that `num_traits::Float::round` gives for `x`.
pub closed spec fn round_value<T: num_traits::Float>(x: T, y: T) -> bool {
    call_ensures(float_round::<T>, (x,), y)
}

/// `y` is a value that `num_traits::Float::trunc` gives for `x`.
pub closed spec fn trunc_value<T: num_traits::Float>(x: T, y: T) -> bool {
    call_ensures(float_trunc::<T>, (x,), y)
}

/// `y` is a value that `num_traits::Float::signum` gives for `x`.
pub closed spec fn sign_value<T: num_traits::Float>(x: T, y: T) -> bool {
    call_ensures(float_sign::<T>, (x,), y)
}

/// `y` is a value that `num_traits::Float::abs` gives for `x`.
pub closed spec fn abs_value<T: num_traits::Float>(x: T, y: T) -> bool {
    call_ensures(float_abs::<T>, (x,), y)
}

/// `y` is a value that `num_traits::Float::recip` gives for `x`.
pub closed spec fn reciprocal_value<T: num_traits::Float>(x: T, y: T) -> bool {
    call_ensures(float_reciprocal::<T>, (x,), y)
}

/// `y` is a value that negation (`std::ops::Neg`) gives for `x`.
pub closed spec fn neg_value<T: num_traits::Float>(x: T, y: T) -> bool {
    call_ensures(float_neg::<T>, (x,), y)
}

/// `y` is a value that `num_traits::One::one` gives.
pub closed spec fn one_value<T: num_traits::Float>(y: T) -> bool {
    call_ensures(float_one::<T>, (), y)
}

/// `y` is a value that `num_traits::Zero::zero` gives.
pub closed spec fn zero_value<T: num_traits::Float>(y: T) -> bool {
    call_ensures(float_zero::<T>, (), y)
}

/// `z` is a value that float addition gives for `x + y`.
pub closed spec fn sum_value<T: num_traits::Float>(x: T, y: T, z: T) -> bool {
    call_ensures(float_add::<T>, (x, y), z)
}

/// `z` is a value that float subtraction gives for `x - y`.
pub closed spec fn difference_value<T: num_traits::Float>(x: T, y: T, z: T) -> bool {
    call_ensures(float_sub::<T>, (x, y), z)
}

/// `z` is a value that float multiplication gives for `x * y`.
pub closed spec fn product_value<T: num_traits::Float>(x: T, y: T, z: T) -> bool {
    call_ensures(float_mul::<T>, (x, y), z)
}

/// `z` is a value that float division gives for `x / y`.
pub closed spec fn quotient_value<T: num_traits::Float>(x: T, y: T, z: T) -> bool {
    call_ensures(float_div::<T>, (x, y), z)
}

/// `z` is a value that `num_traits::Float::max` gives for `x` and `y`.
pub closed spec fn maximum_value<T: num_traits::Float>(x: T, y: T, z: T) -> bool {
    call_ensures(float_max::<T>, (x, y), z)
}

/// `y` is `1 / (1 + exp(-x))`, each step taken by the float operations.
pub open spec fn sigmoid_value<T: num_traits::Float>(x: T, y: T) -> bool {
    exists|o: T, n: T, e: T, s: T|
        one_value(o) && neg_value(x, n) && exp_value(n, e) && sum_value(o, e, s) && quotient_value(o, s, y)
}

/// `y` is `x / (1 + exp(-x))`, each step taken by the float operations.
pub open spec fn silu_value<T: num_traits::Float>(x: T, y: T) -> bool {
    exists|o: T, n: T, e: T, s: T|
        one_value(o) && neg_value(x, n) && exp_value(n, e) && sum_value(o, e, s) && quotient_value(x, s, y)
}

/// `y` is `1 / sqrt(x)`, each step taken by the float operations.
pub open spec fn rsqrt_value<T: num_traits::Float>(x: T, y: T) -> bool {
    exists|q: T| sqrt_value(x, q) && reciprocal_value(q, y)
}

/// `y` is `x * x` by float multiplication.
pub open spec fn square_value<T: num_traits::Float>(x: T, y: T) -> bool {
    product_value(x, x, y)
}

/// `y` is `(x * x) * x`, each step taken by float multiplication.
pub open spec fn cube_value<T: num_traits::Float>(x: T, y: T) -> bool {
    exists|q: T| product_value(x, x, q) && product_value(q, x, y)
}

/// `y` is `max(x, 0)` by `num_traits::Float::max`.
pub open spec fn relu_value<T: num_traits::Float>(x: T, y: T) -> bool {
    exists|z: T| zero_value(z) && maximum_value(x, z, y)
}

/// Calls `f` with no argument.
pub(crate) fn call0<T, F: Fn() -> T>(f: F) -> (y: T)
    requires
        call_requires(f, ()),
    ensures
        call_ensures(f, (), y),
{
    f()
}

/// Calls `f` on `x`.
pub(crate) fn call1<T, F: Fn(T) -> T>(f: F, x: T) -> (y: T)
    requires
        call_requires(f, (x,)),
    ensures
        call_ensures(f, (x,), y),
{
    f(x)
}

/// Calls `f` on `x` and `y`.
pub(crate) fn call2<T, F: Fn(T, T) -> T>(f: F, x: T, y: T) -> (z: T)
    requires
        call_requires(f, (x, y)),
    ensures
        call_ensures(f, (x, y), z),
{
    f(x, y)
}

/// Zero of the float type.
pub(crate) fn zero_of<T: num_traits::Float>() -> (z: T)
    ensures
        zero_value(z),
{
    call0(float_zero::<T>)
}

/// One of the float type.
pub(crate) fn one_of<T: num_traits::Float>() -> (o: T)
    ensures
        one_value(o),
{
    call0(float_one::<T>)
}

/// `-x` by float negation.
pub(crate) fn neg_of<T: num_traits::Float>(x: T) -> (y: T)
    ensures
        neg_value(x, y),
{
    call1(float_neg::<T>, x)
}

/// `x + y` by float addition.
pub(crate) fn sum_of<T: num_traits::Float>(x: T, y: T) -> (z: T)
    ensures
        sum_value(x, y, z),
{
    call2(float_add::<T>, x, y)
}

/// `x - y` by float subtraction.
pub(crate) fn difference_of<T: num_traits::Float>(x: T, y: T) -> (z: T)
    ensures
        difference_value(x, y, z),
{
    call2(float_sub::<T>, x, y)
}

/// `x * y` by float multiplication.
pub(crate) fn product_of<T: num_traits::Float>(x: T, y: T) -> (z: T)
    ensures
        product_value(x, y, z),
{
    call2(float_mul::<T>, x, y)
}

/// `x / y` by float division.
pub(crate) fn quotient_of<T: num_traits::Float>(x: T, y: T) -> (z: T)
    ensures
        quotient_value(x, y, z),
{
    call2(float_div::<T>, x, y)
}

/// The logistic function `1 / (1 + exp(-x))`.
fn sigmoid_of<T: num_traits::Float>(x: T) -> (y: T)
    ensures
        sigmoid_value(x, y),
{
    let one = call0(float_one::<T>);
    let n = call1(float_neg::<T>, x);
    let e = call1(float_exp::<T>, n);
    let s = call2(float_add::<T>, one, e);
    let y = call2(float_div::<T>, one, s);
    assert(one_value(one) && neg_value(x, n) && exp_value(n, e) && sum_value(one, e, s) && quotient_value(one, s, y));
    y
}

/// `x / (1 + exp(-x))`.
fn silu_of<T: num_traits::Float>(x: T) -> (y: T)
    ensures
        silu_value(x, y),
{
    let one = call0(float_one::<T>);
    let n = call1(float_neg::<T>, x);
    let e = call1(float_exp::<T>, n);
    let s = call2(float_add::<T>, one, e);
    let y = call2(float_div::<T>, x, s);
    assert(one_value(one) && neg_value(x, n) && exp_value(n, e) && sum_value(one, e, s) && quotient_value(x, s, y));
    y
}

/// `1 / sqrt(x)`.
fn rsqrt_of<T: num_traits::Float>(x: T) -> (y: T)
    ensures
        rsqrt_value(x, y),
{
    let q = call1(float_sqrt::<T>, x);
    let y = call1(float_reciprocal::<T>, q);
    assert(sqrt_value(x, q) && reciprocal_value(q, y));
    y
}

/// `x * x`.
fn square_of<T: num_traits::Float>(x: T) -> (y: T)
    ensures
        square_value(x, y),
{
    call2(float_mul::<T>, x, x)
}

/// `x * x * x`.
fn cube_of<T: num_traits::Float>(x: T) -> (y: T)
    ensures
        cube_value(x, y),
{
    let q = call2(float_mul::<T>, x, x);
    let y = call2(float_mul::<T>, q, x);
    assert(product_value(x, x, q) && product_value(q, x, y));
    y
}

/// `max(x, 0)`.
fn relu_of<T: num_traits::Float>(x: T) -> (y: T)
    ensures
        relu_value(x, y),
{
    let z = call0(float_zero::<T>);
    let y = call2(float_max::<T>, x, z);
    assert(zero_value(z) && maximum_value(x, z, y));
    y
}

impl<T> TensorBase<T> {
    /// Replaces every element `x` by its sine.
    pub fn sin_inplace(&mut self)
        where T: num_traits::Float,
        requires
            old(self).wf(),
        ensures
            final(self).wf(),
            final(self).spec_shape() == old(self).spec_shape(),
            final(self).spec_strides() == old(self).spec_strides(),
            final(self).spec_offset() == old(self).spec_offset(),
            maps_each(old(self).data(), final(self).data(), old(self).spec_positions(), |a: T, b: T| sin_value(a, b)),
    {
        self.map_inplace(&float_sin::<T>);
    }

    /// Replaces every element `x` by its cosine.
    pub fn cos_inplace(&mut self)
        where T: num_traits::Float,
        requires
            old(self).wf(),
        ensures
            final(self).wf(),
            final(self).spec_shape() == old(self).spec_shape(),
            final(self).spec_strides() == old(self).spec_strides(),
            final(self).spec_offset() == old(self).spec_offset(),
            maps_each(old(self).data(), final(self).data(), old(self).spec_positions(), |a: T, b: T| cos_value(a, b)),
    {
        self.map_inplace(&float_cos::<T>);
    }

    /// Replaces every element `x` by its tangent.
    pub fn tan_inplace(&mut self)
        where T: num_traits::Float,
        requires
            old(self).wf(),
        ensures
            final(self).wf(),
            final(self).spec_shape() == old(self).spec_shape(),
            final(self).spec_strides() == old(self).spec_strides(),
            final(self).spec_offset() == old(self).spec_offset(),
            maps_each(old(self).data(), final(self).data(), old(self).spec_positions(), |a: T, b: T| tan_value(a, b)),
    {
        self.map_inplace(&float_tan::<T>);
    }

    /// Replaces every element `x` by its arcsine.
    pub fn asin_inplace(&mut self)
        where T: num_traits::Float,
        requires
            old(self).wf(),
        ensures
            final(self).wf(),
            final(self).spec_shape() == old(self).spec_shape(),
            final(self).spec_strides() == old(self).spec_strides(),
            final(self).spec_offset() == old(self).spec_offset(),
            maps_each(old(self).data(), final(self).data(), old(self).spec_positions(), |a: T, b: T| asin_value(a, b)),
    {
        self.map_inplace(&float_asin::<T>);
    }

    /// Replaces every element `x` by its arccosine.
    pub fn acos_inplace(&mut self)
        where T: num_traits::Float,
        requires
            old(self).wf(),
        ensures
            final(self).wf(),
            final(self).spec_shape() == old(self).spec_shape(),
            final(self).spec_strides() == old(self).spec_strides(),
            final(self).spec_offset() == old(self).spec_offset(),
            maps_each(old(self).data(), final(self).data(), old(self).spec_positions(), |a: T, b: T| acos_value(a, b)),
    {
        self.map_inplace(&float_acos::<T>);
    }

    /// Replaces every element `x` by its arctangent.
    pub fn atan_inplace(&mut self)
        where T: num_traits::Float,
        requires
            old(self).wf(),
        ensures
            final(self).wf(),
            final(self).spec_shape() == old(self).spec_shape(),
            final(self).spec_strides() == old(self).spec_strides(),
            final(self).spec_offset() == old(self).spec_offset(),
            maps_each(old(self).data(), final(self).data(), old(self).spec_positions(), |a: T, b: T| atan_value(a, b)),
    {
        self.map_inplace(&float_atan::<T>);
    }

    /// Replaces every element `x` by its hyperbolic sine.
    pub fn sinh_inplace(&mut self)
        where T: num_traits::Float,
        requires
            old(self).wf(),
        ensures
            final(self).wf(),
            final(self).spec_shape() == old(self).spec_shape(),
            final(self).spec_strides() == old(self).spec_strides(),
            final(self).spec_offset() == old(self).spec_offset(),
            maps_each(old(self).data(), final(self).data(), old(self).spec_positions(), |a: T, b: T| sinh_value(a, b)),
    {
        self.map_inplace(&float_sinh::<T>);
    }

    /// Replaces every element `x` by its hyperbolic cosine.
    pub fn cosh_inplace(&mut self)
        where T: num_traits::Float,
        requires
            old(self).wf(),
        ensures
            final(self).wf(),
            final(self).spec_shape() == old(self).spec_shape(),
            final(self).spec_strides() == old(self).spec_strides(),
            final(self).spec_offset() == old(self).spec_offset(),
            maps_each(old(self).data(), final(self).data(), old(self).spec_positions(), |a: T, b: T| cosh_value(a, b)),
    {
        self.map_inplace(&float_cosh::<T>);
    }

    /// Replaces every element `x` by its hyperbolic tangent.
    pub fn tanh_inplace(&mut self)
        where T: num_traits::Float,
        requires
            old(self).wf(),
        ensures
            final(self).wf(),
            final(self).spec_shape() == old(self).spec_shape(),
            final(self).spec_strides() == old(self).spec_strides(),
            final(self).spec_offset() == old(self).spec_offset(),
            maps_each(old(self).data(), final(self).data(), old(self).spec_positions(), |a: T, b: T| tanh_value(a, b)),
    {
        self.map_inplace(&float_tanh::<T>);
    }

    /// Replaces every element `x` by its inverse hyperbolic sine.
    pub fn asinh_inplace(&mut self)
        where T: num_traits::Float,
        requires
            old(self).wf(),
        ensures
            final(self).wf(),
            final(self).spec_shape() == old(self).spec_shape(),
            final(self).spec_strides() == old(self).spec_strides(),
            final(self).spec_offset() == old(self).spec_offset(),
            maps_each(old(self).data(), final(self).data(), old(self).spec_positions(), |a: T, b: T| asinh_value(a, b)),
    {
        self.map_inplace(&float_asinh::<T>);
    }

    /// Replaces every element `x` by its inverse hyperbolic cosine.
    pub fn acosh_inplace(&mut self)
        where T: num_traits::Float,
        requires
            old(self).wf(),
        ensures
            final(self).wf(),
            final(self).spec_shape() == old(self).spec_shape(),
            final(self).spec_strides() == old(self).spec_strides(),
            final(self).spec_offset() == old(self).spec_offset(),
            maps_each(old(self).data(), final(self).data(), old(self).spec_positions(), |a: T, b: T| acosh_value(a, b)),
    {
        self.map_inplace(&float_acosh::<T>);
    }

    /// Replaces every element `x` by its inverse hyperbolic tangent.
    pub fn atanh_inplace(&mut self)
        where T: num_traits::Float,
        requires
            old(self).wf(),
        ensures
            final(self).wf(),
            final(self).spec_shape() == old(self).spec_shape(),
            final(self).spec_strides() == old(self).spec_strides(),
            final(self).spec_offset() == old(self).spec_offset(),
            maps_each(old(self).data(), final(self).data(), old(self).spec_positions(), |a: T, b: T| atanh_value(a, b)),
    {
        self.map_inplace(&float_atanh::<T>);
    }

    /// Replaces every element `x` by its square root.
    pub fn sqrt_inplace(&mut self)
        where T: num_traits::Float,
        requires
            old(self).wf(),
        ensures
            final(self).wf(),
            final(self).spec_shape() == old(self).spec_shape(),
            final(self).spec_strides() == old(self).spec_strides(),
            final(self).spec_offset() == old(self).spec_offset(),
            maps_each(old(self).data(), final(self).data(), old(self).spec_positions(), |a: T, b: T| sqrt_value(a, b)),
    {
        self.map_inplace(&float_sqrt::<T>);
    }

    /// Replaces every element `x` by its exponential.
    pub fn exp_inplace(&mut self)
        where T: num_traits::Float,
        requires
            old(self).wf(),
        ensures
            final(self).wf(),
            final(self).spec_shape() == old(self).spec_shape(),
            final(self).spec_strides() == old(self).spec_strides(),
            final(self).spec_offset() == old(self).spec_offset(),
            maps_each(old(self).data(), final(self).data(), old(self).spec_positions(), |a: T, b: T| exp_value(a, b)),
    {
        self.map_inplace(&float_exp::<T>);
    }

    /// Replaces every element `x` by its `exp(x) - 1`.
    pub fn expm1_inplace(&mut self)
        where T: num_traits::Float,
        requires
            old(self).wf(),
        ensures
            final(self).wf(),
            final(self).spec_shape() == old(self).spec_shape(),
            final(self).spec_strides() == old(self).spec_strides(),
            final(self).spec_offset() == old(self).spec_offset(),
            maps_each(old(self).data(), final(self).data(), old(self).spec_positions(), |a: T, b: T| expm1_value(a, b)),
    {
        self.map_inplace(&float_expm1::<T>);
    }

    /// Replaces every element `x` by its natural logarithm.
    pub fn ln_inplace(&mut self)
        where T: num_traits::Float,
        requires
            old(self).wf(),
        ensures
            final(self).wf(),
            final(self).spec_shape() == old(self).spec_shape(),
            final(self).spec_strides() == old(self).spec_strides(),
            final(self).spec_offset() == old(self).spec_offset(),
            maps_each(old(self).data(), final(self).data(), old(self).spec_positions(), |a: T, b: T| ln_value(a, b)),
    {
        self.map_inplace(&float_ln::<T>);
    }

    /// Replaces every element `x` by its `ln(1 + x)`.
    pub fn ln1p_inplace(&mut self)
        where T: num_traits::Float,
        requires
            old(self).wf(),
        ensures
            final(self).wf(),
            final(self).spec_shape() == old(self).spec_shape(),
            final(self).spec_strides() == old(self).spec_strides(),
            final(self).spec_offset() == old(self).spec_offset(),
            maps_each(old(self).data(), final(self).data(), old(self).spec_positions(), |a: T, b: T| ln1p_value(a, b)),
    {
        self.map_inplace(&float_ln1p::<T>);
    }

    /// Replaces every element `x` by its largest integer not above.
    pub fn floor_inplace(&mut self)
        where T: num_traits::Float,
        requires
            old(self).wf(),
        ensures
            final(self).wf(),
            final(self).spec_shape() == old(self).spec_shape(),
            final(self).spec_strides() == old(self).spec_strides(),
            final(self).spec_offset() == old(self).spec_offset(),
            maps_each(old(self).data(), final(self).data(), old(self).spec_positions(), |a: T, b: T| floor_value(a, b)),
    {
        self.map_inplace(&float_floor::<T>);
    }

    /// Replaces every element `x` by its smallest integer not below.
    pub fn ceil_inplace(&mut self)
        where T: num_traits::Float,
        requires
            old(self).wf(),
        ensures
            final(self).wf(),
            final(self).spec_shape() == old(self).spec_shape(),
            final(self).spec_strides() == old(self).spec_strides(),
            final(self).spec_offset() == old(self).spec_offset(),
            maps_each(old(self).data(), final(self).data(), old(self).spec_positions(), |a: T, b: T| ceil_value(a, b)),
    {
        self.map_inplace(&float_ceil::<T>);
    }

    /// Replaces every element `x` by its nearest integer (halves away from zero).
    pub fn round_inplace(&mut self)
        where T: num_traits::Float,
        requires
            old(self).wf(),
        ensures
            final(self).wf(),
            final(self).spec_shape() == old(self).spec_shape(),
            final(self).spec_strides() == old(self).spec_strides(),
            final(self).spec_offset() == old(self).spec_offset(),
            maps_each(old(self).data(), final(self).data(), old(self).spec_positions(), |a: T, b: T| round_value(a, b)),
    {
        self.map_inplace(&float_round::<T>);
    }

    /// Replaces every element `x` by its integer part.
    pub fn trunc_inplace(&mut self)
        where T: num_traits::Float,
        requires
            old(self).wf(),
        ensures
            final(self).wf(),
            final(self).spec_shape() == old(self).spec_shape(),
            final(self).spec_strides() == old(self).spec_strides(),
            final(self).spec_offset() == old(self).spec_offset(),
            maps_each(old(self).data(), final(self).data(), old(self).spec_positions(), |a: T, b: T| trunc_value(a, b)),
    {
        self.map_inplace(&float_trunc::<T>);
    }

    /// Replaces every element `x` by its sign (`1`, `-1`, or NaN).
    pub fn sign_inplace(&mut self)
        where T: num_traits::Float,
        requires
            old(self).wf(),
        ensures
            final(self).wf(),
            final(self).spec_shape() == old(self).spec_shape(),
            final(self).spec_strides() == old(self).spec_strides(),
            final(self).spec_offset() == old(self).spec_offset(),
            maps_each(old(self).data(), final(self).data(), old(self).spec_positions(), |a: T, b: T| sign_value(a, b)),
    {
        self.map_inplace(&float_sign::<T>);
    }

    /// Replaces every element `x` by its absolute value.
    pub fn abs_inplace(&mut self)
        where T: num_traits::Float,
        requires
            old(self).wf(),
        ensures
            final(self).wf(),
            final(self).spec_shape() == old(self).spec_shape(),
            final(self).spec_strides() == old(self).spec_strides(),
            final(self).spec_offset() == old(self).spec_offset(),
            maps_each(old(self).data(), final(self).data(), old(self).spec_positions(), |a: T, b: T| abs_value(a, b)),
    {
        self.map_inplace(&float_abs::<T>);
    }

    /// Replaces every element `x` by its reciprocal `1 / x`.
    pub fn reciprocal_inplace(&mut self)
        where T: num_traits::Float,
        requires
            old(self).wf(),
        ensures
            final(self).wf(),
            final(self).spec_shape() == old(self).spec_shape(),
            final(self).spec_strides() == old(self).spec_strides(),
            final(self).spec_offset() == old(self).spec_offset(),
            maps_each(old(self).data(), final(self).data(), old(self).spec_positions(), |a: T, b: T| reciprocal_value(a, b)),
    {
        self.map_inplace(&float_reciprocal::<T>);
    }

    /// Replaces every element `x` by its negation.
    pub fn neg_inplace(&mut self)
        where T: num_traits::Float,
        requires
            old(self).wf(),
        ensures
            final(self).wf(),
            final(self).spec_shape() == old(self).spec_shape(),
            final(self).spec_strides() == old(self).spec_strides(),
            final(self).spec_offset() == old(self).spec_offset(),
            maps_each(old(self).data(), final(self).data(), old(self).spec_positions(), |a: T, b: T| neg_value(a, b)),
    {
        self.map_inplace(&float_neg::<T>);
    }

    /// Replaces every element `x` by its logistic function.
    pub fn sigmoid_inplace(&mut self)
        where T: num_traits::Float,
        requires
            old(self).wf(),
        ensures
            final(self).wf(),
            final(self).spec_shape() == old(self).spec_shape(),
            final(self).spec_strides() == old(self).spec_strides(),
            final(self).spec_offset() == old(self).spec_offset(),
            maps_each(old(self).data(), final(self).data(), old(self).spec_positions(), |a: T, b: T| sigmoid_value(a, b)),
    {
        self.map_inplace(&sigmoid_of::<T>);
    }

    /// Replaces every element `x` by its `x * sigmoid(x)`.
    pub fn silu_inplace(&mut self)
        where T: num_traits::Float,
        requires
            old(self).wf(),
        ensures
            final(self).wf(),
            final(self).spec_shape() == old(self).spec_shape(),
            final(self).spec_strides() == old(self).spec_strides(),
            final(self).spec_offset() == old(self).spec_offset(),
            maps_each(old(self).data(), final(self).data(), old(self).spec_positions(), |a: T, b: T| silu_value(a, b)),
    {
        self.map_inplace(&silu_of::<T>);
    }

    /// Replaces every element `x` by its `1 / sqrt(x)`.
    pub fn rsqrt_inplace(&mut self)
        where T: num_traits::Float,
        requires
            old(self).wf(),
        ensures
            final(self).wf(),
            final(self).spec_shape() == old(self).spec_shape(),
            final(self).spec_strides() == old(self).spec_strides(),
            final(self).spec_offset() == old(self).spec_offset(),
            maps_each(old(self).data(), final(self).data(), old(self).spec_positions(), |a: T, b: T| rsqrt_value(a, b)),
    {
        self.map_inplace(&rsqrt_of::<T>);
    }

    /// Replaces every element `x` by its square.
    pub fn square_inplace(&mut self)
        where T: num_traits::Float,
        requires
            old(self).wf(),
        ensures
            final(self).wf(),
            final(self).spec_shape() == old(self).spec_shape(),
            final(self).spec_strides() == old(self).spec_strides(),
            final(self).spec_offset() == old(self).spec_offset(),
            maps_each(old(self).data(), final(self).data(), old(self).spec_positions(), |a: T, b: T| square_value(a, b)),
    {
        self.map_inplace(&square_of::<T>);
    }

    /// Replaces every element `x` by its cube.
    pub fn cube_inplace(&mut self)
        where T: num_traits::Float,
        requires
            old(self).wf(),
        ensures
            final(self).wf(),
            final(self).spec_shape() == old(self).spec_shape(),
            final(self).spec_strides() == old(self).spec_strides(),
            final(self).spec_offset() == old(self).spec_offset(),
            maps_each(old(self).data(), final(self).data(), old(self).spec_positions(), |a: T, b: T| cube_value(a, b)),
    {
        self.map_inplace(&cube_of::<T>);
    }

    /// Replaces every element `x` by its `max(x, 0)`.
    pub fn relu_inplace(&mut self)
        where T: num_traits::Float,
        requires
            old(self).wf(),
        ensures
            final(self).wf(),
            final(self).spec_shape() == old(self).spec_shape(),
            final(self).spec_strides() == old(self).spec_strides(),
            final(self).spec_offset() == old(self).spec_offset(),
            maps_each(old(self).data(), final(self).data(), old(self).spec_positions(), |a: T, b: T| relu_value(a, b)),
    {
        self.map_inplace(&relu_of::<T>);
    }

    /// A row-major copy with every element `x` replaced by its sine.
    pub fn sin(&self) -> (t: TensorBase<T>)
        where T: num_traits::Float,
        requires
            self.wf(),
            sizes_fit(self.spec_shape()),
        ensures
            t.wf(),
            t.spec_shape() == self.spec_shape(),
            is_row_major(t.spec_shape(), t.spec_strides()),
            maps_all(self.elems(), t.elems(), |a: T, b: T| sin_value(a, b)),
    {
        let mut t = self.contiguous();
        let ghost t0 = t;
        t.sin_inplace();
        proof {
            lemma_row_major_mapped(t0, t, |a: T, b: T| sin_value(a, b));
        }
        t
    }

    /// A row-major copy with every element `x` replaced by its cosine.
    pub fn cos(&self) -> (t: TensorBase<T>)
        where T: num_traits::Float,
        requires
            self.wf(),
            sizes_fit(self.spec_shape()),
        ensures
            t.wf(),
            t.spec_shape() == self.spec_shape(),
            is_row_major(t.spec_shape(), t.spec_strides()),
            maps_all(self.elems(), t.elems(), |a: T, b: T| cos_value(a, b)),
    {
        let mut t = self.contiguous();
        let ghost t0 = t;
        t.cos_inplace();
        proof {
            lemma_row_major_mapped(t0, t, |a: T, b: T| cos_value(a, b));
        }
        t
    }

    /// A row-major copy with every element `x` replaced by its tangent.
    pub fn tan(&self) -> (t: TensorBase<T>)
        where T: num_traits::Float,
        requires
            self.wf(),
            sizes_fit(self.spec_shape()),
        ensures
            t.wf(),
            t.spec_shape() == self.spec_shape(),
            is_row_major(t.spec_shape(), t.spec_strides()),
            maps_all(self.elems(), t.elems(), |a: T, b: T| tan_value(a, b)),
    {
        let mut t = self.contiguous();
        let ghost t0 = t;
        t.tan_inplace();
        proof {
            lemma_row_major_mapped(t0, t, |a: T, b: T| tan_value(a, b));
        }
        t
    }

    /// A row-major copy with every element `x` replaced by its arcsine.
    pub fn asin(&self) -> (t: TensorBase<T>)
        where T: num_traits::Float,
        requires
            self.wf(),
            sizes_fit(self.spec_shape()),
        ensures
            t.wf(),
            t.spec_shape() == self.spec_shape(),
            is_row_major(t.spec_shape(), t.spec_strides()),
            maps_all(self.elems(), t.elems(), |a: T, b: T| asin_value(a, b)),
    {
        let mut t = self.contiguous();
        let ghost t0 = t;
        t.asin_inplace();
        proof {
            lemma_row_major_mapped(t0, t, |a: T, b: T| asin_value(a, b));
        }
        t
    }

    /// A row-major copy with every element `x` replaced by its arccosine.
    pub fn acos(&self) -> (t: TensorBase<T>)
        where T: num_traits::Float,
        requires
            self.wf(),
            sizes_fit(self.spec_shape()),
        ensures
            t.wf(),
            t.spec_shape() == self.spec_shape(),
            is_row_major(t.spec_shape(), t.spec_strides()),
            maps_all(self.elems(), t.elems(), |a: T, b: T| acos_value(a, b)),
    {
        let mut t = self.contiguous();
        let ghost t0 = t;
        t.acos_inplace();
        proof {
            lemma_row_major_mapped(t0, t, |a: T, b: T| acos_value(a, b));
        }
        t
    }

    /// A row-major copy with every element `x` replaced by its arctangent.
    pub fn atan(&self) -> (t: TensorBase<T>)
        where T: num_traits::Float,
        requires
            self.wf(),
            sizes_fit(self.spec_shape()),
        ensures
            t.wf(),
            t.spec_shape() == self.spec_shape(),
            is_row_major(t.spec_shape(), t.spec_strides()),
            maps_all(self.elems(), t.elems(), |a: T, b: T| atan_value(a, b)),
    {
        let mut t = self.contiguous();
        let ghost t0 = t;
        t.atan_inplace();
        proof {
            lemma_row_major_mapped(t0, t, |a: T, b: T| atan_value(a, b));
        }
        t
    }

    /// A row-major copy with every element `x` replaced by its hyperbolic sine.
    pub fn sinh(&self) -> (t: TensorBase<T>)
        where T: num_traits::Float,
        requires
            self.wf(),
            sizes_fit(self.spec_shape()),
        ensures
            t.wf(),
            t.spec_shape() == self.spec_shape(),
            is_row_major(t.spec_shape(), t.spec_strides()),
            maps_all(self.elems(), t.elems(), |a: T, b: T| sinh_value(a, b)),
    {
        let mut t = self.contiguous();
        let ghost t0 = t;
        t.sinh_inplace();
        proof {
            lemma_row_major_mapped(t0, t, |a: T, b: T| sinh_value(a, b));
        }
        t
    }

    /// A row-major copy with every element `x` replaced by its hyperbolic cosine.
    pub fn cosh(&self) -> (t: TensorBase<T>)
        where T: num_traits::Float,
        requires
            self.wf(),
            sizes_fit(self.spec_shape()),
        ensures
            t.wf(),
            t.spec_shape() == self.spec_shape(),
            is_row_major(t.spec_shape(), t.spec_strides()),
            maps_all(self.elems(), t.elems(), |a: T, b: T| cosh_value(a, b)),
    {
        let mut t = self.contiguous();
        let ghost t0 = t;
        t.cosh_inplace();
        proof {
            lemma_row_major_mapped(t0, t, |a: T, b: T| cosh_value(a, b));
        }
        t
    }

    /// A row-major copy with every element `x` replaced by its hyperbolic tangent.
    pub fn tanh(&self) -> (t: TensorBase<T>)
        where T: num_traits::Float,
        requires
            self.wf(),
            sizes_fit(self.spec_shape()),
        ensures
            t.wf(),
            t.spec_shape() == self.spec_shape(),
            is_row_major(t.spec_shape(), t.spec_strides()),
            maps_all(self.elems(), t.elems(), |a: T, b: T| tanh_value(a, b)),
    {
        let mut t = self.contiguous();
        let ghost t0 = t;
        t.tanh_inplace();
        proof {
            lemma_row_major_mapped(t0, t, |a: T, b: T| tanh_value(a, b));
        }
        t
    }

    /// A row-major copy with every element `x` replaced by its inverse hyperbolic sine.
    pub fn asinh(&self) -> (t: TensorBase<T>)
        where T: num_traits::Float,
        requires
            self.wf(),
            sizes_fit(self.spec_shape()),
        ensures
            t.wf(),
            t.spec_shape() == self.spec_shape(),
            is_row_major(t.spec_shape(), t.spec_strides()),
            maps_all(self.elems(), t.elems(), |a: T, b: T| asinh_value(a, b)),
    {
        let mut t = self.contiguous();
        let ghost t0 = t;
        t.asinh_inplace();
        proof {
            lemma_row_major_mapped(t0, t, |a: T, b: T| asinh_value(a, b));
        }
        t
    }

    /// A row-major copy with every element `x` replaced by its inverse hyperbolic cosine.
    pub fn acosh(&self) -> (t: TensorBase<T>)
        where T: num_traits::Float,
        requires
            self.wf(),
            sizes_fit(self.spec_shape()),
        ensures
            t.wf(),
            t.spec_shape() == self.spec_shape(),
            is_row_major(t.spec_shape(), t.spec_strides()),
            maps_all(self.elems(), t.elems(), |a: T, b: T| acosh_value(a, b)),
    {
        let mut t = self.contiguous();
        let ghost t0 = t;
        t.acosh_inplace();
        proof {
            lemma_row_major_mapped(t0, t, |a: T, b: T| acosh_value(a, b));
        }
        t
    }

    /// A row-major copy with every element `x` replaced by its inverse hyperbolic tangent.
    pub fn atanh(&self) -> (t: TensorBase<T>)
        where T: num_traits::Float,
        requires
            self.wf(),
            sizes_fit(self.spec_shape()),
        ensures
            t.wf(),
            t.spec_shape() == self.spec_shape(),
            is_row_major(t.spec_shape(), t.spec_strides()),
            maps_all(self.elems(), t.elems(), |a: T, b: T| atanh_value(a, b)),
    {
        let mut t = self.contiguous();
        let ghost t0 = t;
        t.atanh_inplace();
        proof {
            lemma_row_major_mapped(t0, t, |a: T, b: T| atanh_value(a, b));
        }
        t
    }

    /// A row-major copy with every element `x` replaced by its square root.
    pub fn sqrt(&self) -> (t: TensorBase<T>)
        where T: num_traits::Float,
        requires
            self.wf(),
            sizes_fit(self.spec_shape()),
        ensures
            t.wf(),
            t.spec_shape() == self.spec_shape(),
            is_row_major(t.spec_shape(), t.spec_strides()),
            maps_all(self.elems(), t.elems(), |a: T, b: T| sqrt_value(a, b)),
    {
        let mut t = self.contiguous();
        let ghost t0 = t;
        t.sqrt_inplace();
        proof {
            lemma_row_major_mapped(t0, t, |a: T, b: T| sqrt_value(a, b));
        }
        t
    }

    /// A row-major copy with every element `x` replaced by its exponential.
    pub fn exp(&self) -> (t: TensorBase<T>)
        where T: num_traits::Float,
        requires
            self.wf(),
            sizes_fit(self.spec_shape()),
        ensures
            t.wf(),
            t.spec_shape() == self.spec_shape(),
            is_row_major(t.spec_shape(), t.spec_strides()),
            maps_all(self.elems(), t.elems(), |a: T, b: T| exp_value(a, b)),
    {
        let mut t = self.contiguous();
        let ghost t0 = t;
        t.exp_inplace();
        proof {
            lemma_row_major_mapped(t0, t, |a: T, b: T| exp_value(a, b));
        }
        t
    }

    /// A row-major copy with every element `x` replaced by its `exp(x) - 1`.
    pub fn expm1(&self) -> (t: TensorBase<T>)
        where T: num_traits::Float,
        requires
            self.wf(),
            sizes_fit(self.spec_shape()),
        ensures
            t.wf(),
            t.spec_shape() == self.spec_shape(),
            is_row_major(t.spec_shape(), t.spec_strides()),
            maps_all(self.elems(), t.elems(), |a: T, b: T| expm1_value(a, b)),
    {
        let mut t = self.contiguous();
        let ghost t0 = t;
        t.expm1_inplace();
        proof {
            lemma_row_major_mapped(t0, t, |a: T, b: T| expm1_value(a, b));
        }
        t
    }

    /// A row-major copy with every element `x` replaced by its natural logarithm.
    pub fn ln(&self) -> (t: TensorBase<T>)
        where T: num_traits::Float,
        requires
            self.wf(),
            sizes_fit(self.spec_shape()),
        ensures
            t.wf(),
            t.spec_shape() == self.spec_shape(),
            is_row_major(t.spec_shape(), t.spec_strides()),
            maps_all(self.elems(), t.elems(), |a: T, b: T| ln_value(a, b)),
    {
        let mut t = self.contiguous();
        let ghost t0 = t;
        t.ln_inplace();
        proof {
            lemma_row_major_mapped(t0, t, |a: T, b: T| ln_value(a, b));
        }
        t
    }

    /// A row-major copy with every element `x` replaced by its `ln(1 + x)`.
    pub fn ln1p(&self) -> (t: TensorBase<T>)
        where T: num_traits::Float,
        requires
            self.wf(),
            sizes_fit(self.spec_shape()),
        ensures
            t.wf(),
            t.spec_shape() == self.spec_shape(),
            is_row_major(t.spec_shape(), t.spec_strides()),
            maps_all(self.elems(), t.elems(), |a: T, b: T| ln1p_value(a, b)),
    {
        let mut t = self.contiguous();
        let ghost t0 = t;
        t.ln1p_inplace();
        proof {
            lemma_row_major_mapped(t0, t, |a: T, b: T| ln1p_value(a, b));
        }
        t
    }

    /// A row-major copy with every element `x` replaced by its largest integer not above.
    pub fn floor(&self) -> (t: TensorBase<T>)
        where T: num_traits::Float,
        requires
            self.wf(),
            sizes_fit(self.spec_shape()),
        ensures
            t.wf(),
            t.spec_shape() == self.spec_shape(),
            is_row_major(t.spec_shape(), t.spec_strides()),
            maps_all(self.elems(), t.elems(), |a: T, b: T| floor_value(a, b)),
    {
        let mut t = self.contiguous();
        let ghost t0 = t;
        t.floor_inplace();
        proof {
            lemma_row_major_mapped(t0, t, |a: T, b: T| floor_value(a, b));
        }
        t
    }

    /// A row-major copy with every element `x` replaced by its smallest integer not below.
    pub fn ceil(&self) -> (t: TensorBase<T>)
        where T: num_traits::Float,
        requires
            self.wf(),
            sizes_fit(self.spec_shape()),
        ensures
            t.wf(),
            t.spec_shape() == self.spec_shape(),
            is_row_major(t.spec_shape(), t.spec_strides()),
            maps_all(self.elems(), t.elems(), |a: T, b: T| ceil_value(a, b)),
    {
        let mut t = self.contiguous();
        let ghost t0 = t;
        t.ceil_inplace();
        proof {
            lemma_row_major_mapped(t0, t, |a: T, b: T| ceil_value(a, b));
        }
        t
    }

    /// A row-major copy with every element `x` replaced by its nearest integer (halves away from zero).
    pub fn round(&self) -> (t: TensorBase<T>)
        where T: num_traits::Float,
        requires
            self.wf(),
            sizes_fit(self.spec_shape()),
        ensures
            t.wf(),
            t.spec_shape() == self.spec_shape(),
            is_row_major(t.spec_shape(), t.spec_strides()),
            maps_all(self.elems(), t.elems(), |a: T, b: T| round_value(a, b)),
    {
        let mut t = self.contiguous();
        let ghost t0 = t;
        t.round_inplace();
        proof {
            lemma_row_major_mapped(t0, t, |a: T, b: T| round_value(a, b));
        }
        t
    }

    /// A row-major copy with every element `x` replaced by its integer part.
    pub fn trunc(&self) -> (t: TensorBase<T>)
        where T: num_traits::Float,
        requires
            self.wf(),
            sizes_fit(self.spec_shape()),
        ensures
            t.wf(),
            t.spec_shape() == self.spec_shape(),
            is_row_major(t.spec_shape(), t.spec_strides()),
            maps_all(self.elems(), t.elems(), |a: T, b: T| trunc_value(a, b)),
    {
        let mut t = self.contiguous();
        let ghost t0 = t;
        t.trunc_inplace();
        proof {
            lemma_row_major_mapped(t0, t, |a: T, b: T| trunc_value(a, b));
        }
        t
    }

    /// A row-major copy with every element `x` replaced by its sign (`1`, `-1`, or NaN).
    pub fn sign(&self) -> (t: TensorBase<T>)
        where T: num_traits::Float,
        requires
            self.wf(),
            sizes_fit(self.spec_shape()),
        ensures
            t.wf(),
            t.spec_shape() == self.spec_shape(),
            is_row_major(t.spec_shape(), t.spec_strides()),
            maps_all(self.elems(), t.elems(), |a: T, b: T| sign_value(a, b)),
    {
        let mut t = self.contiguous();
        let ghost t0 = t;
        t.sign_inplace();
        proof {
            lemma_row_major_mapped(t0, t, |a: T, b: T| sign_value(a, b));
        }
        t
    }

    /// A row-major copy with every element `x` replaced by its absolute value.
    pub fn abs(&self) -> (t: TensorBase<T>)
        where T: num_traits::Float,
        requires
            self.wf(),
            sizes_fit(self.spec_shape()),
        ensures
            t.wf(),
            t.spec_shape() == self.spec_shape(),
            is_row_major(t.spec_shape(), t.spec_strides()),
            maps_all(self.elems(), t.elems(), |a: T, b: T| abs_value(a, b)),
    {
        let mut t = self.contiguous();
        let ghost t0 = t;
        t.abs_inplace();
        proof {
            lemma_row_major_mapped(t0, t, |a: T, b: T| abs_value(a, b));
        }
        t
    }

    /// A row-major copy with every element `x` replaced by its reciprocal `1 / x`.
    pub fn reciprocal(&self) -> (t: TensorBase<T>)
        where T: num_traits::Float,
        requires
            self.wf(),
            sizes_fit(self.spec_shape()),
        ensures
            t.wf(),
            t.spec_shape() == self.spec_shape(),
            is_row_major(t.spec_shape(), t.spec_strides()),
            maps_all(self.elems(), t.elems(), |a: T, b: T| reciprocal_value(a, b)),
    {
        let mut t = self.contiguous();
        let ghost t0 = t;
        t.reciprocal_inplace();
        proof {
            lemma_row_major_mapped(t0, t, |a: T, b: T| reciprocal_value(a, b));
        }
        t
    }

    /// A row-major copy with every element `x` replaced by its negation.
    pub fn neg(&self) -> (t: TensorBase<T>)
        where T: num_traits::Float,
        requires
            self.wf(),
            sizes_fit(self.spec_shape()),
        ensures
            t.wf(),
            t.spec_shape() == self.spec_shape(),
            is_row_major(t.spec_shape(), t.spec_strides()),
            maps_all(self.elems(), t.elems(), |a: T, b: T| neg_value(a, b)),
    {
        let mut t = self.contiguous();
        let ghost t0 = t;
        t.neg_inplace();
        proof {
            lemma_row_major_mapped(t0, t, |a: T, b: T| neg_value(a, b));
        }
        t
    }

    /// A row-major copy with every element `x` replaced by its logistic function.
    pub fn sigmoid(&self) -> (t: TensorBase<T>)
        where T: num_traits::Float,
        requires
            self.wf(),
            sizes_fit(self.spec_shape()),
        ensures
            t.wf(),
            t.spec_shape() == self.spec_shape(),
            is_row_major(t.spec_shape(), t.spec_strides()),
            maps_all(self.elems(), t.elems(), |a: T, b: T| sigmoid_value(a, b)),
    {
        let mut t = self.contiguous();
        let ghost t0 = t;
        t.sigmoid_inplace();
        proof {
            lemma_row_major_mapped(t0, t, |a: T, b: T| sigmoid_value(a, b));
        }
        t
    }

    /// A row-major copy with every element `x` replaced by its `x * sigmoid(x)`.
    pub fn silu(&self) -> (t: TensorBase<T>)
        where T: num_traits::Float,
        requires
            self.wf(),
            sizes_fit(self.spec_shape()),
        ensures
            t.wf(),
            t.spec_shape() == self.spec_shape(),
            is_row_major(t.spec_shape(), t.spec_strides()),
            maps_all(self.elems(), t.elems(), |a: T, b: T| silu_value(a, b)),
    {
        let mut t = self.contiguous();
        let ghost t0 = t;
        t.silu_inplace();
        proof {
            lemma_row_major_mapped(t0, t, |a: T, b: T| silu_value(a, b));
        }
        t
    }

    /// A row-major copy with every element `x` replaced by its `1 / sqrt(x)`.
    pub fn rsqrt(&self) -> (t: TensorBase<T>)
        where T: num_traits::Float,
        requires
            self.wf(),
            sizes_fit(self.spec_shape()),
        ensures
            t.wf(),
            t.spec_shape() == self.spec_shape(),
            is_row_major(t.spec_shape(), t.spec_strides()),
            maps_all(self.elems(), t.elems(), |a: T, b: T| rsqrt_value(a, b)),
    {
        let mut t = self.contiguous();
        let ghost t0 = t;
        t.rsqrt_inplace();
        proof {
            lemma_row_major_mapped(t0, t, |a: T, b: T| rsqrt_value(a, b));
        }
        t
    }

    /// A row-major copy with every element `x` replaced by its square.
    pub fn square(&self) -> (t: TensorBase<T>)
        where T: num_traits::Float,
        requires
            self.wf(),
            sizes_fit(self.spec_shape()),
        ensures
            t.wf(),
            t.spec_shape() == self.spec_shape(),
            is_row_major(t.spec_shape(), t.spec_strides()),
            maps_all(self.elems(), t.elems(), |a: T, b: T| square_value(a, b)),
    {
        let mut t = self.contiguous();
        let ghost t0 = t;
        t.square_inplace();
        proof {
            lemma_row_major_mapped(t0, t, |a: T, b: T| square_value(a, b));
        }
        t
    }

    /// A row-major copy with every element `x` replaced by its cube.
    pub fn cube(&self) -> (t: TensorBase<T>)
        where T: num_traits::Float,
        requires
            self.wf(),
            sizes_fit(self.spec_shape()),
        ensures
            t.wf(),
            t.spec_shape() == self.spec_shape(),
            is_row_major(t.spec_shape(), t.spec_strides()),
            maps_all(self.elems(), t.elems(), |a: T, b: T| cube_value(a, b)),
    {
        let mut t = self.contiguous();
        let ghost t0 = t;
        t.cube_inplace();
        proof {
            lemma_row_major_mapped(t0, t, |a: T, b: T| cube_value(a, b));
        }
        t
    }

    /// A row-major copy with every element `x` replaced by its `max(x, 0)`.
    pub fn relu(&self) -> (t: TensorBase<T>)
        where T: num_traits::Float,
        requires
            self.wf(),
            sizes_fit(self.spec_shape()),
        ensures
            t.wf(),
            t.spec_shape() == self.spec_shape(),
            is_row_major(t.spec_shape(), t.spec_strides()),
            maps_all(self.elems(), t.elems(), |a: T, b: T| relu_value(a, b)),
    {
        let mut t = self.contiguous();
        let ghost t0 = t;
        t.relu_inplace();
        proof {
            lemma_row_major_mapped(t0, t, |a: T, b: T| relu_value(a, b));
        }
        t
    }
}

impl<'a, T> TensorViewMut<'a, T> {
    /// Replaces every element `x` by its sine.
    pub fn sin_inplace(&mut self)
        where T: num_traits::Float,
        requires
            old(self).wf(),
        ensures
            final(self).wf(),
            final(self).spec_shape() == old(self).spec_shape(),
            final(self).spec_strides() == old(self).spec_strides(),
            final(self).spec_offset() == old(self).spec_offset(),
            maps_each(old(self).data(), final(self).data(), old(self).spec_positions(), |a: T, b: T| sin_value(a, b)),
    {
        self.map_inplace(&float_sin::<T>);
    }

    /// Replaces every element `x` by its cosine.
    pub fn cos_inplace(&mut self)
        where T: num_traits::Float,
        requires
            old(self).wf(),
        ensures
            final(self).wf(),
            final(self).spec_shape() == old(self).spec_shape(),
            final(self).spec_strides() == old(self).spec_strides(),
            final(self).spec_offset() == old(self).spec_offset(),
            maps_each(old(self).data(), final(self).data(), old(self).spec_positions(), |a: T, b: T| cos_value(a, b)),
    {
        self.map_inplace(&float_cos::<T>);
    }

    /// Replaces every element `x` by its tangent.
    pub fn tan_inplace(&mut self)
        where T: num_traits::Float,
        requires
            old(self).wf(),
        ensures
            final(self).wf(),
            final(self).spec_shape() == old(self).spec_shape(),
            final(self).spec_strides() == old(self).spec_strides(),
            final(self).spec_offset() == old(self).spec_offset(),
            maps_each(old(self).data(), final(self).data(), old(self).spec_positions(), |a: T, b: T| tan_value(a, b)),
    {
        self.map_inplace(&float_tan::<T>);
    }

    /// Replaces every element `x` by its arcsine.
    pub fn asin_inplace(&mut self)
        where T: num_traits::Float,
        requires
            old(self).wf(),
        ensures
            final(self).wf(),
            final(self).spec_shape() == old(self).spec_shape(),
            final(self).spec_strides() == old(self).spec_strides(),
            final(self).spec_offset() == old(self).spec_offset(),
            maps_each(old(self).data(), final(self).data(), old(self).spec_positions(), |a: T, b: T| asin_value(a, b)),
    {
        self.map_inplace(&float_asin::<T>);
    }

    /// Replaces every element `x` by its arccosine.
    pub fn acos_inplace(&mut self)
        where T: num_traits::Float,
        requires
            old(self).wf(),
        ensures
            final(self).wf(),
            final(self).spec_shape() == old(self).spec_shape(),
            final(self).spec_strides() == old(self).spec_strides(),
            final(self).spec_offset() == old(self).spec_offset(),
            maps_each(old(self).data(), final(self).data(), old(self).spec_positions(), |a: T, b: T| acos_value(a, b)),
    {
        self.map_inplace(&float_acos::<T>);
    }

    /// Replaces every element `x` by its arctangent.
    pub fn atan_inplace(&mut self)
        where T: num_traits::Float,
        requires
            old(self).wf(),
        ensures
            final(self).wf(),
            final(self).spec_shape() == old(self).spec_shape(),
            final(self).spec_strides() == old(self).spec_strides(),
            final(self).spec_offset() == old(self).spec_offset(),
            maps_each(old(self).data(), final(self).data(), old(self).spec_positions(), |a: T, b: T| atan_value(a, b)),
    {
        self.map_inplace(&float_atan::<T>);
    }

    /// Replaces every element `x` by its hyperbolic sine.
    pub fn sinh_inplace(&mut self)
        where T: num_traits::Float,
        requires
            old(self).wf(),
        ensures
            final(self).wf(),
            final(self).spec_shape() == old(self).spec_shape(),
            final(self).spec_strides() == old(self).spec_strides(),
            final(self).spec_offset() == old(self).spec_offset(),
            maps_each(old(self).data(), final(self).data(), old(self).spec_positions(), |a: T, b: T| sinh_value(a, b)),
    {
        self.map_inplace(&float_sinh::<T>);
    }

    /// Replaces every element `x` by its hyperbolic cosine.
    pub fn cosh_inplace(&mut self)
        where T: num_traits::Float,
        requires
            old(self).wf(),
        ensures
            final(self).wf(),
            final(self).spec_shape() == old(self).spec_shape(),
            final(self).spec_strides() == old(self).spec_strides(),
            final(self).spec_offset() == old(self).spec_offset(),
            maps_each(old(self).data(), final(self).data(), old(self).spec_positions(), |a: T, b: T| cosh_value(a, b)),
    {
        self.map_inplace(&float_cosh::<T>);
    }

    /// Replaces every element `x` by its hyperbolic tangent.
    pub fn tanh_inplace(&mut self)
        where T: num_traits::Float,
        requires
            old(self).wf(),
        ensures
            final(self).wf(),
            final(self).spec_shape() == old(self).spec_shape(),
            final(self).spec_strides() == old(self).spec_strides(),
            final(self).spec_offset() == old(self).spec_offset(),
            maps_each(old(self).data(), final(self).data(), old(self).spec_positions(), |a: T, b: T| tanh_value(a, b)),
    {
        self.map_inplace(&float_tanh::<T>);
    }

    /// Replaces every element `x` by its inverse hyperbolic sine.
    pub fn asinh_inplace(&mut self)
        where T: num_traits::Float,
        requires
            old(self).wf(),
        ensures
            final(self).wf(),
            final(self).spec_shape() == old(self).spec_shape(),
            final(self).spec_strides() == old(self).spec_strides(),
            final(self).spec_offset() == old(self).spec_offset(),
            maps_each(old(self).data(), final(self).data(), old(self).spec_positions(), |a: T, b: T| asinh_value(a, b)),
    {
        self.map_inplace(&float_asinh::<T>);
    }

    /// Replaces every element `x` by its inverse hyperbolic cosine.
    pub fn acosh_inplace(&mut self)
        where T: num_traits::Float,
        requires
            old(self).wf(),
        ensures
            final(self).wf(),
            final(self).spec_shape() == old(self).spec_shape(),
            final(self).spec_strides() == old(self).spec_strides(),
            final(self).spec_offset() == old(self).spec_offset(),
            maps_each(old(self).data(), final(self).data(), old(self).spec_positions(), |a: T, b: T| acosh_value(a, b)),
    {
        self.map_inplace(&float_acosh::<T>);
    }

    /// Replaces every element `x` by its inverse hyperbolic tangent.
    pub fn atanh_inplace(&mut self)
        where T: num_traits::Float,
        requires
            old(self).wf(),
        ensures
            final(self).wf(),
            final(self).spec_shape() == old(self).spec_shape(),
            final(self).spec_strides() == old(self).spec_strides(),
            final(self).spec_offset() == old(self).spec_offset(),
            maps_each(old(self).data(), final(self).data(), old(self).spec_positions(), |a: T, b: T| atanh_value(a, b)),
    {
        self.map_inplace(&float_atanh::<T>);
    }

    /// Replaces every element `x` by its square root.
    pub fn sqrt_inplace(&mut self)
        where T: num_traits::Float,
        requires
            old(self).wf(),
        ensures
            final(self).wf(),
            final(self).spec_shape() == old(self).spec_shape(),
            final(self).spec_strides() == old(self).spec_strides(),
            final(self).spec_offset() == old(self).spec_offset(),
            maps_each(old(self).data(), final(self).data(), old(self).spec_positions(), |a: T, b: T| sqrt_value(a, b)),
    {
        self.map_inplace(&float_sqrt::<T>);
    }

    /// Replaces every element `x` by its exponential.
    pub fn exp_inplace(&mut self)
        where T: num_traits::Float,
        requires
            old(self).wf(),
        ensures
            final(self).wf(),
            final(self).spec_shape() == old(self).spec_shape(),
            final(self).spec_strides() == old(self).spec_strides(),
            final(self).spec_offset() == old(self).spec_offset(),
            maps_each(old(self).data(), final(self).data(), old(self).spec_positions(), |a: T, b: T| exp_value(a, b)),
    {
        self.map_inplace(&float_exp::<T>);
    }

    /// Replaces every element `x` by its `exp(x) - 1`.
    pub fn expm1_inplace(&mut self)
        where T: num_traits::Float,
        requires
            old(self).wf(),
        ensures
            final(self).wf(),
            final(self).spec_shape() == old(self).spec_shape(),
            final(self).spec_strides() == old(self).spec_strides(),
            final(self).spec_offset() == old(self).spec_offset(),
            maps_each(old(self).data(), final(self).data(), old(self).spec_positions(), |a: T, b: T| expm1_value(a, b)),
    {
        self.map_inplace(&float_expm1::<T>);
    }

    /// Replaces every element `x` by its natural logarithm.
    pub fn ln_inplace(&mut self)
        where T: num_traits::Float,
        requires
            old(self).wf(),
        ensures
            final(self).wf(),
            final(self).spec_shape() == old(self).spec_shape(),
            final(self).spec_strides() == old(self).spec_strides(),
            final(self).spec_offset() == old(self).spec_offset(),
            maps_each(old(self).data(), final(self).data(), old(self).spec_positions(), |a: T, b: T| ln_value(a, b)),
    {
        self.map_inplace(&float_ln::<T>);
    }

    /// Replaces every element `x` by its `ln(1 + x)`.
    pub fn ln1p_inplace(&mut self)
        where T: num_traits::Float,
        requires
            old(self).wf(),
        ensures
            final(self).wf(),
            final(self).spec_shape() == old(self).spec_shape(),
            final(self).spec_strides() == old(self).spec_strides(),
            final(self).spec_offset() == old(self).spec_offset(),
            maps_each(old(self).data(), final(self).data(), old(self).spec_positions(), |a: T, b: T| ln1p_value(a, b)),
    {
        self.map_inplace(&float_ln1p::<T>);
    }

    /// Replaces every element `x` by its largest integer not above.
    pub fn floor_inplace(&mut self)
        where T: num_traits::Float,
        requires
            old(self).wf(),
        ensures
            final(self).wf(),
            final(self).spec_shape() == old(self).spec_shape(),
            final(self).spec_strides() == old(self).spec_strides(),
            final(self).spec_offset() == old(self).spec_offset(),
            maps_each(old(self).data(), final(self).data(), old(self).spec_positions(), |a: T, b: T| floor_value(a, b)),
    {
        self.map_inplace(&float_floor::<T>);
    }

    /// Replaces every element `x` by its smallest integer not below.
    pub fn ceil_inplace(&mut self)
        where T: num_traits::Float,
        requires
            old(self).wf(),
        ensures
            final(self).wf(),
            final(self).spec_shape() == old(self).spec_shape(),
            final(self).spec_strides() == old(self).spec_strides(),
            final(self).spec_offset() == old(self).spec_offset(),
            maps_each(old(self).data(), final(self).data(), old(self).spec_positions(), |a: T, b: T| ceil_value(a, b)),
    {
        self.map_inplace(&float_ceil::<T>);
    }

    /// Replaces every element `x` by its nearest integer (halves away from zero).
    pub fn round_inplace(&mut self)
        where T: num_traits::Float,
        requires
            old(self).wf(),
        ensures
            final(self).wf(),
            final(self).spec_shape() == old(self).spec_shape(),
            final(self).spec_strides() == old(self).spec_strides(),
            final(self).spec_offset() == old(self).spec_offset(),
            maps_each(old(self).data(), final(self).data(), old(self).spec_positions(), |a: T, b: T| round_value(a, b)),
    {
        self.map_inplace(&float_round::<T>);
    }

    /// Replaces every element `x` by its integer part.
    pub fn trunc_inplace(&mut self)
        where T: num_traits::Float,
        requires
            old(self).wf(),
        ensures
            final(self).wf(),
            final(self).spec_shape() == old(self).spec_shape(),
            final(self).spec_strides() == old(self).spec_strides(),
            final(self).spec_offset() == old(self).spec_offset(),
            maps_each(old(self).data(), final(self).data(), old(self).spec_positions(), |a: T, b: T| trunc_value(a, b)),
    {
        self.map_inplace(&float_trunc::<T>);
    }

    /// Replaces every element `x` by its sign (`1`, `-1`, or NaN).
    pub fn sign_inplace(&mut self)
        where T: num_traits::Float,
        requires
            old(self).wf(),
        ensures
            final(self).wf(),
            final(self).spec_shape() == old(self).spec_shape(),
            final(self).spec_strides() == old(self).spec_strides(),
            final(self).spec_offset() == old(self).spec_offset(),
            maps_each(old(self).data(), final(self).data(), old(self).spec_positions(), |a: T, b: T| sign_value(a, b)),
    {
        self.map_inplace(&float_sign::<T>);
    }

    /// Replaces every element `x` by its absolute value.
    pub fn abs_inplace(&mut self)
        where T: num_traits::Float,
        requires
            old(self).wf(),
        ensures
            final(self).wf(),
            final(self).spec_shape() == old(self).spec_shape(),
            final(self).spec_strides() == old(self).spec_strides(),
            final(self).spec_offset() == old(self).spec_offset(),
            maps_each(old(self).data(), final(self).data(), old(self).spec_positions(), |a: T, b: T| abs_value(a, b)),
    {
        self.map_inplace(&float_abs::<T>);
    }

    /// Replaces every element `x` by its reciprocal `1 / x`.
    pub fn reciprocal_inplace(&mut self)
        where T: num_traits::Float,
        requires
            old(self).wf(),
        ensures
            final(self).wf(),
            final(self).spec_shape() == old(self).spec_shape(),
            final(self).spec_strides() == old(self).spec_strides(),
            final(self).spec_offset() == old(self).spec_offset(),
            maps_each(old(self).data(), final(self).data(), old(self).spec_positions(), |a: T, b: T| reciprocal_value(a, b)),
    {
        self.map_inplace(&float_reciprocal::<T>);
    }

    /// Replaces every element `x` by its negation.
    pub fn neg_inplace(&mut self)
        where T: num_traits::Float,
        requires
            old(self).wf(),
        ensures
            final(self).wf(),
            final(self).spec_shape() == old(self).spec_shape(),
            final(self).spec_strides() == old(self).spec_strides(),
            final(self).spec_offset() == old(self).spec_offset(),
            maps_each(old(self).data(), final(self).data(), old(self).spec_positions(), |a: T, b: T| neg_value(a, b)),
    {
        self.map_inplace(&float_neg::<T>);
    }

    /// Replaces every element `x` by its logistic function.
    pub fn sigmoid_inplace(&mut self)
        where T: num_traits::Float,
        requires
            old(self).wf(),
        ensures
            final(self).wf(),
            final(self).spec_shape() == old(self).spec_shape(),
            final(self).spec_strides() == old(self).spec_strides(),
            final(self).spec_offset() == old(self).spec_offset(),
            maps_each(old(self).data(), final(self).data(), old(self).spec_positions(), |a: T, b: T| sigmoid_value(a, b)),
    {
        self.map_inplace(&sigmoid_of::<T>);
    }

    /// Replaces every element `x` by its `x * sigmoid(x)`.
    pub fn silu_inplace(&mut self)
        where T: num_traits::Float,
        requires
            old(self).wf(),
        ensures
            final(self).wf(),
            final(self).spec_shape() == old(self).spec_shape(),
            final(self).spec_strides() == old(self).spec_strides(),
            final(self).spec_offset() == old(self).spec_offset(),
            maps_each(old(self).data(), final(self).data(), old(self).spec_positions(), |a: T, b: T| silu_value(a, b)),
    {
        self.map_inplace(&silu_of::<T>);
    }

    /// Replaces every element `x` by its `1 / sqrt(x)`.
    pub fn rsqrt_inplace(&mut self)
        where T: num_traits::Float,
        requires
            old(self).wf(),
        ensures
            final(self).wf(),
            final(self).spec_shape() == old(self).spec_shape(),
            final(self).spec_strides() == old(self).spec_strides(),
            final(self).spec_offset() == old(self).spec_offset(),
            maps_each(old(self).data(), final(self).data(), old(self).spec_positions(), |a: T, b: T| rsqrt_value(a, b)),
    {
        self.map_inplace(&rsqrt_of::<T>);
    }

    /// Replaces every element `x` by its square.
    pub fn square_inplace(&mut self)
        where T: num_traits::Float,
        requires
            old(self).wf(),
        ensures
            final(self).wf(),
            final(self).spec_shape() == old(self).spec_shape(),
            final(self).spec_strides() == old(self).spec_strides(),
            final(self).spec_offset() == old(self).spec_offset(),
            maps_each(old(self).data(), final(self).data(), old(self).spec_positions(), |a: T, b: T| square_value(a, b)),
    {
        self.map_inplace(&square_of::<T>);
    }

    /// Replaces every element `x` by its cube.
    pub fn cube_inplace(&mut self)
        where T: num_traits::Float,
        requires
            old(self).wf(),
        ensures
            final(self).wf(),
            final(self).spec_shape() == old(self).spec_shape(),
            final(self).spec_strides() == old(self).spec_strides(),
            final(self).spec_offset() == old(self).spec_offset(),
            maps_each(old(self).data(), final(self).data(), old(self).spec_positions(), |a: T, b: T| cube_value(a, b)),
    {
        self.map_inplace(&cube_of::<T>);
    }

    /// Replaces every element `x` by its `max(x, 0)`.
    pub fn relu_inplace(&mut self)
        where T: num_traits::Float,
        requires
            old(self).wf(),
        ensures
            final(self).wf(),
            final(self).spec_shape() == old(self).spec_shape(),
            final(self).spec_strides() == old(self).spec_strides(),
            final(self).spec_offset() == old(self).spec_offset(),
            maps_each(old(self).data(), final(self).data(), old(self).spec_positions(), |a: T, b: T| relu_value(a, b)),
    {
        self.map_inplace(&relu_of::<T>);
    }

    /// A row-major copy with every element `x` replaced by its sine.
    pub fn sin(&self) -> (t: TensorBase<T>)
        where T: num_traits::Float,
        requires
            self.wf(),
            sizes_fit(self.spec_shape()),
        ensures
            t.wf(),
            t.spec_shape() == self.spec_shape(),
            is_row_major(t.spec_shape(), t.spec_strides()),
            maps_all(self.elems(), t.elems(), |a: T, b: T| sin_value(a, b)),
    {
        let mut t = self.view_ref().to_contiguous();
        let ghost t0 = t;
        t.sin_inplace();
        proof {
            lemma_row_major_mapped(t0, t, |a: T, b: T| sin_value(a, b));
        }
        t
    }

    /// A row-major copy with every element `x` replaced by its cosine.
    pub fn cos(&self) -> (t: TensorBase<T>)
        where T: num_traits::Float,
        requires
            self.wf(),
            sizes_fit(self.spec_shape()),
        ensures
            t.wf(),
            t.spec_shape() == self.spec_shape(),
            is_row_major(t.spec_shape(), t.spec_strides()),
            maps_all(self.elems(), t.elems(), |a: T, b: T| cos_value(a, b)),
    {
        let mut t = self.view_ref().to_contiguous();
        let ghost t0 = t;
        t.cos_inplace();
        proof {
            lemma_row_major_mapped(t0, t, |a: T, b: T| cos_value(a, b));
        }
        t
    }

    /// A row-major copy with every element `x` replaced by its tangent.
    pub fn tan(&self) -> (t: TensorBase<T>)
        where T: num_traits::Float,
        requires
            self.wf(),
            sizes_fit(self.spec_shape()),
        ensures
            t.wf(),
            t.spec_shape() == self.spec_shape(),
            is_row_major(t.spec_shape(), t.spec_strides()),
            maps_all(self.elems(), t.elems(), |a: T, b: T| tan_value(a, b)),
    {
        let mut t = self.view_ref().to_contiguous();
        let ghost t0 = t;
        t.tan_inplace();
        proof {
            lemma_row_major_mapped(t0, t, |a: T, b: T| tan_value(a, b));
        }
        t
    }

    /// A row-major copy with every element `x` replaced by its arcsine.
    pub fn asin(&self) -> (t: TensorBase<T>)
        where T: num_traits::Float,
        requires
            self.wf(),
            sizes_fit(self.spec_shape()),
        ensures
            t.wf(),
            t.spec_shape() == self.spec_shape(),
            is_row_major(t.spec_shape(), t.spec_strides()),
            maps_all(self.elems(), t.elems(), |a: T, b: T| asin_value(a, b)),
    {
        let mut t = self.view_ref().to_contiguous();
        let ghost t0 = t;
        t.asin_inplace();
        proof {
            lemma_row_major_mapped(t0, t, |a: T, b: T| asin_value(a, b));
        }
        t
    }

    /// A row-major copy with every element `x` replaced by its arccosine.
    pub fn acos(&self) -> (t: TensorBase<T>)
        where T: num_traits::Float,
        requires
            self.wf(),
            sizes_fit(self.spec_shape()),
        ensures
            t.wf(),
            t.spec_shape() == self.spec_shape(),
            is_row_major(t.spec_shape(), t.spec_strides()),
            maps_all(self.elems(), t.elems(), |a: T, b: T| acos_value(a, b)),
    {
        let mut t = self.view_ref().to_contiguous();
        let ghost t0 = t;
        t.acos_inplace();
        proof {
            lemma_row_major_mapped(t0, t, |a: T, b: T| acos_value(a, b));
        }
        t
    }

    /// A row-major copy with every element `x` replaced by its arctangent.
    pub fn atan(&self) -> (t: TensorBase<T>)
        where T: num_traits::Float,
        requires
            self.wf(),
            sizes_fit(self.spec_shape()),
        ensures
            t.wf(),
            t.spec_shape() == self.spec_shape(),
            is_row_major(t.spec_shape(), t.spec_strides()),
            maps_all(self.elems(), t.elems(), |a: T, b: T| atan_value(a, b)),
    {
        let mut t = self.view_ref().to_contiguous();
        let ghost t0 = t;
        t.atan_inplace();
        proof {
            lemma_row_major_mapped(t0, t, |a: T, b: T| atan_value(a, b));
        }
        t
    }

    /// A row-major copy with every element `x` replaced by its hyperbolic sine.
    pub fn sinh(&self) -> (t: TensorBase<T>)
        where T: num_traits::Float,
        requires
            self.wf(),
            sizes_fit(self.spec_shape()),
        ensures
            t.wf(),
            t.spec_shape() == self.spec_shape(),
            is_row_major(t.spec_shape(), t.spec_strides()),
            maps_all(self.elems(), t.elems(), |a: T, b: T| sinh_value(a, b)),
    {
        let mut t = self.view_ref().to_contiguous();
        let ghost t0 = t;
        t.sinh_inplace();
        proof {
            lemma_row_major_mapped(t0, t, |a: T, b: T| sinh_value(a, b));
        }
        t
    }

    /// A row-major copy with every element `x` replaced by its hyperbolic cosine.
    pub fn cosh(&self) -> (t: TensorBase<T>)
        where T: num_traits::Float,
        requires
            self.wf(),
            sizes_fit(self.spec_shape()),
        ensures
            t.wf(),
            t.spec_shape() == self.spec_shape(),
            is_row_major(t.spec_shape(), t.spec_strides()),
            maps_all(self.elems(), t.elems(), |a: T, b: T| cosh_value(a, b)),
    {
        let mut t = self.view_ref().to_contiguous();
        let ghost t0 = t;
        t.cosh_inplace();
        proof {
            lemma_row_major_mapped(t0, t, |a: T, b: T| cosh_value(a, b));
        }
        t
    }

    /// A row-major copy with every element `x` replaced by its hyperbolic tangent.
    pub fn tanh(&self) -> (t: TensorBase<T>)
        where T: num_traits::Float,
        requires
            self.wf(),
            sizes_fit(self.spec_shape()),
        ensures
            t.wf(),
            t.spec_shape() == self.spec_shape(),
            is_row_major(t.spec_shape(), t.spec_strides()),
            maps_all(self.elems(), t.elems(), |a: T, b: T| tanh_value(a, b)),
    {
        let mut t = self.view_ref().to_contiguous();
        let ghost t0 = t;
        t.tanh_inplace();
        proof {
            lemma_row_major_mapped(t0, t, |a: T, b: T| tanh_value(a, b));
        }
        t
    }

    /// A row-major copy with every element `x` replaced by its inverse hyperbolic sine.
    pub fn asinh(&self) -> (t: TensorBase<T>)
        where T: num_traits::Float,
        requires
            self.wf(),
            sizes_fit(self.spec_shape()),
        ensures
            t.wf(),
            t.spec_shape() == self.spec_shape(),
            is_row_major(t.spec_shape(), t.spec_strides()),
            maps_all(self.elems(), t.elems(), |a: T, b: T| asinh_value(a, b)),
    {
        let mut t = self.view_ref().to_contiguous();
        let ghost t0 = t;
        t.asinh_inplace();
        proof {
            lemma_row_major_mapped(t0, t, |a: T, b: T| asinh_value(a, b));
        }
        t
    }

    /// A row-major copy with every element `x` replaced by its inverse hyperbolic cosine.
    pub fn acosh(&self) -> (t: TensorBase<T>)
        where T: num_traits::Float,
        requires
            self.wf(),
            sizes_fit(self.spec_shape()),
        ensures
            t.wf(),
            t.spec_shape() == self.spec_shape(),
            is_row_major(t.spec_shape(), t.spec_strides()),
            maps_all(self.elems(), t.elems(), |a: T, b: T| acosh_value(a, b)),
    {
        let mut t = self.view_ref().to_contiguous();
        let ghost t0 = t;
        t.acosh_inplace();
        proof {
            lemma_row_major_mapped(t0, t, |a: T, b: T| acosh_value(a, b));
        }
        t
    }

    /// A row-major copy with every element `x` replaced by its inverse hyperbolic tangent.
    pub fn atanh(&self) -> (t: TensorBase<T>)
        where T: num_traits::Float,
        requires
            self.wf(),
            sizes_fit(self.spec_shape()),
        ensures
            t.wf(),
            t.spec_shape() == self.spec_shape(),
            is_row_major(t.spec_shape(), t.spec_strides()),
            maps_all(self.elems(), t.elems(), |a: T, b: T| atanh_value(a, b)),
    {
        let mut t = self.view_ref().to_contiguous();
        let ghost t0 = t;
        t.atanh_inplace();
        proof {
            lemma_row_major_mapped(t0, t, |a: T, b: T| atanh_value(a, b));
        }
        t
    }

    /// A row-major copy with every element `x` replaced by its square root.
    pub fn sqrt(&self) -> (t: TensorBase<T>)
        where T: num_traits::Float,
        requires
            self.wf(),
            sizes_fit(self.spec_shape()),
        ensures
            t.wf(),
            t.spec_shape() == self.spec_shape(),
            is_row_major(t.spec_shape(), t.spec_strides()),
            maps_all(self.elems(), t.elems(), |a: T, b: T| sqrt_value(a, b)),
    {
        let mut t = self.view_ref().to_contiguous();
        let ghost t0 = t;
        t.sqrt_inplace();
        proof {
            lemma_row_major_mapped(t0, t, |a: T, b: T| sqrt_value(a, b));
        }
        t
    }

    /// A row-major copy with every element `x` replaced by its exponential.
    pub fn exp(&self) -> (t: TensorBase<T>)
        where T: num_traits::Float,
        requires
            self.wf(),
            sizes_fit(self.spec_shape()),
        ensures
            t.wf(),
            t.spec_shape() == self.spec_shape(),
            is_row_major(t.spec_shape(), t.spec_strides()),
            maps_all(self.elems(), t.elems(), |a: T, b: T| exp_value(a, b)),
    {
        let mut t = self.view_ref().to_contiguous();
        let ghost t0 = t;
        t.exp_inplace();
        proof {
            lemma_row_major_mapped(t0, t, |a: T, b: T| exp_value(a, b));
        }
        t
    }

    /// A row-major copy with every element `x` replaced by its `exp(x) - 1`.
    pub fn expm1(&self) -> (t: TensorBase<T>)
        where T: num_traits::Float,
        requires
            self.wf(),
            sizes_fit(self.spec_shape()),
        ensures
            t.wf(),
            t.spec_shape() == self.spec_shape(),
            is_row_major(t.spec_shape(), t.spec_strides()),
            maps_all(self.elems(), t.elems(), |a: T, b: T| expm1_value(a, b)),
    {
        let mut t = self.view_ref().to_contiguous();
        let ghost t0 = t;
        t.expm1_inplace();
        proof {
            lemma_row_major_mapped(t0, t, |a: T, b: T| expm1_value(a, b));
        }
        t
    }

    /// A row-major copy with every element `x` replaced by its natural logarithm.
    pub fn ln(&self) -> (t: TensorBase<T>)
        where T: num_traits::Float,
        requires
            self.wf(),
            sizes_fit(self.spec_shape()),
        ensures
            t.wf(),
            t.spec_shape() == self.spec_shape(),
            is_row_major(t.spec_shape(), t.spec_strides()),
            maps_all(self.elems(), t.elems(), |a: T, b: T| ln_value(a, b)),
    {
        let mut t = self.view_ref().to_contiguous();
        let ghost t0 = t;
        t.ln_inplace();
        proof {
            lemma_row_major_mapped(t0, t, |a: T, b: T| ln_value(a, b));
        }
        t
    }

    /// A row-major copy with every element `x` replaced by its `ln(1 + x)`.
    pub fn ln1p(&self) -> (t: TensorBase<T>)
        where T: num_traits::Float,
        requires
            self.wf(),
            sizes_fit(self.spec_shape()),
        ensures
            t.wf(),
            t.spec_shape() == self.spec_shape(),
            is_row_major(t.spec_shape(), t.spec_strides()),
            maps_all(self.elems(), t.elems(), |a: T, b: T| ln1p_value(a, b)),
    {
        let mut t = self.view_ref().to_contiguous();
        let ghost t0 = t;
        t.ln1p_inplace();
        proof {
            lemma_row_major_mapped(t0, t, |a: T, b: T| ln1p_value(a, b));
        }
        t
    }

    /// A row-major copy with every element `x` replaced by its largest integer not above.
    pub fn floor(&self) -> (t: TensorBase<T>)
        where T: num_traits::Float,
        requires
            self.wf(),
            sizes_fit(self.spec_shape()),
        ensures
            t.wf(),
            t.spec_shape() == self.spec_shape(),
            is_row_major(t.spec_shape(), t.spec_strides()),
            maps_all(self.elems(), t.elems(), |a: T, b: T| floor_value(a, b)),
    {
        let mut t = self.view_ref().to_contiguous();
        let ghost t0 = t;
        t.floor_inplace();
        proof {
            lemma_row_major_mapped(t0, t, |a: T, b: T| floor_value(a, b));
        }
        t
    }

    /// A row-major copy with every element `x` replaced by its smallest integer not below.
    pub fn ceil(&self) -> (t: TensorBase<T>)
        where T: num_traits::Float,
        requires
            self.wf(),
            sizes_fit(self.spec_shape()),
        ensures
            t.wf(),
            t.spec_shape() == self.spec_shape(),
            is_row_major(t.spec_shape(), t.spec_strides()),
            maps_all(self.elems(), t.elems(), |a: T, b: T| ceil_value(a, b)),
    {
        let mut t = self.view_ref().to_contiguous();
        let ghost t0 = t;
        t.ceil_inplace();
        proof {
            lemma_row_major_mapped(t0, t, |a: T, b: T| ceil_value(a, b));
        }
        t
    }

    /// A row-major copy with every element `x` replaced by its nearest integer (halves away from zero).
    pub fn round(&self) -> (t: TensorBase<T>)
        where T: num_traits::Float,
        requires
            self.wf(),
            sizes_fit(self.spec_shape()),
        ensures
            t.wf(),
            t.spec_shape() == self.spec_shape(),
            is_row_major(t.spec_shape(), t.spec_strides()),
            maps_all(self.elems(), t.elems(), |a: T, b: T| round_value(a, b)),
    {
        let mut t = self.view_ref().to_contiguous();
        let ghost t0 = t;
        t.round_inplace();
        proof {
            lemma_row_major_mapped(t0, t, |a: T, b: T| round_value(a, b));
        }
        t
    }

    /// A row-major copy with every element `x` replaced by its integer part.
    pub fn trunc(&self) -> (t: TensorBase<T>)
        where T: num_traits::Float,
        requires
            self.wf(),
            sizes_fit(self.spec_shape()),
        ensures
            t.wf(),
            t.spec_shape() == self.spec_shape(),
            is_row_major(t.spec_shape(), t.spec_strides()),
            maps_all(self.elems(), t.elems(), |a: T, b: T| trunc_value(a, b)),
    {
        let mut t = self.view_ref().to_contiguous();
        let ghost t0 = t;
        t.trunc_inplace();
        proof {
            lemma_row_major_mapped(t0, t, |a: T, b: T| trunc_value(a, b));
        }
        t
    }

    /// A row-major copy with every element `x` replaced by its sign (`1`, `-1`, or NaN).
    pub fn sign(&self) -> (t: TensorBase<T>)
        where T: num_traits::Float,
        requires
            self.wf(),
            sizes_fit(self.spec_shape()),
        ensures
            t.wf(),
            t.spec_shape() == self.spec_shape(),
            is_row_major(t.spec_shape(), t.spec_strides()),
            maps_all(self.elems(), t.elems(), |a: T, b: T| sign_value(a, b)),
    {
        let mut t = self.view_ref().to_contiguous();
        let ghost t0 = t;
        t.sign_inplace();
        proof {
            lemma_row_major_mapped(t0, t, |a: T, b: T| sign_value(a, b));
        }
        t
    }

    /// A row-major copy with every element `x` replaced by its absolute value.
    pub fn abs(&self) -> (t: TensorBase<T>)
        where T: num_traits::Float,
        requires
            self.wf(),
            sizes_fit(self.spec_shape()),
        ensures
            t.wf(),
            t.spec_shape() == self.spec_shape(),
            is_row_major(t.spec_shape(), t.spec_strides()),
            maps_all(self.elems(), t.elems(), |a: T, b: T| abs_value(a, b)),
    {
        let mut t = self.view_ref().to_contiguous();
        let ghost t0 = t;
        t.abs_inplace();
        proof {
            lemma_row_major_mapped(t0, t, |a: T, b: T| abs_value(a, b));
        }
        t
    }

    /// A row-major copy with every element `x` replaced by its reciprocal `1 / x`.
    pub fn reciprocal(&self) -> (t: TensorBase<T>)
        where T: num_traits::Float,
        requires
            self.wf(),
            sizes_fit(self.spec_shape()),
        ensures
            t.wf(),
            t.spec_shape() == self.spec_shape(),
            is_row_major(t.spec_shape(), t.spec_strides()),
            maps_all(self.elems(), t.elems(), |a: T, b: T| reciprocal_value(a, b)),
    {
        let mut t = self.view_ref().to_contiguous();
        let ghost t0 = t;
        t.reciprocal_inplace();
        proof {
            lemma_row_major_mapped(t0, t, |a: T, b: T| reciprocal_value(a, b));
        }
        t
    }

    /// A row-major copy with every element `x` replaced by its negation.
    pub fn neg(&self) -> (t: TensorBase<T>)
        where T: num_traits::Float,
        requires
            self.wf(),
            sizes_fit(self.spec_shape()),
        ensures
            t.wf(),
            t.spec_shape() == self.spec_shape(),
            is_row_major(t.spec_shape(), t.spec_strides()),
            maps_all(self.elems(), t.elems(), |a: T, b: T| neg_value(a, b)),
    {
        let mut t = self.view_ref().to_contiguous();
        let ghost t0 = t;
        t.neg_inplace();
        proof {
            lemma_row_major_mapped(t0, t, |a: T, b: T| neg_value(a, b));
        }
        t
    }

    /// A row-major copy with every element `x` replaced by its logistic function.
    pub fn sigmoid(&self) -> (t: TensorBase<T>)
        where T: num_traits::Float,
        requires
            self.wf(),
            sizes_fit(self.spec_shape()),
        ensures
            t.wf(),
            t.spec_shape() == self.spec_shape(),
            is_row_major(t.spec_shape(), t.spec_strides()),
            maps_all(self.elems(), t.elems(), |a: T, b: T| sigmoid_value(a, b)),
    {
        let mut t = self.view_ref().to_contiguous();
        let ghost t0 = t;
        t.sigmoid_inplace();
        proof {
            lemma_row_major_mapped(t0, t, |a: T, b: T| sigmoid_value(a, b));
        }
        t
    }

    /// A row-major copy with every element `x` replaced by its `x * sigmoid(x)`.
    pub fn silu(&self) -> (t: TensorBase<T>)
        where T: num_traits::Float,
        requires
            self.wf(),
            sizes_fit(self.spec_shape()),
        ensures
            t.wf(),
            t.spec_shape() == self.spec_shape(),
            is_row_major(t.spec_shape(), t.spec_strides()),
            maps_all(self.elems(), t.elems(), |a: T, b: T| silu_value(a, b)),
    {
        let mut t = self.view_ref().to_contiguous();
        let ghost t0 = t;
        t.silu_inplace();
        proof {
            lemma_row_major_mapped(t0, t, |a: T, b: T| silu_value(a, b));
        }
        t
    }

    /// A row-major copy with every element `x` replaced by its `1 / sqrt(x)`.
    pub fn rsqrt(&self) -> (t: TensorBase<T>)
        where T: num_traits::Float,
        requires
            self.wf(),
            sizes_fit(self.spec_shape()),
        ensures
            t.wf(),
            t.spec_shape() == self.spec_shape(),
            is_row_major(t.spec_shape(), t.spec_strides()),
            maps_all(self.elems(), t.elems(), |a: T, b: T| rsqrt_value(a, b)),
    {
        let mut t = self.view_ref().to_contiguous();
        let ghost t0 = t;
        t.rsqrt_inplace();
        proof {
            lemma_row_major_mapped(t0, t, |a: T, b: T| rsqrt_value(a, b));
        }
        t
    }

    /// A row-major copy with every element `x` replaced by its square.
    pub fn square(&self) -> (t: TensorBase<T>)
        where T: num_traits::Float,
        requires
            self.wf(),
            sizes_fit(self.spec_shape()),
        ensures
            t.wf(),
            t.spec_shape() == self.spec_shape(),
            is_row_major(t.spec_shape(), t.spec_strides()),
            maps_all(self.elems(), t.elems(), |a: T, b: T| square_value(a, b)),
    {
        let mut t = self.view_ref().to_contiguous();
        let ghost t0 = t;
        t.square_inplace();
        proof {
            lemma_row_major_mapped(t0, t, |a: T, b: T| square_value(a, b));
        }
        t
    }

    /// A row-major copy with every element `x` replaced by its cube.
    pub fn cube(&self) -> (t: TensorBase<T>)
        where T: num_traits::Float,
        requires
            self.wf(),
            sizes_fit(self.spec_shape()),
        ensures
            t.wf(),
            t.spec_shape() == self.spec_shape(),
            is_row_major(t.spec_shape(), t.spec_strides()),
            maps_all(self.elems(), t.elems(), |a: T, b: T| cube_value(a, b)),
    {
        let mut t = self.view_ref().to_contiguous();
        let ghost t0 = t;
        t.cube_inplace();
        proof {
            lemma_row_major_mapped(t0, t, |a: T, b: T| cube_value(a, b));
        }
        t
    }

    /// A row-major copy with every element `x` replaced by its `max(x, 0)`.
    pub fn relu(&self) -> (t: TensorBase<T>)
        where T: num_traits::Float,
        requires
            self.wf(),
            sizes_fit(self.spec_shape()),
        ensures
            t.wf(),
            t.spec_shape() == self.spec_shape(),
            is_row_major(t.spec_shape(), t.spec_strides()),
            maps_all(self.elems(), t.elems(), |a: T, b: T| relu_value(a, b)),
    {
        let mut t = self.view_ref().to_contiguous();
        let ghost t0 = t;
        t.relu_inplace();
        proof {
            lemma_row_major_mapped(t0, t, |a: T, b: T| relu_value(a, b));
        }
        t
    }
}

impl<'a, T> TensorView<'a, T> {
    /// A row-major copy with every element `x` replaced by its sine.
    pub fn sin(&self) -> (t: TensorBase<T>)
        where T: num_traits::Float,
        requires
            sizes_fit(self.spec_shape()),
        ensures
            t.wf(),
            t.spec_shape() == self.spec_shape(),
            is_row_major(t.spec_shape(), t.spec_strides()),
            maps_all(self.elems(), t.elems(), |a: T, b: T| sin_value(a, b)),
    {
        let mut t = self.to_contiguous();
        let ghost t0 = t;
        t.sin_inplace();
        proof {
            lemma_row_major_mapped(t0, t, |a: T, b: T| sin_value(a, b));
        }
        t
    }

    /// A row-major copy with every element `x` replaced by its cosine.
    pub fn cos(&self) -> (t: TensorBase<T>)
        where T: num_traits::Float,
        requires
            sizes_fit(self.spec_shape()),
        ensures
            t.wf(),
            t.spec_shape() == self.spec_shape(),
            is_row_major(t.spec_shape(), t.spec_strides()),
            maps_all(self.elems(), t.elems(), |a: T, b: T| cos_value(a, b)),
    {
        let mut t = self.to_contiguous();
        let ghost t0 = t;
        t.cos_inplace();
        proof {
            lemma_row_major_mapped(t0, t, |a: T, b: T| cos_value(a, b));
        }
        t
    }

    /// A row-major copy with every element `x` replaced by its tangent.
    pub fn tan(&self) -> (t: TensorBase<T>)
        where T: num_traits::Float,
        requires
            sizes_fit(self.spec_shape()),
        ensures
            t.wf(),
            t.spec_shape() == self.spec_shape(),
            is_row_major(t.spec_shape(), t.spec_strides()),
            maps_all(self.elems(), t.elems(), |a: T, b: T| tan_value(a, b)),
    {
        let mut t = self.to_contiguous();
        let ghost t0 = t;
        t.tan_inplace();
        proof {
            lemma_row_major_mapped(t0, t, |a: T, b: T| tan_value(a, b));
        }
        t
    }

    /// A row-major copy with every element `x` replaced by its arcsine.
    pub fn asin(&self) -> (t: TensorBase<T>)
        where T: num_traits::Float,
        requires
            sizes_fit(self.spec_shape()),
        ensures
            t.wf(),
            t.spec_shape() == self.spec_shape(),
            is_row_major(t.spec_shape(), t.spec_strides()),
            maps_all(self.elems(), t.elems(), |a: T, b: T| asin_value(a, b)),
    {
        let mut t = self.to_contiguous();
        let ghost t0 = t;
        t.asin_inplace();
        proof {
            lemma_row_major_mapped(t0, t, |a: T, b: T| asin_value(a, b));
        }
        t
    }

    /// A row-major copy with every element `x` replaced by its arccosine.
    pub fn acos(&self) -> (t: TensorBase<T>)
        where T: num_traits::Float,
        requires
            sizes_fit(self.spec_shape()),
        ensures
            t.wf(),
            t.spec_shape() == self.spec_shape(),
            is_row_major(t.spec_shape(), t.spec_strides()),
            maps_all(self.elems(), t.elems(), |a: T, b: T| acos_value(a, b)),
    {
        let mut t = self.to_contiguous();
        let ghost t0 = t;
        t.acos_inplace();
        proof {
            lemma_row_major_mapped(t0, t, |a: T, b: T| acos_value(a, b));
        }
        t
    }

    /// A row-major copy with every element `x` replaced by its arctangent.
    pub fn atan(&self) -> (t: TensorBase<T>)
        where T: num_traits::Float,
        requires
            sizes_fit(self.spec_shape()),
        ensures
            t.wf(),
            t.spec_shape() == self.spec_shape(),
            is_row_major(t.spec_shape(), t.spec_strides()),
            maps_all(self.elems(), t.elems(), |a: T, b: T| atan_value(a, b)),
    {
        let mut t = self.to_contiguous();
        let ghost t0 = t;
        t.atan_inplace();
        proof {
            lemma_row_major_mapped(t0, t, |a: T, b: T| atan_value(a, b));
        }
        t
    }

    /// A row-major copy with every element `x` replaced by its hyperbolic sine.
    pub fn sinh(&self) -> (t: TensorBase<T>)
        where T: num_traits::Float,
        requires
            sizes_fit(self.spec_shape()),
        ensures
            t.wf(),
            t.spec_shape() == self.spec_shape(),
            is_row_major(t.spec_shape(), t.spec_strides()),
            maps_all(self.elems(), t.elems(), |a: T, b: T| sinh_value(a, b)),
    {
        let mut t = self.to_contiguous();
        let ghost t0 = t;
        t.sinh_inplace();
        proof {
            lemma_row_major_mapped(t0, t, |a: T, b: T| sinh_value(a, b));
        }
        t
    }

    /// A row-major copy with every element `x` replaced by its hyperbolic cosine.
    pub fn cosh(&self) -> (t: TensorBase<T>)
        where T: num_traits::Float,
        requires
            sizes_fit(self.spec_shape()),
        ensures
            t.wf(),
            t.spec_shape() == self.spec_shape(),
            is_row_major(t.spec_shape(), t.spec_strides()),
            maps_all(self.elems(), t.elems(), |a: T, b: T| cosh_value(a, b)),
    {
        let mut t = self.to_contiguous();
        let ghost t0 = t;
        t.cosh_inplace();
        proof {
            lemma_row_major_mapped(t0, t, |a: T, b: T| cosh_value(a, b));
        }
        t
    }

    /// A row-major copy with every element `x` replaced by its hyperbolic tangent.
    pub fn tanh(&self) -> (t: TensorBase<T>)
        where T: num_traits::Float,
        requires
            sizes_fit(self.spec_shape()),
        ensures
            t.wf(),
            t.spec_shape() == self.spec_shape(),
            is_row_major(t.spec_shape(), t.spec_strides()),
            maps_all(self.elems(), t.elems(), |a: T, b: T| tanh_value(a, b)),
    {
        let mut t = self.to_contiguous();
        let ghost t0 = t;
        t.tanh_inplace();
        proof {
            lemma_row_major_mapped(t0, t, |a: T, b: T| tanh_value(a, b));
        }
        t
    }

    /// A row-major copy with every element `x` replaced by its inverse hyperbolic sine.
    pub fn asinh(&self) -> (t: TensorBase<T>)
        where T: num_traits::Float,
        requires
            sizes_fit(self.spec_shape()),
        ensures
            t.wf(),
            t.spec_shape() == self.spec_shape(),
            is_row_major(t.spec_shape(), t.spec_strides()),
            maps_all(self.elems(), t.elems(), |a: T, b: T| asinh_value(a, b)),
    {
        let mut t = self.to_contiguous();
        let ghost t0 = t;
        t.asinh_inplace();
        proof {
            lemma_row_major_mapped(t0, t, |a: T, b: T| asinh_value(a, b));
        }
        t
    }

    /// A row-major copy with every element `x` replaced by its inverse hyperbolic cosine.
    pub fn acosh(&self) -> (t: TensorBase<T>)
        where T: num_traits::Float,
        requires
            sizes_fit(self.spec_shape()),
        ensures
            t.wf(),
            t.spec_shape() == self.spec_shape(),
            is_row_major(t.spec_shape(), t.spec_strides()),
            maps_all(self.elems(), t.elems(), |a: T, b: T| acosh_value(a, b)),
    {
        let mut t = self.to_contiguous();
        let ghost t0 = t;
        t.acosh_inplace();
        proof {
            lemma_row_major_mapped(t0, t, |a: T, b: T| acosh_value(a, b));
        }
        t
    }

    /// A row-major copy with every element `x` replaced by its inverse hyperbolic tangent.
    pub fn atanh(&self) -> (t: TensorBase<T>)
        where T: num_traits::Float,
        requires
            sizes_fit(self.spec_shape()),
        ensures
            t.wf(),
            t.spec_shape() == self.spec_shape(),
            is_row_major(t.spec_shape(), t.spec_strides()),
            maps_all(self.elems(), t.elems(), |a: T, b: T| atanh_value(a, b)),
    {
        let mut t = self.to_contiguous();
        let ghost t0 = t;
        t.atanh_inplace();
        proof {
            lemma_row_major_mapped(t0, t, |a: T, b: T| atanh_value(a, b));
        }
        t
    }

    /// A row-major copy with every element `x` replaced by its square root.
    pub fn sqrt(&self) -> (t: TensorBase<T>)
        where T: num_traits::Float,
        requires
            sizes_fit(self.spec_shape()),
        ensures
            t.wf(),
            t.spec_shape() == self.spec_shape(),
            is_row_major(t.spec_shape(), t.spec_strides()),
            maps_all(self.elems(), t.elems(), |a: T, b: T| sqrt_value(a, b)),
    {
        let mut t = self.to_contiguous();
        let ghost t0 = t;
        t.sqrt_inplace();
        proof {
            lemma_row_major_mapped(t0, t, |a: T, b: T| sqrt_value(a, b));
        }
        t
    }

    /// A row-major copy with every element `x` replaced by its exponential.
    pub fn exp(&self) -> (t: TensorBase<T>)
        where T: num_traits::Float,
        requires
            sizes_fit(self.spec_shape()),
        ensures
            t.wf(),
            t.spec_shape() == self.spec_shape(),
            is_row_major(t.spec_shape(), t.spec_strides()),
            maps_all(self.elems(), t.elems(), |a: T, b: T| exp_value(a, b)),
    {
        let mut t = self.to_contiguous();
        let ghost t0 = t;
        t.exp_inplace();
        proof {
            lemma_row_major_mapped(t0, t, |a: T, b: T| exp_value(a, b));
        }
        t
    }

    /// A row-major copy with every element `x` replaced by its `exp(x) - 1`.
    pub fn expm1(&self) -> (t: TensorBase<T>)
        where T: num_traits::Float,
        requires
            sizes_fit(self.spec_shape()),
        ensures
            t.wf(),
            t.spec_shape() == self.spec_shape(),
            is_row_major(t.spec_shape(), t.spec_strides()),
            maps_all(self.elems(), t.elems(), |a: T, b: T| expm1_value(a, b)),
    {
        let mut t = self.to_contiguous();
        let ghost t0 = t;
        t.expm1_inplace();
        proof {
            lemma_row_major_mapped(t0, t, |a: T, b: T| expm1_value(a, b));
        }
        t
    }

    /// A row-major copy with every element `x` replaced by its natural logarithm.
    pub fn ln(&self) -> (t: TensorBase<T>)
        where T: num_traits::Float,
        requires
            sizes_fit(self.spec_shape()),
        ensures
            t.wf(),
            t.spec_shape() == self.spec_shape(),
            is_row_major(t.spec_shape(), t.spec_strides()),
            maps_all(self.elems(), t.elems(), |a: T, b: T| ln_value(a, b)),
    {
        let mut t = self.to_contiguous();
        let ghost t0 = t;
        t.ln_inplace();
        proof {
            lemma_row_major_mapped(t0, t, |a: T, b: T| ln_value(a, b));
        }
        t
    }

    /// A row-major copy with every element `x` replaced by its `ln(1 + x)`.
    pub fn ln1p(&self) -> (t: TensorBase<T>)
        where T: num_traits::Float,
        requires
            sizes_fit(self.spec_shape()),
        ensures
            t.wf(),
            t.spec_shape() == self.spec_shape(),
            is_row_major(t.spec_shape(), t.spec_strides()),
            maps_all(self.elems(), t.elems(), |a: T, b: T| ln1p_value(a, b)),
    {
        let mut t = self.to_contiguous();
        let ghost t0 = t;
        t.ln1p_inplace();
        proof {
            lemma_row_major_mapped(t0, t, |a: T, b: T| ln1p_value(a, b));
        }
        t
    }

    /// A row-major copy with every element `x` replaced by its largest integer not above.
    pub fn floor(&self) -> (t: TensorBase<T>)
        where T: num_traits::Float,
        requires
            sizes_fit(self.spec_shape()),
        ensures
            t.wf(),
            t.spec_shape() == self.spec_shape(),
            is_row_major(t.spec_shape(), t.spec_strides()),
            maps_all(self.elems(), t.elems(), |a: T, b: T| floor_value(a, b)),
    {
        let mut t = self.to_contiguous();
        let ghost t0 = t;
        t.floor_inplace();
        proof {
            lemma_row_major_mapped(t0, t, |a: T, b: T| floor_value(a, b));
        }
        t
    }

    /// A row-major copy with every element `x` replaced by its smallest integer not below.
    pub fn ceil(&self) -> (t: TensorBase<T>)
        where T: num_traits::Float,
        requires
            sizes_fit(self.spec_shape()),
        ensures
            t.wf(),
            t.spec_shape() == self.spec_shape(),
            is_row_major(t.spec_shape(), t.spec_strides()),
            maps_all(self.elems(), t.elems(), |a: T, b: T| ceil_value(a, b)),
    {
        let mut t = self.to_contiguous();
        let ghost t0 = t;
        t.ceil_inplace();
        proof {
            lemma_row_major_mapped(t0, t, |a: T, b: T| ceil_value(a, b));
        }
        t
    }

    /// A row-major copy with every element `x` replaced by its nearest integer (halves away from zero).
    pub fn round(&self) -> (t: TensorBase<T>)
        where T: num_traits::Float,
        requires
            sizes_fit(self.spec_shape()),
        ensures
            t.wf(),
            t.spec_shape() == self.spec_shape(),
            is_row_major(t.spec_shape(), t.spec_strides()),
            maps_all(self.elems(), t.elems(), |a: T, b: T| round_value(a, b)),
    {
        let mut t = self.to_contiguous();
        let ghost t0 = t;
        t.round_inplace();
        proof {
            lemma_row_major_mapped(t0, t, |a: T, b: T| round_value(a, b));
        }
        t
    }

    /// A row-major copy with every element `x` replaced by its integer part.
    pub fn trunc(&self) -> (t: TensorBase<T>)
        where T: num_traits::Float,
        requires
            sizes_fit(self.spec_shape()),
        ensures
            t.wf(),
            t.spec_shape() == self.spec_shape(),
            is_row_major(t.spec_shape(), t.spec_strides()),
            maps_all(self.elems(), t.elems(), |a: T, b: T| trunc_value(a, b)),
    {
        let mut t = self.to_contiguous();
        let ghost t0 = t;
        t.trunc_inplace();
        proof {
            lemma_row_major_mapped(t0, t, |a: T, b: T| trunc_value(a, b));
        }
        t
    }

    /// A row-major copy with every element `x` replaced by its sign (`1`, `-1`, or NaN).
    pub fn sign(&self) -> (t: TensorBase<T>)
        where T: num_traits::Float,
        requires
            sizes_fit(self.spec_shape()),
        ensures
            t.wf(),
            t.spec_shape() == self.spec_shape(),
            is_row_major(t.spec_shape(), t.spec_strides()),
            maps_all(self.elems(), t.elems(), |a: T, b: T| sign_value(a, b)),
    {
        let mut t = self.to_contiguous();
        let ghost t0 = t;
        t.sign_inplace();
        proof {
            lemma_row_major_mapped(t0, t, |a: T, b: T| sign_value(a, b));
        }
        t
    }

    /// A row-major copy with every element `x` replaced by its absolute value.
    pub fn abs(&self) -> (t: TensorBase<T>)
        where T: num_traits::Float,
        requires
            sizes_fit(self.spec_shape()),
        ensures
            t.wf(),
            t.spec_shape() == self.spec_shape(),
            is_row_major(t.spec_shape(), t.spec_strides()),
            maps_all(self.elems(), t.elems(), |a: T, b: T| abs_value(a, b)),
    {
        let mut t = self.to_contiguous();
        let ghost t0 = t;
        t.abs_inplace();
        proof {
            lemma_row_major_mapped(t0, t, |a: T, b: T| abs_value(a, b));
        }
        t
    }

    /// A row-major copy with every element `x` replaced by its reciprocal `1 / x`.
    pub fn reciprocal(&self) -> (t: TensorBase<T>)
        where T: num_traits::Float,
        requires
            sizes_fit(self.spec_shape()),
        ensures
            t.wf(),
            t.spec_shape() == self.spec_shape(),
            is_row_major(t.spec_shape(), t.spec_strides()),
            maps_all(self.elems(), t.elems(), |a: T, b: T| reciprocal_value(a, b)),
    {
        let mut t = self.to_contiguous();
        let ghost t0 = t;
        t.reciprocal_inplace();
        proof {
            lemma_row_major_mapped(t0, t, |a: T, b: T| reciprocal_value(a, b));
        }
        t
    }

    /// A row-major copy with every element `x` replaced by its negation.
    pub fn neg(&self) -> (t: TensorBase<T>)
        where T: num_traits::Float,
        requires
            sizes_fit(self.spec_shape()),
        ensures
            t.wf(),
            t.spec_shape() == self.spec_shape(),
            is_row_major(t.spec_shape(), t.spec_strides()),
            maps_all(self.elems(), t.elems(), |a: T, b: T| neg_value(a, b)),
    {
        let mut t = self.to_contiguous();
        let ghost t0 = t;
        t.neg_inplace();
        proof {
            lemma_row_major_mapped(t0, t, |a: T, b: T| neg_value(a, b));
        }
        t
    }

    /// A row-major copy with every element `x` replaced by its logistic function.
    pub fn sigmoid(&self) -> (t: TensorBase<T>)
        where T: num_traits::Float,
        requires
            sizes_fit(self.spec_shape()),
        ensures
            t.wf(),
            t.spec_shape() == self.spec_shape(),
            is_row_major(t.spec_shape(), t.spec_strides()),
            maps_all(self.elems(), t.elems(), |a: T, b: T| sigmoid_value(a, b)),
    {
        let mut t = self.to_contiguous();
        let ghost t0 = t;
        t.sigmoid_inplace();
        proof {
            lemma_row_major_mapped(t0, t, |a: T, b: T| sigmoid_value(a, b));
        }
        t
    }

    /// A row-major copy with every element `x` replaced by its `x * sigmoid(x)`.
    pub fn silu(&self) -> (t: TensorBase<T>)
        where T: num_traits::Float,
        requires
            sizes_fit(self.spec_shape()),
        ensures
            t.wf(),
            t.spec_shape() == self.spec_shape(),
            is_row_major(t.spec_shape(), t.spec_strides()),
            maps_all(self.elems(), t.elems(), |a: T, b: T| silu_value(a, b)),
    {
        let mut t = self.to_contiguous();
        let ghost t0 = t;
        t.silu_inplace();
        proof {
            lemma_row_major_mapped(t0, t, |a: T, b: T| silu_value(a, b));
        }
        t
    }

    /// A row-major copy with every element `x` replaced by its `1 / sqrt(x)`.
    pub fn rsqrt(&self) -> (t: TensorBase<T>)
        where T: num_traits::Float,
        requires
            sizes_fit(self.spec_shape()),
        ensures
            t.wf(),
            t.spec_shape() == self.spec_shape(),
            is_row_major(t.spec_shape(), t.spec_strides()),
            maps_all(self.elems(), t.elems(), |a: T, b: T| rsqrt_value(a, b)),
    {
        let mut t = self.to_contiguous();
        let ghost t0 = t;
        t.rsqrt_inplace();
        proof {
            lemma_row_major_mapped(t0, t, |a: T, b: T| rsqrt_value(a, b));
        }
        t
    }

    /// A row-major copy with every element `x` replaced by its square.
    pub fn square(&self) -> (t: TensorBase<T>)
        where T: num_traits::Float,
        requires
            sizes_fit(self.spec_shape()),
        ensures
            t.wf(),
            t.spec_shape() == self.spec_shape(),
            is_row_major(t.spec_shape(), t.spec_strides()),
            maps_all(self.elems(), t.elems(), |a: T, b: T| square_value(a, b)),
    {
        let mut t = self.to_contiguous();
        let ghost t0 = t;
        t.square_inplace();
        proof {
            lemma_row_major_mapped(t0, t, |a: T, b: T| square_value(a, b));
        }
        t
    }

    /// A row-major copy with every element `x` replaced by its cube.
    pub fn cube(&self) -> (t: TensorBase<T>)
        where T: num_traits::Float,
        requires
            sizes_fit(self.spec_shape()),
        ensures
            t.wf(),
            t.spec_shape() == self.spec_shape(),
            is_row_major(t.spec_shape(), t.spec_strides()),
            maps_all(self.elems(), t.elems(), |a: T, b: T| cube_value(a, b)),
    {
        let mut t = self.to_contiguous();
        let ghost t0 = t;
        t.cube_inplace();
        proof {
            lemma_row_major_mapped(t0, t, |a: T, b: T| cube_value(a, b));
        }
        t
    }

    /// A row-major copy with every element `x` replaced by its `max(x, 0)`.
    pub fn relu(&self) -> (t: TensorBase<T>)
        where T: num_traits::Float,
        requires
            sizes_fit(self.spec_shape()),
        ensures
            t.wf(),
            t.spec_shape() == self.spec_shape(),
            is_row_major(t.spec_shape(), t.spec_strides()),
            maps_all(self.elems(), t.elems(), |a: T, b: T| relu_value(a, b)),
    {
        let mut t = self.to_contiguous();
        let ghost t0 = t;
        t.relu_inplace();
        proof {
            lemma_row_major_mapped(t0, t, |a: T, b: T| relu_value(a, b));
        }
        t
    }
}

} // verus!

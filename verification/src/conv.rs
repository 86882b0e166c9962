//! Two- and three-dimensional convolution: configuration, output shapes,
//! argument checks, and a sliding-window kernel over zero-padded input.
use vstd::prelude::*;
use crate::access::{view_elems, AsView};
use crate::error::{msg, TensorError};
use crate::layout::shape_size;
use crate::meta::{is_row_major, sizes_fit};
use crate::tensor::{distinct, TensorBase, TensorView, TensorViewMut};
use crate::unary::{product_of, product_value, sum_of, sum_value, zero_of, zero_value};

verus! {

broadcast use crate::tensor::group_tensor_parts;

/// How the border added around the input is filled.
#[derive(Clone, Copy, Debug)]
pub enum PaddingType {
    /// The border holds zeros.
    Zeros,
}

/// Padding of the two spatial dimensions (height, width), added on both sides.
#[derive(Clone, Copy, Debug)]
pub struct Padding2D(pub usize, pub usize);

/// Step of the sliding window along height and width.
#[derive(Clone, Copy, Debug)]
pub struct ConvStrides2D(pub usize, pub usize);

/// Padding of the three spatial dimensions (height, width, depth).
#[derive(Clone, Copy, Debug)]
pub struct Padding3D(pub usize, pub usize, pub usize);

/// Step of the sliding window along height, width and depth.
#[derive(Clone, Copy, Debug)]
pub struct ConvStrides3D(pub usize, pub usize, pub usize);

impl From<usize> for Padding2D {
    fn from(value: usize) -> (r: Self) {
        Padding2D(value, value)
    }
}

impl vstd::std_specs::convert::FromSpecImpl<usize> for Padding2D {
    open spec fn obeys_from_spec() -> bool {
        true
    }

    open spec fn from_spec(value: usize) -> Self {
        Padding2D(value, value)
    }
}

impl From<(usize, usize)> for Padding2D {
    fn from(value: (usize, usize)) -> (r: Self) {
        Padding2D(value.0, value.1)
    }
}

impl vstd::std_specs::convert::FromSpecImpl<(usize, usize)> for Padding2D {
    open spec fn obeys_from_spec() -> bool {
        true
    }

    open spec fn from_spec(value: (usize, usize)) -> Self {
        Padding2D(value.0, value.1)
    }
}

impl From<usize> for ConvStrides2D {
    fn from(value: usize) -> (r: Self) {
        ConvStrides2D(value, value)
    }
}

impl vstd::std_specs::convert::FromSpecImpl<usize> for ConvStrides2D {
    open spec fn obeys_from_spec() -> bool {
        true
    }

    open spec fn from_spec(value: usize) -> Self {
        ConvStrides2D(value, value)
    }
}

impl From<(usize, usize)> for ConvStrides2D {
    fn from(value: (usize, usize)) -> (r: Self) {
        ConvStrides2D(value.0, value.1)
    }
}

impl vstd::std_specs::convert::FromSpecImpl<(usize, usize)> for ConvStrides2D {
    open spec fn obeys_from_spec() -> bool {
        true
    }

    open spec fn from_spec(value: (usize, usize)) -> Self {
        ConvStrides2D(value.0, value.1)
    }
}

impl From<usize> for Padding3D {
    fn from(value: usize) -> (r: Self) {
        Padding3D(value, value, value)
    }
}

impl vstd::std_specs::convert::FromSpecImpl<usize> for Padding3D {
    open spec fn obeys_from_spec() -> bool {
        true
    }

    open spec fn from_spec(value: usize) -> Self {
        Padding3D(value, value, value)
    }
}

impl From<(usize, usize, usize)> for Padding3D {
    fn from(value: (usize, usize, usize)) -> (r: Self) {
        Padding3D(value.0, value.1, value.2)
    }
}

impl vstd::std_specs::convert::FromSpecImpl<(usize, usize, usize)> for Padding3D {
    open spec fn obeys_from_spec() -> bool {
        true
    }

    open spec fn from_spec(value: (usize, usize, usize)) -> Self {
        Padding3D(value.0, value.1, value.2)
    }
}

impl From<usize> for ConvStrides3D {
    fn from(value: usize) -> (r: Self) {
        ConvStrides3D(value, value, value)
    }
}

impl vstd::std_specs::convert::FromSpecImpl<usize> for ConvStrides3D {
    open spec fn obeys_from_spec() -> bool {
        true
    }

    open spec fn from_spec(value: usize) -> Self {
        ConvStrides3D(value, value, value)
    }
}

impl From<(usize, usize, usize)> for ConvStrides3D {
    fn from(value: (usize, usize, usize)) -> (r: Self) {
        ConvStrides3D(value.0, value.1, value.2)
    }
}

impl vstd::std_specs::convert::FromSpecImpl<(usize, usize, usize)> for ConvStrides3D {
    open spec fn obeys_from_spec() -> bool {
        true
    }

    open spec fn from_spec(value: (usize, usize, usize)) -> Self {
        ConvStrides3D(value.0, value.1, value.2)
    }
}

/// Parameters of a two-dimensional convolution.
#[derive(Clone, Copy, Debug)]
pub struct ConvConfig2D {
    pub stride: ConvStrides2D,
    pub padding: Padding2D,
    pub padding_type: PaddingType,
}

impl ConvConfig2D {
    /// A configuration from its three parts.
    pub fn new<S: Into<ConvStrides2D>, P: Into<Padding2D>>(
        stride: S,
        padding: P,
        padding_type: PaddingType,
    ) -> (c: Self)
        ensures
            call_ensures(S::into, (stride,), c.stride),
            call_ensures(P::into, (padding,), c.padding),
            c.padding_type == padding_type,
    {
        ConvConfig2D { stride: stride.into(), padding: padding.into(), padding_type }
    }

    /// The same configuration with another stride.
    pub fn stride<S: Into<ConvStrides2D>>(self, stride: S) -> (c: Self)
        ensures
            call_ensures(S::into, (stride,), c.stride),
            c.padding == self.padding,
            c.padding_type == self.padding_type,
    {
        let mut c = self;
        c.stride = stride.into();
        c
    }

    /// The same configuration with another padding.
    pub fn padding<P: Into<Padding2D>>(self, padding: P) -> (c: Self)
        ensures
            call_ensures(P::into, (padding,), c.padding),
            c.stride == self.stride,
            c.padding_type == self.padding_type,
    {
        let mut c = self;
        c.padding = padding.into();
        c
    }

    /// The same configuration with another padding type.
    pub fn padding_type(self, padding_type: PaddingType) -> (c: Self)
        ensures
            c.padding_type == padding_type,
            c.stride == self.stride,
            c.padding == self.padding,
    {
        let mut c = self;
        c.padding_type = padding_type;
        c
    }
}

impl Default for ConvConfig2D {
    /// Stride 1 and no padding.
    fn default() -> (c: Self)
        ensures
            c.stride == ConvStrides2D(1, 1),
            c.padding == Padding2D(0, 0),
            c.padding_type == PaddingType::Zeros,
    {
        ConvConfig2D {
            stride: ConvStrides2D(1, 1),
            padding: Padding2D(0, 0),
            padding_type: PaddingType::Zeros,
        }
    }
}

/// Parameters of a three-dimensional convolution.
#[derive(Clone, Copy, Debug)]
pub struct ConvConfig3D {
    pub stride: ConvStrides3D,
    pub padding: Padding3D,
    pub padding_type: PaddingType,
}

impl ConvConfig3D {
    /// A configuration from its three parts.
    pub fn new<S: Into<ConvStrides3D>, P: Into<Padding3D>>(
        stride: S,
        padding: P,
        padding_type: PaddingType,
    ) -> (c: Self)
        ensures
            call_ensures(S::into, (stride,), c.stride),
            call_ensures(P::into, (padding,), c.padding),
            c.padding_type == padding_type,
    {
        ConvConfig3D { stride: stride.into(), padding: padding.into(), padding_type }
    }

    /// The same configuration with another stride.
    pub fn stride<S: Into<ConvStrides3D>>(self, stride: S) -> (c: Self)
        ensures
            call_ensures(S::into, (stride,), c.stride),
            c.padding == self.padding,
            c.padding_type == self.padding_type,
    {
        let mut c = self;
        c.stride = stride.into();
        c
    }

    /// The same configuration with another padding.
    pub fn padding<P: Into<Padding3D>>(self, padding: P) -> (c: Self)
        ensures
            call_ensures(P::into, (padding,), c.padding),
            c.stride == self.stride,
            c.padding_type == self.padding_type,
    {
        let mut c = self;
        c.padding = padding.into();
        c
    }

    /// The same configuration with another padding type.
    pub fn padding_type(self, padding_type: PaddingType) -> (c: Self)
        ensures
            c.padding_type == padding_type,
            c.stride == self.stride,
            c.padding == self.padding,
    {
        let mut c = self;
        c.padding_type = padding_type;
        c
    }
}

impl Default for ConvConfig3D {
    /// Stride 1 and no padding.
    fn default() -> (c: Self)
        ensures
            c.stride == ConvStrides3D(1, 1, 1),
            c.padding == Padding3D(0, 0, 0),
            c.padding_type == PaddingType::Zeros,
    {
        ConvConfig3D {
            stride: ConvStrides3D(1, 1, 1),
            padding: Padding3D(0, 0, 0),
            padding_type: PaddingType::Zeros,
        }
    }
}

/// Number of window positions along a dimension of length `n` padded by `p`
/// on both sides, for a window of length `k` moved by `s`.
pub open spec fn conv_out_len(n: int, p: int, k: int, s: int) -> int {
    (n + 2 * p - k) / s + 1
}

/// The window fits in the padded dimension and the arithmetic stays in range.
pub open spec fn conv_dim_ok(n: usize, p: usize, k: usize, s: usize) -> bool {
    &&& s > 0
    &&& k >= 1
    &&& n + 2 * p <= usize::MAX
    &&& n + 2 * p >= k
}

/// Output shape `[B, K, OH, OW]` of a convolution of `[B, C, H, W]` by
/// `[K, C, KH, KW]`.
pub open spec fn conv_shape_2d(input: Seq<usize>, kernel: Seq<usize>, s: ConvStrides2D, p: Padding2D) -> Seq<usize> {
    seq![
        input[0],
        kernel[0],
        conv_out_len(input[2] as int, p.0 as int, kernel[2] as int, s.0 as int) as usize,
        conv_out_len(input[3] as int, p.1 as int, kernel[3] as int, s.1 as int) as usize,
    ]
}

/// Output shape `[B, K, OH, OW, OD]` of a convolution of `[B, C, H, W, D]` by
/// `[K, C, KH, KW, KD]`.
pub open spec fn conv_shape_3d(input: Seq<usize>, kernel: Seq<usize>, s: ConvStrides3D, p: Padding3D) -> Seq<usize> {
    seq![
        input[0],
        kernel[0],
        conv_out_len(input[2] as int, p.0 as int, kernel[2] as int, s.0 as int) as usize,
        conv_out_len(input[3] as int, p.1 as int, kernel[3] as int, s.1 as int) as usize,
        conv_out_len(input[4] as int, p.2 as int, kernel[4] as int, s.2 as int) as usize,
    ]
}

/// `(n + 2p - (k - 1) - 1) / s + 1`.
fn out_len(n: usize, p: usize, k: usize, s: usize) -> (r: usize)
    requires
        conv_dim_ok(n, p, k, s),
    ensures
        r == conv_out_len(n as int, p as int, k as int, s as int),
        1 <= r <= n + 2 * p - k + 1,
{
    let q = (n + 2 * p - (k - 1) - 1) / s;
    assert(q <= n + 2 * p - k) by (nonlinear_arith)
        requires
            q == (n + 2 * p - (k - 1) - 1) / (s as int),
            s > 0,
            n + 2 * p >= k,
    ;
    q + 1
}

/// Output shape of a two-dimensional convolution.
pub fn compute_output_convolution_shape_2d(
    input_shape: &Vec<usize>,
    kernel_shape: &Vec<usize>,
    stride: &ConvStrides2D,
    padding: &Padding2D,
) -> (r: Vec<usize>)
    requires
        input_shape@.len() == 4,
        kernel_shape@.len() == 4,
        conv_dim_ok(input_shape@[2], padding.0, kernel_shape@[2], stride.0),
        conv_dim_ok(input_shape@[3], padding.1, kernel_shape@[3], stride.1),
    ensures
        r@ == conv_shape_2d(input_shape@, kernel_shape@, *stride, *padding),
{
    let oh = out_len(input_shape[2], padding.0, kernel_shape[2], stride.0);
    let ow = out_len(input_shape[3], padding.1, kernel_shape[3], stride.1);
    let r = vec![input_shape[0], kernel_shape[0], oh, ow];
    assert(r@ =~= conv_shape_2d(input_shape@, kernel_shape@, *stride, *padding));
    r
}

/// Output shape of a three-dimensional convolution.
pub fn compute_output_convolution_shape_3d(
    input_shape: &Vec<usize>,
    kernel_shape: &Vec<usize>,
    stride: &ConvStrides3D,
    padding: &Padding3D,
) -> (r: Vec<usize>)
    requires
        input_shape@.len() == 5,
        kernel_shape@.len() == 5,
        conv_dim_ok(input_shape@[2], padding.0, kernel_shape@[2], stride.0),
        conv_dim_ok(input_shape@[3], padding.1, kernel_shape@[3], stride.1),
        conv_dim_ok(input_shape@[4], padding.2, kernel_shape@[4], stride.2),
    ensures
        r@ == conv_shape_3d(input_shape@, kernel_shape@, *stride, *padding),
{
    let oh = out_len(input_shape[2], padding.0, kernel_shape[2], stride.0);
    let ow = out_len(input_shape[3], padding.1, kernel_shape[3], stride.1);
    let od = out_len(input_shape[4], padding.2, kernel_shape[4], stride.2);
    let r = vec![input_shape[0], kernel_shape[0], oh, ow, od];
    assert(r@ =~= conv_shape_3d(input_shape@, kernel_shape@, *stride, *padding));
    r
}


// ---------------------------------------------------------------------------
// Sliding-window kernels
// ---------------------------------------------------------------------------

/// Row-major index of `(a, b, c, d)` in an array with dimensions `(_, n1, n2, n3)`.
pub open spec fn idx4(a: int, b: int, c: int, d: int, n1: int, n2: int, n3: int) -> int {
    ((a * n1 + b) * n2 + c) * n3 + d
}

/// Row-major index of `(a, b, c, d, e)` in an array with dimensions `(_, n1, n2, n3, n4)`.
pub open spec fn idx5(a: int, b: int, c: int, d: int, e: int, n1: int, n2: int, n3: int, n4: int) -> int {
    idx4(a, b, c, d, n1, n2, n3) * n4 + e
}


pub(crate) proof fn lemma_le_mul(x: int, y: int)
    by (nonlinear_arith)
    requires
        x >= 0,
        y >= 1,
    ensures
        x <= x * y,
{
}

/// Each partial product of `n0 * n1 * n2 * n3` is at most the whole when the
/// later factors are positive.
pub(crate) proof fn lemma_prefix_products(n0: int, n1: int, n2: int, n3: int)
    requires
        n0 >= 0,
        n1 >= 0,
        n2 >= 1,
        n3 >= 1,
    ensures
        0 <= n0 * n1 <= n0 * n1 * n2 <= n0 * n1 * n2 * n3,
{
    assert(n0 * n1 >= 0) by (nonlinear_arith)
        requires
            n0 >= 0,
            n1 >= 0,
    ;
    lemma_le_mul(n0 * n1, n2);
    lemma_le_mul(n0 * n1 * n2, n3);
}



/// Number of elements of a shape of rank 4.
proof fn lemma_size4(s: Seq<usize>)
    requires
        s.len() == 4,
    ensures
        shape_size(s) == s[0] * s[1] * s[2] * s[3],
{
    reveal_with_fuel(crate::layout::size_from, 5);
    assert((s[0] as nat) * ((s[1] as nat) * ((s[2] as nat) * (s[3] as nat))) == s[0] * s[1] * s[2] * s[3])
        by (nonlinear_arith);
}

/// Number of elements of a shape of rank 5.
proof fn lemma_size5(s: Seq<usize>)
    requires
        s.len() == 5,
    ensures
        shape_size(s) == s[0] * s[1] * s[2] * s[3] * s[4],
{
    reveal_with_fuel(crate::layout::size_from, 6);
    assert((s[0] as nat) * ((s[1] as nat) * ((s[2] as nat) * ((s[3] as nat) * (s[4] as nat))))
        == s[0] * s[1] * s[2] * s[3] * s[4]) by (nonlinear_arith);
}

/// The last window along a dimension ends inside the padded dimension.
proof fn lemma_window_end(n: int, p: int, k: int, s: int, o: int, i: int)
    by (nonlinear_arith)
    requires
        s > 0,
        k >= 1,
        n + 2 * p >= k,
        0 <= o < (n + 2 * p - k) / s + 1,
        0 <= i < k,
    ensures
        0 <= o * s + i < n + 2 * p,
{
    assert(o <= (n + 2 * p - k) / s);
    assert(o * s <= ((n + 2 * p - k) / s) * s);
}

/// `i * n + c` stays below `p * n` when `i < p` and `c < n`.
pub(crate) proof fn lemma_step(i: int, p: int, n: int, c: int)
    by (nonlinear_arith)
    requires
        0 <= i < p,
        0 <= c < n,
    ensures
        0 <= i * n <= i * n + c < p * n,
{
}

/// Row-major index of `(a, b, c, d)` in an `n0 x n1 x n2 x n3` array.
pub(crate) fn index4(a: usize, b: usize, c: usize, d: usize, n0: usize, n1: usize, n2: usize, n3: usize) -> (r: usize)
    requires
        a < n0,
        b < n1,
        c < n2,
        d < n3,
        n0 * n1 * n2 * n3 <= usize::MAX,
    ensures
        r == idx4(a as int, b as int, c as int, d as int, n1 as int, n2 as int, n3 as int),
        r < n0 * n1 * n2 * n3,
{
    proof {
        lemma_prefix_products(n0 as int, n1 as int, n2 as int, n3 as int);
        lemma_step(a as int, n0 as int, n1 as int, b as int);
    }
    let i1 = a * n1 + b;
    proof {
        lemma_step(i1 as int, n0 * n1, n2 as int, c as int);
    }
    let i2 = i1 * n2 + c;
    proof {
        lemma_step(i2 as int, n0 * n1 * n2, n3 as int, d as int);
    }
    i2 * n3 + d
}

/// Row-major index of `(a, b, c, d, e)` in an `n0 x n1 x n2 x n3 x n4` array.
fn index5(
    a: usize,
    b: usize,
    c: usize,
    d: usize,
    e: usize,
    n0: usize,
    n1: usize,
    n2: usize,
    n3: usize,
    n4: usize,
) -> (r: usize)
    requires
        a < n0,
        b < n1,
        c < n2,
        d < n3,
        e < n4,
        n0 * n1 * n2 * n3 * n4 <= usize::MAX,
    ensures
        r == idx5(a as int, b as int, c as int, d as int, e as int, n1 as int, n2 as int, n3 as int, n4 as int),
        r < n0 * n1 * n2 * n3 * n4,
{
    proof {
        lemma_le_mul(n0 * n1 * n2 * n3, n4 as int);
    }
    let i3 = index4(a, b, c, d, n0, n1, n2, n3);
    proof {
        lemma_step(i3 as int, n0 * n1 * n2 * n3, n4 as int, e as int);
    }
    i3 * n4 + e
}

/// A vector of `n` copies of `v`.
pub(crate) fn filled_vec<T: Copy>(v: T, n: usize) -> (out: Vec<T>)
    ensures
        out@.len() == n,
        forall|i: int| 0 <= i < n ==> out@[i] == v,
{
    let mut out: Vec<T> = Vec::new();
    let mut i: usize = 0;
    while i < n
        invariant
            i <= n,
            out@.len() == i,
            forall|j: int| 0 <= j < i ==> out@[j] == v,
        decreases n - i,
    {
        out.push(v);
        i = i + 1;
    }
    out
}

/// Row-major index of `(a, b, c)` in an array with dimensions `(_, n1, n2)`.
pub open spec fn idx3(a: int, b: int, c: int, n1: int, n2: int) -> int {
    (a * n1 + b) * n2 + c
}

/// `(a1, b1, c1)` comes before `(a2, b2, c2)` in lexicographic order.
pub open spec fn lex_before3(a1: int, b1: int, c1: int, a2: int, b2: int, c2: int) -> bool {
    a1 < a2 || (a1 == a2 && (b1 < b2 || (b1 == b2 && c1 < c2)))
}

/// `(a1, b1, c1, d1)` comes before `(a2, b2, c2, d2)` in lexicographic order.
pub open spec fn lex_before4(a1: int, b1: int, c1: int, d1: int, a2: int, b2: int, c2: int, d2: int) -> bool {
    a1 < a2 || (a1 == a2 && lex_before3(b1, c1, d1, b2, c2, d2))
}

/// `(a1, .., e1)` comes before `(a2, .., e2)` in lexicographic order.
pub open spec fn lex_before5(
    a1: int, b1: int, c1: int, d1: int, e1: int,
    a2: int, b2: int, c2: int, d2: int, e2: int,
) -> bool {
    a1 < a2 || (a1 == a2 && lex_before4(b1, c1, d1, e1, b2, c2, d2, e2))
}

/// With a last digit below the radix `m`, an earlier pair `(a, r)` has a
/// smaller value `a * m + r`.
proof fn lemma_radix_before(a1: int, r1: int, a2: int, r2: int, m: int)
    requires
        0 <= r1 < m,
        0 <= r2,
        a1 < a2 || (a1 == a2 && r1 < r2),
    ensures
        a1 * m + r1 < a2 * m + r2,
{
    if a1 < a2 {
        assert(a1 * m + m <= a2 * m) by (nonlinear_arith)
            requires
                a1 + 1 <= a2,
                0 <= m,
        ;
    }
}

/// `a * m + r` is not negative for non-negative `a`, `r`, `m`.
pub(crate) proof fn lemma_radix_nonneg(a: int, r: int, m: int)
    by (nonlinear_arith)
    requires
        0 <= a,
        0 <= r,
        0 <= m,
    ensures
        0 <= a * m + r,
{
}

/// Row-major indices of three-digit positions follow their lexicographic order.
pub(crate) proof fn lemma_idx3_before(a1: int, b1: int, c1: int, a2: int, b2: int, c2: int, n1: int, n2: int)
    requires
        0 <= a1,
        0 <= b1 < n1,
        0 <= c1 < n2,
        0 <= b2 < n1,
        0 <= c2 < n2,
        lex_before3(a1, b1, c1, a2, b2, c2),
    ensures
        0 <= idx3(a1, b1, c1, n1, n2) < idx3(a2, b2, c2, n1, n2),
{
    lemma_radix_nonneg(a1, b1, n1);
    lemma_radix_nonneg(a1 * n1 + b1, c1, n2);
    if a1 < a2 || b1 < b2 {
        lemma_radix_before(a1, b1, a2, b2, n1);
    }
    lemma_radix_before(a1 * n1 + b1, c1, a2 * n1 + b2, c2, n2);
}

/// Row-major indices of four-digit positions follow their lexicographic order.
proof fn lemma_idx4_before(
    a1: int, b1: int, c1: int, d1: int,
    a2: int, b2: int, c2: int, d2: int,
    n1: int, n2: int, n3: int,
)
    requires
        0 <= a1,
        0 <= b1 < n1,
        0 <= c1 < n2,
        0 <= d1 < n3,
        0 <= b2 < n1,
        0 <= c2 < n2,
        0 <= d2 < n3,
        lex_before4(a1, b1, c1, d1, a2, b2, c2, d2),
    ensures
        0 <= idx4(a1, b1, c1, d1, n1, n2, n3) < idx4(a2, b2, c2, d2, n1, n2, n3),
{
    lemma_radix_nonneg(a1, b1, n1);
    lemma_radix_nonneg(a1 * n1 + b1, c1, n2);
    lemma_radix_nonneg(idx3(a1, b1, c1, n1, n2), d1, n3);
    if lex_before3(a1, b1, c1, a2, b2, c2) {
        lemma_idx3_before(a1, b1, c1, a2, b2, c2, n1, n2);
    }
    lemma_radix_before(idx3(a1, b1, c1, n1, n2), d1, idx3(a2, b2, c2, n1, n2), d2, n3);
}

/// Row-major indices of five-digit positions follow their lexicographic order.
proof fn lemma_idx5_before(
    a1: int, b1: int, c1: int, d1: int, e1: int,
    a2: int, b2: int, c2: int, d2: int, e2: int,
    n1: int, n2: int, n3: int, n4: int,
)
    requires
        0 <= a1,
        0 <= b1 < n1,
        0 <= c1 < n2,
        0 <= d1 < n3,
        0 <= e1 < n4,
        0 <= b2 < n1,
        0 <= c2 < n2,
        0 <= d2 < n3,
        0 <= e2 < n4,
        lex_before5(a1, b1, c1, d1, e1, a2, b2, c2, d2, e2),
    ensures
        0 <= idx5(a1, b1, c1, d1, e1, n1, n2, n3, n4) < idx5(a2, b2, c2, d2, e2, n1, n2, n3, n4),
{
    lemma_radix_nonneg(a1, b1, n1);
    lemma_radix_nonneg(a1 * n1 + b1, c1, n2);
    lemma_radix_nonneg(idx3(a1, b1, c1, n1, n2), d1, n3);
    lemma_radix_nonneg(idx4(a1, b1, c1, d1, n1, n2, n3), e1, n4);
    if lex_before4(a1, b1, c1, d1, a2, b2, c2, d2) {
        lemma_idx4_before(a1, b1, c1, d1, a2, b2, c2, d2, n1, n2, n3);
    }
    lemma_radix_before(idx4(a1, b1, c1, d1, n1, n2, n3), e1, idx4(a2, b2, c2, d2, n1, n2, n3), e2, n4);
}

/// Moving the last digit past its radix is moving the previous digit by one.
proof fn lemma_idx3_carry(a: int, b: int, n1: int, n2: int)
    ensures
        idx3(a, b, n2, n1, n2) == idx3(a, b + 1, 0, n1, n2),
        idx3(a, n1, 0, n1, n2) == idx3(a + 1, 0, 0, n1, n2),
{
    assert((a * n1 + b) * n2 + n2 == (a * n1 + b + 1) * n2) by (nonlinear_arith);
    assert((a * n1 + n1) * n2 == ((a + 1) * n1) * n2) by (nonlinear_arith);
}

/// Sizes of a convolution of `[b, c, h, w]` by `[k, c, kh, kw]` with strides
/// `(s0, s1)` and padding `(p0, p1)`, giving `[b, k, oh, ow]`.
pub struct Geom2 {
    pub b: usize,
    pub c: usize,
    pub h: usize,
    pub w: usize,
    pub k: usize,
    pub kh: usize,
    pub kw: usize,
    pub s0: usize,
    pub s1: usize,
    pub p0: usize,
    pub p1: usize,
    pub oh: usize,
    pub ow: usize,
}

impl Geom2 {
    /// The windows fit and every array size fits in memory.
    pub open spec fn ok(&self) -> bool {
        &&& conv_dim_ok(self.h, self.p0, self.kh, self.s0)
        &&& conv_dim_ok(self.w, self.p1, self.kw, self.s1)
        &&& self.oh == conv_out_len(self.h as int, self.p0 as int, self.kh as int, self.s0 as int)
        &&& self.ow == conv_out_len(self.w as int, self.p1 as int, self.kw as int, self.s1 as int)
        &&& self.b * self.c * self.h * self.w <= usize::MAX
        &&& self.k * self.c * self.kh * self.kw <= usize::MAX
        &&& self.b * self.k * self.oh * self.ow <= usize::MAX
    }
}

/// The zero-padded input of a two-dimensional convolution: the entry of the
/// row-major `[b, c, h, w]` array `x` for image `bi`, channel `ci`, padded row
/// `hp` and padded column `wp`, and `zero` in the padding.
pub open spec fn padded_2d<T>(x: Seq<T>, g: Geom2, bi: int, ci: int, hp: int, wp: int, zero: T) -> T {
    if g.p0 <= hp < g.p0 + g.h && g.p1 <= wp < g.p1 + g.w {
        x[idx4(bi, ci, hp - g.p0, wp - g.p1, g.c as int, g.h as int, g.w as int)]
    } else {
        zero
    }
}

/// Step `(ci, i, j)` of the window sum for output `(bi, o, oi, oj)`: the
/// padded input times the kernel entry is `prods[t]`, and `sums[t + 1]` is
/// `sums[t]` plus it, each by the float operations, where `t` is the place of
/// the step in the order channel, kernel row, kernel column.
pub open spec fn window_step_2d<T: num_traits::Float>(
    x: Seq<T>, wt: Seq<T>, g: Geom2, bi: int, o: int, oi: int, oj: int, zero: T,
    prods: Seq<T>, sums: Seq<T>, ci: int, i: int, j: int,
) -> bool {
    let t = idx3(ci, i, j, g.kh as int, g.kw as int);
    &&& product_value(
        padded_2d(x, g, bi, ci, oi * g.s0 + i, oj * g.s1 + j, zero),
        wt[idx4(o, ci, i, j, g.c as int, g.kh as int, g.kw as int)],
        prods[t],
    )
    &&& sum_value(sums[t], prods[t], sums[t + 1])
}

/// `prods` and `sums` are the products and running sums of the window sum for
/// output `(bi, o, oi, oj)`, starting from `zero`.
pub open spec fn window_chain_2d<T: num_traits::Float>(
    x: Seq<T>, wt: Seq<T>, g: Geom2, bi: int, o: int, oi: int, oj: int, zero: T,
    prods: Seq<T>, sums: Seq<T>,
) -> bool {
    &&& sums.len() == g.c * g.kh * g.kw + 1
    &&& prods.len() == g.c * g.kh * g.kw
    &&& sums[0] == zero
    &&& forall|ci: int, i: int, j: int|
        0 <= ci < g.c && 0 <= i < g.kh && 0 <= j < g.kw
            ==> #[trigger] window_step_2d(x, wt, g, bi, o, oi, oj, zero, prods, sums, ci, i, j)
}

/// `r` is the window sum for output `(bi, o, oi, oj)`: from `zero`, over the
/// channels, kernel rows and kernel columns in that order, the padded input
/// times the kernel entry is added, each step by the float operations.
pub open spec fn window_value_2d<T: num_traits::Float>(
    x: Seq<T>, wt: Seq<T>, g: Geom2, bi: int, o: int, oi: int, oj: int, zero: T, r: T,
) -> bool {
    exists|prods: Seq<T>, sums: Seq<T>|
        #[trigger] window_chain_2d(x, wt, g, bi, o, oi, oj, zero, prods, sums) && sums.last() == r
}

/// `out` is the row-major `[b, k, oh, ow]` convolution of `x` by `wt`: each
/// entry is the window sum of its position, with `zero` as padding and start.
pub open spec fn conv2d_values<T: num_traits::Float>(x: Seq<T>, wt: Seq<T>, g: Geom2, zero: T, out: Seq<T>) -> bool {
    &&& out.len() == g.b * g.k * g.oh * g.ow
    &&& forall|bi: int, o: int, oi: int, oj: int|
        0 <= bi < g.b && 0 <= o < g.k && 0 <= oi < g.oh && 0 <= oj < g.ow ==> #[trigger] window_value_2d(
            x, wt, g, bi, o, oi, oj, zero,
            out[idx4(bi, o, oi, oj, g.k as int, g.oh as int, g.ow as int)],
        )
}

/// `out` is the convolution of `x` by `wt` for the sizes `g`, the float zero
/// serving as padding and as the start of each sum.
pub open spec fn conv2d_result<T: num_traits::Float>(x: Seq<T>, wt: Seq<T>, g: Geom2, out: Seq<T>) -> bool {
    exists|z: T| zero_value(z) && #[trigger] conv2d_values(x, wt, g, z, out)
}

/// Sum over channels and window offsets of the zero-padded input times the
/// kernel, for output position `(bi, o, oi, oj)`.
fn window_dot_2d<T: Copy + num_traits::Float>(
    x: &Vec<T>,
    wt: &Vec<T>,
    g: &Geom2,
    bi: usize,
    o: usize,
    oi: usize,
    oj: usize,
    zero: T,
) -> (r: T)
    requires
        g.ok(),
        x@.len() == g.b * g.c * g.h * g.w,
        wt@.len() == g.k * g.c * g.kh * g.kw,
        bi < g.b,
        o < g.k,
        oi < g.oh,
        oj < g.ow,
    ensures
        window_value_2d(x@, wt@, *g, bi as int, o as int, oi as int, oj as int, zero, r),
{
    let ghost gg = *g;
    let mut acc = zero;
    let ghost mut prods: Seq<T> = seq![];
    let ghost mut sums: Seq<T> = seq![zero];
    proof {
        lemma_radix_nonneg(0, 0, g.kh as int);
        assert(idx3(0, 0, 0, g.kh as int, g.kw as int) == 0) by (nonlinear_arith);
    }
    let mut ci: usize = 0;
    while ci < g.c
        invariant
            g.ok(),
            gg == *g,
            x@.len() == g.b * g.c * g.h * g.w,
            wt@.len() == g.k * g.c * g.kh * g.kw,
            bi < g.b,
            o < g.k,
            oi < g.oh,
            oj < g.ow,
            ci <= g.c,
            sums.len() == idx3(ci as int, 0, 0, g.kh as int, g.kw as int) + 1,
            prods.len() + 1 == sums.len(),
            sums[0] == zero,
            sums.last() == acc,
            forall|c2: int, i2: int, j2: int|
                0 <= c2 < g.c && 0 <= i2 < g.kh && 0 <= j2 < g.kw && lex_before3(c2, i2, j2, ci as int, 0, 0)
                    ==> #[trigger] window_step_2d(x@, wt@, gg, bi as int, o as int, oi as int, oj as int, zero, prods, sums, c2, i2, j2),
        decreases g.c - ci,
    {
        let mut i: usize = 0;
        while i < g.kh
            invariant
                g.ok(),
                gg == *g,
                x@.len() == g.b * g.c * g.h * g.w,
                wt@.len() == g.k * g.c * g.kh * g.kw,
                bi < g.b,
                o < g.k,
                oi < g.oh,
                oj < g.ow,
                ci < g.c,
                i <= g.kh,
                sums.len() == idx3(ci as int, i as int, 0, g.kh as int, g.kw as int) + 1,
                prods.len() + 1 == sums.len(),
                sums[0] == zero,
                sums.last() == acc,
                forall|c2: int, i2: int, j2: int|
                    0 <= c2 < g.c && 0 <= i2 < g.kh && 0 <= j2 < g.kw && lex_before3(c2, i2, j2, ci as int, i as int, 0)
                        ==> #[trigger] window_step_2d(x@, wt@, gg, bi as int, o as int, oi as int, oj as int, zero, prods, sums, c2, i2, j2),
            decreases g.kh - i,
        {
            let mut j: usize = 0;
            while j < g.kw
                invariant
                    g.ok(),
                    gg == *g,
                    x@.len() == g.b * g.c * g.h * g.w,
                    wt@.len() == g.k * g.c * g.kh * g.kw,
                    bi < g.b,
                    o < g.k,
                    oi < g.oh,
                    oj < g.ow,
                    ci < g.c,
                    i < g.kh,
                    j <= g.kw,
                    sums.len() == idx3(ci as int, i as int, j as int, g.kh as int, g.kw as int) + 1,
                    prods.len() + 1 == sums.len(),
                    sums[0] == zero,
                    sums.last() == acc,
                    forall|c2: int, i2: int, j2: int|
                        0 <= c2 < g.c && 0 <= i2 < g.kh && 0 <= j2 < g.kw
                            && lex_before3(c2, i2, j2, ci as int, i as int, j as int)
                            ==> #[trigger] window_step_2d(x@, wt@, gg, bi as int, o as int, oi as int, oj as int, zero, prods, sums, c2, i2, j2),
                decreases g.kw - j,
            {
                proof {
                    lemma_window_end(g.h as int, g.p0 as int, g.kh as int, g.s0 as int, oi as int, i as int);
                    lemma_window_end(g.w as int, g.p1 as int, g.kw as int, g.s1 as int, oj as int, j as int);
                }
                let hp = oi * g.s0 + i;
                let wp = oj * g.s1 + j;
                let v = if hp >= g.p0 && hp - g.p0 < g.h && wp >= g.p1 && wp - g.p1 < g.w {
                    x[index4(bi, ci, hp - g.p0, wp - g.p1, g.b, g.c, g.h, g.w)]
                } else {
                    zero
                };
                let kv = wt[index4(o, ci, i, j, g.k, g.c, g.kh, g.kw)];
                let p = product_of(v, kv);
                let next = sum_of(acc, p);
                proof {
                    let t = idx3(ci as int, i as int, j as int, g.kh as int, g.kw as int);
                    let prods0 = prods;
                    let sums0 = sums;
                    if hp >= g.p0 && hp - g.p0 < g.h && wp >= g.p1 && wp - g.p1 < g.w {
                        let q = idx4(bi as int, ci as int, hp - g.p0, wp - g.p1, g.c as int, g.h as int, g.w as int);
                        assert(v == x@[q]);
                        assert(gg.p0 <= hp < gg.p0 + gg.h && gg.p1 <= wp < gg.p1 + gg.w);
                        assert(padded_2d(x@, gg, bi as int, ci as int, hp as int, wp as int, zero) == x@[q]);
                    } else {
                        assert(v == zero);
                    }
                    assert(v == padded_2d(x@, gg, bi as int, ci as int, hp as int, wp as int, zero));
                    prods = prods.push(p);
                    sums = sums.push(next);
                    assert forall|c2: int, i2: int, j2: int|
                        0 <= c2 < g.c && 0 <= i2 < g.kh && 0 <= j2 < g.kw
                            && lex_before3(c2, i2, j2, ci as int, i as int, j + 1)
                            implies #[trigger] window_step_2d(x@, wt@, gg, bi as int, o as int, oi as int, oj as int, zero, prods, sums, c2, i2, j2) by {
                        let t2 = idx3(c2, i2, j2, g.kh as int, g.kw as int);
                        if lex_before3(c2, i2, j2, ci as int, i as int, j as int) {
                            lemma_idx3_before(c2, i2, j2, ci as int, i as int, j as int, g.kh as int, g.kw as int);
                            assert(window_step_2d(x@, wt@, gg, bi as int, o as int, oi as int, oj as int, zero, prods0, sums0, c2, i2, j2));
                            assert(prods[t2] == prods0[t2]);
                            assert(sums[t2] == sums0[t2]);
                            assert(sums[t2 + 1] == sums0[t2 + 1]);
                        } else {
                            assert(c2 == ci && i2 == i && j2 == j);
                            assert(t2 == t);
                            assert(prods[t] == p);
                            assert(sums[t] == acc);
                            assert(sums[t + 1] == next);
                        }
                    }
                }
                acc = next;
                j = j + 1;
            }
            proof {
                lemma_idx3_carry(ci as int, i as int, g.kh as int, g.kw as int);
            }
            i = i + 1;
        }
        proof {
            lemma_idx3_carry(ci as int, i as int, g.kh as int, g.kw as int);
        }
        ci = ci + 1;
    }
    proof {
        assert(window_chain_2d(x@, wt@, gg, bi as int, o as int, oi as int, oj as int, zero, prods, sums));
    }
    acc
}

/// Convolution of a row-major `[b, c, h, w]` array by a row-major
/// `[k, c, kh, kw]` array: a row-major `[b, k, oh, ow]` array.
fn conv2d_rows<T: Copy + num_traits::Float>(x: &Vec<T>, wt: &Vec<T>, g: &Geom2) -> (out: Vec<T>)
    requires
        g.ok(),
        x@.len() == g.b * g.c * g.h * g.w,
        wt@.len() == g.k * g.c * g.kh * g.kw,
    ensures
        out@.len() == g.b * g.k * g.oh * g.ow,
        conv2d_result(x@, wt@, *g, out@),
{
    let ghost gg = *g;
    let zero = zero_of::<T>();
    proof {
        lemma_prefix_products(g.b as int, g.k as int, g.oh as int, g.ow as int);
    }
    let total = g.b * g.k * g.oh * g.ow;
    let mut out = filled_vec(zero, total);
    let mut bi: usize = 0;
    while bi < g.b
        invariant
            g.ok(),
            gg == *g,
            x@.len() == g.b * g.c * g.h * g.w,
            wt@.len() == g.k * g.c * g.kh * g.kw,
            total == g.b * g.k * g.oh * g.ow,
            out@.len() == total,
            bi <= g.b,
            forall|b2: int, o2: int, h2: int, w2: int|
                0 <= b2 < g.b && 0 <= o2 < g.k && 0 <= h2 < g.oh && 0 <= w2 < g.ow
                    && lex_before4(b2, o2, h2, w2, bi as int, 0, 0, 0) ==> #[trigger] window_value_2d(
                    x@, wt@, gg, b2, o2, h2, w2, zero, out@[idx4(b2, o2, h2, w2, g.k as int, g.oh as int, g.ow as int)]),
        decreases g.b - bi,
    {
        let mut o: usize = 0;
        while o < g.k
            invariant
                g.ok(),
                gg == *g,
                x@.len() == g.b * g.c * g.h * g.w,
                wt@.len() == g.k * g.c * g.kh * g.kw,
                total == g.b * g.k * g.oh * g.ow,
                out@.len() == total,
                bi < g.b,
                o <= g.k,
                forall|b2: int, o2: int, h2: int, w2: int|
                    0 <= b2 < g.b && 0 <= o2 < g.k && 0 <= h2 < g.oh && 0 <= w2 < g.ow
                        && lex_before4(b2, o2, h2, w2, bi as int, o as int, 0, 0) ==> #[trigger] window_value_2d(
                        x@, wt@, gg, b2, o2, h2, w2, zero, out@[idx4(b2, o2, h2, w2, g.k as int, g.oh as int, g.ow as int)]),
            decreases g.k - o,
        {
            let mut oi: usize = 0;
            while oi < g.oh
                invariant
                    g.ok(),
                    gg == *g,
                    x@.len() == g.b * g.c * g.h * g.w,
                    wt@.len() == g.k * g.c * g.kh * g.kw,
                    total == g.b * g.k * g.oh * g.ow,
                    out@.len() == total,
                    bi < g.b,
                    o < g.k,
                    oi <= g.oh,
                    forall|b2: int, o2: int, h2: int, w2: int|
                        0 <= b2 < g.b && 0 <= o2 < g.k && 0 <= h2 < g.oh && 0 <= w2 < g.ow
                            && lex_before4(b2, o2, h2, w2, bi as int, o as int, oi as int, 0) ==> #[trigger] window_value_2d(
                            x@, wt@, gg, b2, o2, h2, w2, zero, out@[idx4(b2, o2, h2, w2, g.k as int, g.oh as int, g.ow as int)]),
                decreases g.oh - oi,
            {
                let mut oj: usize = 0;
                while oj < g.ow
                    invariant
                        g.ok(),
                        gg == *g,
                        x@.len() == g.b * g.c * g.h * g.w,
                        wt@.len() == g.k * g.c * g.kh * g.kw,
                        total == g.b * g.k * g.oh * g.ow,
                        out@.len() == total,
                        bi < g.b,
                        o < g.k,
                        oi < g.oh,
                        oj <= g.ow,
                        forall|b2: int, o2: int, h2: int, w2: int|
                            0 <= b2 < g.b && 0 <= o2 < g.k && 0 <= h2 < g.oh && 0 <= w2 < g.ow
                                && lex_before4(b2, o2, h2, w2, bi as int, o as int, oi as int, oj as int)
                                ==> #[trigger] window_value_2d(
                                x@, wt@, gg, b2, o2, h2, w2, zero, out@[idx4(b2, o2, h2, w2, g.k as int, g.oh as int, g.ow as int)]),
                    decreases g.ow - oj,
                {
                    let v = window_dot_2d(x, wt, g, bi, o, oi, oj, zero);
                    let at = index4(bi, o, oi, oj, g.b, g.k, g.oh, g.ow);
                    let ghost out0 = out@;
                    out.set(at, v);
                    proof {
                        assert forall|b2: int, o2: int, h2: int, w2: int|
                            0 <= b2 < g.b && 0 <= o2 < g.k && 0 <= h2 < g.oh && 0 <= w2 < g.ow
                                && lex_before4(b2, o2, h2, w2, bi as int, o as int, oi as int, oj + 1)
                                implies #[trigger] window_value_2d(
                                x@, wt@, gg, b2, o2, h2, w2, zero, out@[idx4(b2, o2, h2, w2, g.k as int, g.oh as int, g.ow as int)]) by {
                            let q = idx4(b2, o2, h2, w2, g.k as int, g.oh as int, g.ow as int);
                            if lex_before4(b2, o2, h2, w2, bi as int, o as int, oi as int, oj as int) {
                                lemma_idx4_before(b2, o2, h2, w2, bi as int, o as int, oi as int, oj as int,
                                    g.k as int, g.oh as int, g.ow as int);
                                assert(out@[q] == out0[q]);
                            } else {
                                assert(q == at);
                            }
                        }
                    }
                    oj = oj + 1;
                }
                oi = oi + 1;
            }
            o = o + 1;
        }
        bi = bi + 1;
    }
    proof {
        assert(conv2d_values(x@, wt@, gg, zero, out@));
    }
    out
}

/// Sizes of a convolution of `[b, c, h, w, d]` by `[k, c, kh, kw, kd]` with
/// strides `(s0, s1, s2)` and padding `(p0, p1, p2)`, giving `[b, k, oh, ow, od]`.
pub struct Geom3 {
    pub b: usize,
    pub c: usize,
    pub h: usize,
    pub w: usize,
    pub d: usize,
    pub k: usize,
    pub kh: usize,
    pub kw: usize,
    pub kd: usize,
    pub s0: usize,
    pub s1: usize,
    pub s2: usize,
    pub p0: usize,
    pub p1: usize,
    pub p2: usize,
    pub oh: usize,
    pub ow: usize,
    pub od: usize,
}

impl Geom3 {
    /// The windows fit and every array size fits in memory.
    pub open spec fn ok(&self) -> bool {
        &&& conv_dim_ok(self.h, self.p0, self.kh, self.s0)
        &&& conv_dim_ok(self.w, self.p1, self.kw, self.s1)
        &&& conv_dim_ok(self.d, self.p2, self.kd, self.s2)
        &&& self.oh == conv_out_len(self.h as int, self.p0 as int, self.kh as int, self.s0 as int)
        &&& self.ow == conv_out_len(self.w as int, self.p1 as int, self.kw as int, self.s1 as int)
        &&& self.od == conv_out_len(self.d as int, self.p2 as int, self.kd as int, self.s2 as int)
        &&& self.b * self.c * self.h * self.w * self.d <= usize::MAX
        &&& self.k * self.c * self.kh * self.kw * self.kd <= usize::MAX
        &&& self.b * self.k * self.oh * self.ow * self.od <= usize::MAX
    }
}

/// Each partial product of a five-factor product is at most the whole when
/// the last three factors are positive.
proof fn lemma_prefix_products5(n0: int, n1: int, n2: int, n3: int, n4: int)
    requires
        n0 >= 0,
        n1 >= 0,
        n2 >= 1,
        n3 >= 1,
        n4 >= 1,
    ensures
        0 <= n0 * n1 <= n0 * n1 * n2 <= n0 * n1 * n2 * n3 <= n0 * n1 * n2 * n3 * n4,
{
    lemma_prefix_products(n0, n1, n2, n3);
    lemma_le_mul(n0 * n1 * n2 * n3, n4);
}


/// Moving the last digit past its radix is moving the previous digit by one
/// (four digits).
proof fn lemma_idx4_carry(a: int, b: int, c: int, n1: int, n2: int, n3: int)
    ensures
        idx4(a, b, c, n3, n1, n2, n3) == idx4(a, b, c + 1, 0, n1, n2, n3),
        idx4(a, b, n2, 0, n1, n2, n3) == idx4(a, b + 1, 0, 0, n1, n2, n3),
        idx4(a, n1, 0, 0, n1, n2, n3) == idx4(a + 1, 0, 0, 0, n1, n2, n3),
{
    lemma_idx3_carry(a, b, n1, n2);
    assert(idx3(a, b, c, n1, n2) * n3 + n3 == (idx3(a, b, c, n1, n2) + 1) * n3) by (nonlinear_arith);
}

/// The zero-padded input of a three-dimensional convolution: the entry of the
/// row-major `[b, c, h, w, d]` array `x` for image `bi`, channel `ci` and
/// padded position `(hp, wp, dp)`, and `zero` in the padding.
pub open spec fn padded_3d<T>(x: Seq<T>, g: Geom3, bi: int, ci: int, hp: int, wp: int, dp: int, zero: T) -> T {
    if g.p0 <= hp < g.p0 + g.h && g.p1 <= wp < g.p1 + g.w && g.p2 <= dp < g.p2 + g.d {
        x[idx5(bi, ci, hp - g.p0, wp - g.p1, dp - g.p2, g.c as int, g.h as int, g.w as int, g.d as int)]
    } else {
        zero
    }
}

/// Step `(ci, i, j, l)` of the window sum for output `(bi, o, oi, oj, ol)`:
/// the padded input times the kernel entry is `prods[t]`, and `sums[t + 1]` is
/// `sums[t]` plus it, each by the float operations, where `t` is the place of
/// the step in the order channel, then the three kernel offsets.
pub open spec fn window_step_3d<T: num_traits::Float>(
    x: Seq<T>, wt: Seq<T>, g: Geom3, bi: int, o: int, oi: int, oj: int, ol: int, zero: T,
    prods: Seq<T>, sums: Seq<T>, ci: int, i: int, j: int, l: int,
) -> bool {
    let t = idx4(ci, i, j, l, g.kh as int, g.kw as int, g.kd as int);
    &&& product_value(
        padded_3d(x, g, bi, ci, oi * g.s0 + i, oj * g.s1 + j, ol * g.s2 + l, zero),
        wt[idx5(o, ci, i, j, l, g.c as int, g.kh as int, g.kw as int, g.kd as int)],
        prods[t],
    )
    &&& sum_value(sums[t], prods[t], sums[t + 1])
}

/// `prods` and `sums` are the products and running sums of the window sum for
/// output `(bi, o, oi, oj, ol)`, starting from `zero`.
pub open spec fn window_chain_3d<T: num_traits::Float>(
    x: Seq<T>, wt: Seq<T>, g: Geom3, bi: int, o: int, oi: int, oj: int, ol: int, zero: T,
    prods: Seq<T>, sums: Seq<T>,
) -> bool {
    &&& sums.len() == g.c * g.kh * g.kw * g.kd + 1
    &&& prods.len() == g.c * g.kh * g.kw * g.kd
    &&& sums[0] == zero
    &&& forall|ci: int, i: int, j: int, l: int|
        0 <= ci < g.c && 0 <= i < g.kh && 0 <= j < g.kw && 0 <= l < g.kd
            ==> #[trigger] window_step_3d(x, wt, g, bi, o, oi, oj, ol, zero, prods, sums, ci, i, j, l)
}

/// `r` is the window sum for output `(bi, o, oi, oj, ol)`: from `zero`, over
/// the channels and the kernel offsets in row-major order, the padded input
/// times the kernel entry is added, each step by the float operations.
pub open spec fn window_value_3d<T: num_traits::Float>(
    x: Seq<T>, wt: Seq<T>, g: Geom3, bi: int, o: int, oi: int, oj: int, ol: int, zero: T, r: T,
) -> bool {
    exists|prods: Seq<T>, sums: Seq<T>|
        #[trigger] window_chain_3d(x, wt, g, bi, o, oi, oj, ol, zero, prods, sums) && sums.last() == r
}

/// `out` is the row-major `[b, k, oh, ow, od]` convolution of `x` by `wt`:
/// each entry is the window sum of its position, with `zero` as padding and
/// start.
pub open spec fn conv3d_values<T: num_traits::Float>(x: Seq<T>, wt: Seq<T>, g: Geom3, zero: T, out: Seq<T>) -> bool {
    &&& out.len() == g.b * g.k * g.oh * g.ow * g.od
    &&& forall|bi: int, o: int, oi: int, oj: int, ol: int|
        0 <= bi < g.b && 0 <= o < g.k && 0 <= oi < g.oh && 0 <= oj < g.ow && 0 <= ol < g.od
            ==> #[trigger] window_value_3d(
            x, wt, g, bi, o, oi, oj, ol, zero,
            out[idx5(bi, o, oi, oj, ol, g.k as int, g.oh as int, g.ow as int, g.od as int)],
        )
}

/// `out` is the convolution of `x` by `wt` for the sizes `g`, the float zero
/// serving as padding and as the start of each sum.
pub open spec fn conv3d_result<T: num_traits::Float>(x: Seq<T>, wt: Seq<T>, g: Geom3, out: Seq<T>) -> bool {
    exists|z: T| zero_value(z) && #[trigger] conv3d_values(x, wt, g, z, out)
}

/// Sum over channels and window offsets of the zero-padded input times the
/// kernel, for output position `(bi, o, oi, oj, ol)`.
fn window_dot_3d<T: Copy + num_traits::Float>(
    x: &Vec<T>,
    wt: &Vec<T>,
    g: &Geom3,
    bi: usize,
    o: usize,
    oi: usize,
    oj: usize,
    ol: usize,
    zero: T,
) -> (r: T)
    requires
        g.ok(),
        x@.len() == g.b * g.c * g.h * g.w * g.d,
        wt@.len() == g.k * g.c * g.kh * g.kw * g.kd,
        bi < g.b,
        o < g.k,
        oi < g.oh,
        oj < g.ow,
        ol < g.od,
    ensures
        window_value_3d(x@, wt@, *g, bi as int, o as int, oi as int, oj as int, ol as int, zero, r),
{
    let ghost gg = *g;
    let mut acc = zero;
    let ghost mut prods: Seq<T> = seq![];
    let ghost mut sums: Seq<T> = seq![zero];
    proof {
        assert(idx4(0, 0, 0, 0, g.kh as int, g.kw as int, g.kd as int) == 0) by (nonlinear_arith);
    }
    let mut ci: usize = 0;
    while ci < g.c
        invariant
            g.ok(),
            gg == *g,
            x@.len() == g.b * g.c * g.h * g.w * g.d,
            wt@.len() == g.k * g.c * g.kh * g.kw * g.kd,
            bi < g.b,
            o < g.k,
            oi < g.oh,
            oj < g.ow,
            ol < g.od,
            ci <= g.c,
            sums.len() == idx4(ci as int, 0, 0, 0, g.kh as int, g.kw as int, g.kd as int) + 1,
            prods.len() + 1 == sums.len(),
            sums[0] == zero,
            sums.last() == acc,
            forall|c2: int, i2: int, j2: int, l2: int|
                0 <= c2 < g.c && 0 <= i2 < g.kh && 0 <= j2 < g.kw && 0 <= l2 < g.kd
                    && lex_before4(c2, i2, j2, l2, ci as int, 0, 0, 0)
                    ==> #[trigger] window_step_3d(x@, wt@, gg, bi as int, o as int, oi as int, oj as int, ol as int, zero, prods, sums, c2, i2, j2, l2),

        decreases g.c - ci,
    {
        let mut i: usize = 0;
        while i < g.kh
            invariant
                g.ok(),
                gg == *g,
                x@.len() == g.b * g.c * g.h * g.w * g.d,
                wt@.len() == g.k * g.c * g.kh * g.kw * g.kd,
                bi < g.b,
                o < g.k,
                oi < g.oh,
                oj < g.ow,
                ol < g.od,
                ci < g.c,
                i <= g.kh,
                sums.len() == idx4(ci as int, i as int, 0, 0, g.kh as int, g.kw as int, g.kd as int) + 1,
                prods.len() + 1 == sums.len(),
                sums[0] == zero,
                sums.last() == acc,
                forall|c2: int, i2: int, j2: int, l2: int|
                    0 <= c2 < g.c && 0 <= i2 < g.kh && 0 <= j2 < g.kw && 0 <= l2 < g.kd
                        && lex_before4(c2, i2, j2, l2, ci as int, i as int, 0, 0)
                        ==> #[trigger] window_step_3d(x@, wt@, gg, bi as int, o as int, oi as int, oj as int, ol as int, zero, prods, sums, c2, i2, j2, l2),

            decreases g.kh - i,
        {
            let mut j: usize = 0;
            while j < g.kw
                invariant
                    g.ok(),
                    gg == *g,
                    x@.len() == g.b * g.c * g.h * g.w * g.d,
                    wt@.len() == g.k * g.c * g.kh * g.kw * g.kd,
                    bi < g.b,
                    o < g.k,
                    oi < g.oh,
                    oj < g.ow,
                    ol < g.od,
                    ci < g.c,
                    i < g.kh,
                    j <= g.kw,
                    sums.len() == idx4(ci as int, i as int, j as int, 0, g.kh as int, g.kw as int, g.kd as int) + 1,
                    prods.len() + 1 == sums.len(),
                    sums[0] == zero,
                    sums.last() == acc,
                    forall|c2: int, i2: int, j2: int, l2: int|
                        0 <= c2 < g.c && 0 <= i2 < g.kh && 0 <= j2 < g.kw && 0 <= l2 < g.kd
                            && lex_before4(c2, i2, j2, l2, ci as int, i as int, j as int, 0)
                            ==> #[trigger] window_step_3d(x@, wt@, gg, bi as int, o as int, oi as int, oj as int, ol as int, zero, prods, sums, c2, i2, j2, l2),

                decreases g.kw - j,
            {
                let mut l: usize = 0;
                while l < g.kd
                    invariant
                        g.ok(),
                        gg == *g,
                        x@.len() == g.b * g.c * g.h * g.w * g.d,
                        wt@.len() == g.k * g.c * g.kh * g.kw * g.kd,
                        bi < g.b,
                        o < g.k,
                        oi < g.oh,
                        oj < g.ow,
                        ol < g.od,
                        ci < g.c,
                        i < g.kh,
                        j < g.kw,
                        l <= g.kd,
                        sums.len() == idx4(ci as int, i as int, j as int, l as int, g.kh as int, g.kw as int, g.kd as int) + 1,
                        prods.len() + 1 == sums.len(),
                        sums[0] == zero,
                        sums.last() == acc,
                        forall|c2: int, i2: int, j2: int, l2: int|
                            0 <= c2 < g.c && 0 <= i2 < g.kh && 0 <= j2 < g.kw && 0 <= l2 < g.kd
                                && lex_before4(c2, i2, j2, l2, ci as int, i as int, j as int, l as int)
                                ==> #[trigger] window_step_3d(x@, wt@, gg, bi as int, o as int, oi as int, oj as int, ol as int, zero, prods, sums, c2, i2, j2, l2),

                    decreases g.kd - l,
                {
                    proof {
                        lemma_window_end(g.h as int, g.p0 as int, g.kh as int, g.s0 as int, oi as int, i as int);
                        lemma_window_end(g.w as int, g.p1 as int, g.kw as int, g.s1 as int, oj as int, j as int);
                        lemma_window_end(g.d as int, g.p2 as int, g.kd as int, g.s2 as int, ol as int, l as int);
                    }
                    let hp = oi * g.s0 + i;
                    let wp = oj * g.s1 + j;
                    let dp = ol * g.s2 + l;
                    let v = if hp >= g.p0 && hp - g.p0 < g.h && wp >= g.p1 && wp - g.p1 < g.w
                        && dp >= g.p2 && dp - g.p2 < g.d {
                        x[index5(bi, ci, hp - g.p0, wp - g.p1, dp - g.p2, g.b, g.c, g.h, g.w, g.d)]
                    } else {
                        zero
                    };
                    let kv = wt[index5(o, ci, i, j, l, g.k, g.c, g.kh, g.kw, g.kd)];
                    let p = product_of(v, kv);
                    let next = sum_of(acc, p);
                    proof {
                        let t = idx4(ci as int, i as int, j as int, l as int, g.kh as int, g.kw as int, g.kd as int);
                        let prods0 = prods;
                        let sums0 = sums;
                        if hp >= g.p0 && hp - g.p0 < g.h && wp >= g.p1 && wp - g.p1 < g.w && dp >= g.p2 && dp - g.p2 < g.d {
                            let q = idx5(bi as int, ci as int, hp - g.p0, wp - g.p1, dp - g.p2,
                                g.c as int, g.h as int, g.w as int, g.d as int);
                            assert(v == x@[q]);
                        }
                        assert(v == padded_3d(x@, gg, bi as int, ci as int, hp as int, wp as int, dp as int, zero));
                        prods = prods.push(p);
                        sums = sums.push(next);
                        assert forall|c2: int, i2: int, j2: int, l2: int|
                            0 <= c2 < g.c && 0 <= i2 < g.kh && 0 <= j2 < g.kw && 0 <= l2 < g.kd
                                && lex_before4(c2, i2, j2, l2, ci as int, i as int, j as int, l + 1)
                                implies #[trigger] window_step_3d(x@, wt@, gg, bi as int, o as int, oi as int, oj as int, ol as int, zero, prods, sums, c2, i2, j2, l2) by {
                            let t2 = idx4(c2, i2, j2, l2, g.kh as int, g.kw as int, g.kd as int);
                            if lex_before4(c2, i2, j2, l2, ci as int, i as int, j as int, l as int) {
                                lemma_idx4_before(c2, i2, j2, l2, ci as int, i as int, j as int, l as int,
                                    g.kh as int, g.kw as int, g.kd as int);
                                assert(window_step_3d(x@, wt@, gg, bi as int, o as int, oi as int, oj as int, ol as int, zero, prods0, sums0, c2, i2, j2, l2));
                                assert(prods[t2] == prods0[t2]);
                                assert(sums[t2] == sums0[t2]);
                                assert(sums[t2 + 1] == sums0[t2 + 1]);
                            } else {
                                assert(c2 == ci && i2 == i && j2 == j && l2 == l);
                                assert(t2 == t);
                                assert(prods[t] == p);
                                assert(sums[t] == acc);
                                assert(sums[t + 1] == next);
                            }
                        }
                    }
                    acc = next;
                    l = l + 1;
                }
                proof {
                    lemma_idx4_carry(ci as int, i as int, j as int, g.kh as int, g.kw as int, g.kd as int);
                }
                j = j + 1;
            }
            proof {
                lemma_idx4_carry(ci as int, i as int, j as int, g.kh as int, g.kw as int, g.kd as int);
            }
            i = i + 1;
        }
        proof {
            lemma_idx4_carry(ci as int, i as int, 0, g.kh as int, g.kw as int, g.kd as int);
        }
        ci = ci + 1;
    }
    proof {
        assert(window_chain_3d(x@, wt@, gg, bi as int, o as int, oi as int, oj as int, ol as int, zero, prods, sums));
    }
    acc
}

/// Convolution of a row-major `[b, c, h, w, d]` array by a row-major
/// `[k, c, kh, kw, kd]` array: a row-major `[b, k, oh, ow, od]` array.
fn conv3d_rows<T: Copy + num_traits::Float>(x: &Vec<T>, wt: &Vec<T>, g: &Geom3) -> (out: Vec<T>)
    requires
        g.ok(),
        x@.len() == g.b * g.c * g.h * g.w * g.d,
        wt@.len() == g.k * g.c * g.kh * g.kw * g.kd,
    ensures
        out@.len() == g.b * g.k * g.oh * g.ow * g.od,
        conv3d_result(x@, wt@, *g, out@),
{
    let ghost gg = *g;
    let zero = zero_of::<T>();
    proof {
        lemma_prefix_products5(g.b as int, g.k as int, g.oh as int, g.ow as int, g.od as int);
    }
    let total = g.b * g.k * g.oh * g.ow * g.od;
    let mut out = filled_vec(zero, total);
    let mut bi: usize = 0;
    while bi < g.b
        invariant
            g.ok(),
            gg == *g,
            x@.len() == g.b * g.c * g.h * g.w * g.d,
            wt@.len() == g.k * g.c * g.kh * g.kw * g.kd,
            total == g.b * g.k * g.oh * g.ow * g.od,
            out@.len() == total,
            bi <= g.b,
            forall|b2: int, o2: int, h2: int, w2: int, d2: int|
                0 <= b2 < g.b && 0 <= o2 < g.k && 0 <= h2 < g.oh && 0 <= w2 < g.ow && 0 <= d2 < g.od
                    && lex_before5(b2, o2, h2, w2, d2, bi as int, 0, 0, 0, 0) ==> #[trigger] window_value_3d(
                    x@, wt@, gg, b2, o2, h2, w2, d2, zero, out@[idx5(b2, o2, h2, w2, d2, g.k as int, g.oh as int, g.ow as int, g.od as int)]),

        decreases g.b - bi,
    {
        let mut o: usize = 0;
        while o < g.k
            invariant
                g.ok(),
                gg == *g,
                x@.len() == g.b * g.c * g.h * g.w * g.d,
                wt@.len() == g.k * g.c * g.kh * g.kw * g.kd,
                total == g.b * g.k * g.oh * g.ow * g.od,
                out@.len() == total,
                bi < g.b,
                o <= g.k,
                forall|b2: int, o2: int, h2: int, w2: int, d2: int|
                    0 <= b2 < g.b && 0 <= o2 < g.k && 0 <= h2 < g.oh && 0 <= w2 < g.ow && 0 <= d2 < g.od
                        && lex_before5(b2, o2, h2, w2, d2, bi as int, o as int, 0, 0, 0) ==> #[trigger] window_value_3d(
                        x@, wt@, gg, b2, o2, h2, w2, d2, zero, out@[idx5(b2, o2, h2, w2, d2, g.k as int, g.oh as int, g.ow as int, g.od as int)]),

            decreases g.k - o,
        {
            let mut oi: usize = 0;
            while oi < g.oh
                invariant
                    g.ok(),
                    gg == *g,
                    x@.len() == g.b * g.c * g.h * g.w * g.d,
                    wt@.len() == g.k * g.c * g.kh * g.kw * g.kd,
                    total == g.b * g.k * g.oh * g.ow * g.od,
                    out@.len() == total,
                    bi < g.b,
                    o < g.k,
                    oi <= g.oh,
                    forall|b2: int, o2: int, h2: int, w2: int, d2: int|
                        0 <= b2 < g.b && 0 <= o2 < g.k && 0 <= h2 < g.oh && 0 <= w2 < g.ow && 0 <= d2 < g.od
                            && lex_before5(b2, o2, h2, w2, d2, bi as int, o as int, oi as int, 0, 0) ==> #[trigger] window_value_3d(
                            x@, wt@, gg, b2, o2, h2, w2, d2, zero, out@[idx5(b2, o2, h2, w2, d2, g.k as int, g.oh as int, g.ow as int, g.od as int)]),

                decreases g.oh - oi,
            {
                let mut oj: usize = 0;
                while oj < g.ow
                    invariant
                        g.ok(),
                        gg == *g,
                        x@.len() == g.b * g.c * g.h * g.w * g.d,
                        wt@.len() == g.k * g.c * g.kh * g.kw * g.kd,
                        total == g.b * g.k * g.oh * g.ow * g.od,
                        out@.len() == total,
                        bi < g.b,
                        o < g.k,
                        oi < g.oh,
                        oj <= g.ow,
                        forall|b2: int, o2: int, h2: int, w2: int, d2: int|
                            0 <= b2 < g.b && 0 <= o2 < g.k && 0 <= h2 < g.oh && 0 <= w2 < g.ow && 0 <= d2 < g.od
                                && lex_before5(b2, o2, h2, w2, d2, bi as int, o as int, oi as int, oj as int, 0) ==> #[trigger] window_value_3d(
                                x@, wt@, gg, b2, o2, h2, w2, d2, zero, out@[idx5(b2, o2, h2, w2, d2, g.k as int, g.oh as int, g.ow as int, g.od as int)]),

                    decreases g.ow - oj,
                {
                    let mut ol: usize = 0;
                    while ol < g.od
                        invariant
                            g.ok(),
                            gg == *g,
                            x@.len() == g.b * g.c * g.h * g.w * g.d,
                            wt@.len() == g.k * g.c * g.kh * g.kw * g.kd,
                            total == g.b * g.k * g.oh * g.ow * g.od,
                            out@.len() == total,
                            bi < g.b,
                            o < g.k,
                            oi < g.oh,
                            oj < g.ow,
                            ol <= g.od,
                            forall|b2: int, o2: int, h2: int, w2: int, d2: int|
                                0 <= b2 < g.b && 0 <= o2 < g.k && 0 <= h2 < g.oh && 0 <= w2 < g.ow && 0 <= d2 < g.od
                                    && lex_before5(b2, o2, h2, w2, d2, bi as int, o as int, oi as int, oj as int, ol as int) ==> #[trigger] window_value_3d(
                                    x@, wt@, gg, b2, o2, h2, w2, d2, zero, out@[idx5(b2, o2, h2, w2, d2, g.k as int, g.oh as int, g.ow as int, g.od as int)]),

                        decreases g.od - ol,
                    {
                        let v = window_dot_3d(x, wt, g, bi, o, oi, oj, ol, zero);
                        let at = index5(bi, o, oi, oj, ol, g.b, g.k, g.oh, g.ow, g.od);
                        let ghost out0 = out@;
                        out.set(at, v);
                        proof {
                            assert forall|b2: int, o2: int, h2: int, w2: int, d2: int|
                                0 <= b2 < g.b && 0 <= o2 < g.k && 0 <= h2 < g.oh && 0 <= w2 < g.ow && 0 <= d2 < g.od
                                    && lex_before5(b2, o2, h2, w2, d2, bi as int, o as int, oi as int, oj as int, ol + 1)
                                    implies #[trigger] window_value_3d(
                                    x@, wt@, gg, b2, o2, h2, w2, d2, zero, out@[idx5(b2, o2, h2, w2, d2, g.k as int, g.oh as int, g.ow as int, g.od as int)]) by {
                                let q = idx5(b2, o2, h2, w2, d2, g.k as int, g.oh as int, g.ow as int, g.od as int);
                                if lex_before5(b2, o2, h2, w2, d2, bi as int, o as int, oi as int, oj as int, ol as int) {
                                    lemma_idx5_before(b2, o2, h2, w2, d2, bi as int, o as int, oi as int, oj as int, ol as int,
                                        g.k as int, g.oh as int, g.ow as int, g.od as int);
                                    assert(out@[q] == out0[q]);
                                } else {
                                    assert(q == at);
                                }
                            }
                        }
                        ol = ol + 1;
                    }
                    oj = oj + 1;
                }
                oi = oi + 1;
            }
            o = o + 1;
        }
        bi = bi + 1;
    }
    proof {
        assert(conv3d_values(x@, wt@, gg, zero, out@));
    }
    out
}

// ---------------------------------------------------------------------------
// Shapes raised to the rank a convolution expects
// ---------------------------------------------------------------------------

/// `s` with leading dimensions of size 1 added until it has rank `n`.
pub open spec fn lift_shape(s: Seq<usize>, n: int) -> Seq<usize> {
    Seq::new((n - s.len()) as nat, |i: int| 1usize) + s
}

/// Sizes from dimension `p.len() + j` of `p + s` are those of `s` from `j`.
pub(crate) proof fn lemma_size_from_suffix(p: Seq<usize>, s: Seq<usize>, j: int)
    requires
        0 <= j,
    ensures
        crate::layout::size_from(p + s, p.len() + j) == crate::layout::size_from(s, j),
    decreases s.len() - j,
{
    if j < s.len() {
        lemma_size_from_suffix(p, s, j + 1);
        assert((p + s)[p.len() + j] == s[j]);
    }
}

/// Sizes within a prefix of 1s equal the size of what follows it.
proof fn lemma_ones_prefix(p: Seq<usize>, s: Seq<usize>, i: int)
    requires
        0 <= i <= p.len(),
        forall|j: int| 0 <= j < p.len() ==> p[j] == 1usize,
    ensures
        crate::layout::size_from(p + s, i) == crate::layout::size_from(s, 0),
    decreases p.len() - i,
{
    if i < p.len() {
        lemma_ones_prefix(p, s, i + 1);
        assert((p + s)[i] == 1usize);
    } else {
        lemma_size_from_suffix(p, s, 0);
        assert(p.len() + 0 == i);
    }
}

/// Leading dimensions of size 1 change no size.
proof fn lemma_lift_sizes(s: Seq<usize>, n: int)
    requires
        s.len() <= n,
    ensures
        shape_size(lift_shape(s, n)) == shape_size(s),
        sizes_fit(s) ==> sizes_fit(lift_shape(s, n)),
        lift_shape(s, n).len() == n,
{
    let p = Seq::new((n - s.len()) as nat, |i: int| 1usize);
    let l = lift_shape(s, n);
    assert forall|j: int| 0 <= j <= s.len() implies #[trigger] crate::layout::size_from(l, p.len() + j)
        == crate::layout::size_from(s, j) by {
        lemma_size_from_suffix(p, s, j);
    }
    assert forall|k: int| 0 <= k <= p.len() implies #[trigger] crate::layout::size_from(l, k)
        == crate::layout::size_from(s, 0) by {
        lemma_ones_prefix(p, s, k);
    }
    assert(crate::layout::size_from(l, p.len() as int + 0) == crate::layout::size_from(s, 0));
    if sizes_fit(s) {
        assert forall|k: int| 0 <= k <= l.len() implies #[trigger] crate::layout::size_from(l, k)
            <= isize::MAX by {
            if k >= p.len() {
                assert(crate::layout::size_from(l, p.len() + (k - p.len())) == crate::layout::size_from(
                    s,
                    k - p.len(),
                ));
            }
        }
    }
}

/// `shape` with leading 1s added until it has rank `n`.
fn lift_shape_vec(shape: &Vec<usize>, n: usize) -> (r: Vec<usize>)
    requires
        shape@.len() <= n,
    ensures
        r@ == lift_shape(shape@, n as int),
{
    let mut r: Vec<usize> = Vec::new();
    let k = n - shape.len();
    let mut i: usize = 0;
    while i < k
        invariant
            i <= k,
            k == n - shape@.len(),
            r@ == Seq::new(i as nat, |j: int| 1usize),
        decreases k - i,
    {
        r.push(1);
        i = i + 1;
    }
    let mut j: usize = 0;
    while j < shape.len()
        invariant
            j <= shape@.len(),
            k == n - shape@.len(),
            r@ == Seq::new(k as nat, |x: int| 1usize) + shape@.subrange(0, j as int),
        decreases shape@.len() - j,
    {
        r.push(shape[j]);
        j = j + 1;
        assert(r@ =~= Seq::new(k as nat, |x: int| 1usize) + shape@.subrange(0, j as int));
    }
    assert(shape@.subrange(0, shape@.len() as int) =~= shape@);
    r
}

// ---------------------------------------------------------------------------
// Two-dimensional convolution
// ---------------------------------------------------------------------------

/// A `[B, C, H, W]` input, a `[K, C, KH, KW]` kernel and a configuration
/// whose windows fit, with an output size that fits in memory.
pub open spec fn conv2d_args_ok(input: Seq<usize>, kernel: Seq<usize>, cfg: ConvConfig2D) -> bool {
    &&& input.len() == 4
    &&& kernel.len() == 4
    &&& input[1] == kernel[1]
    &&& conv_dim_ok(input[2], cfg.padding.0, kernel[2], cfg.stride.0)
    &&& conv_dim_ok(input[3], cfg.padding.1, kernel[3], cfg.stride.1)
    &&& sizes_fit(input)
    &&& sizes_fit(kernel)
    &&& sizes_fit(conv_shape_2d(input, kernel, cfg.stride, cfg.padding))
}

/// The checks of a two-dimensional convolution pass: the input has rank at
/// most 4, the channels agree, the kernel has rank 4 and the strides are positive.
pub open spec fn conv2d_accepts(input: Seq<usize>, kernel: Seq<usize>, cfg: ConvConfig2D) -> bool {
    &&& input.len() <= 4
    &&& lift_shape(input, 4)[1] == kernel[1]
    &&& kernel.len() == 4
    &&& cfg.stride.0 > 0
    &&& cfg.stride.1 > 0
}

/// The sizes of the convolution of a `[B, C, H, W]` input by a
/// `[K, C, KH, KW]` kernel under `cfg`.
pub open spec fn geom_2d(input: Seq<usize>, kernel: Seq<usize>, cfg: ConvConfig2D) -> Geom2 {
    Geom2 {
        b: input[0],
        c: input[1],
        h: input[2],
        w: input[3],
        k: kernel[0],
        kh: kernel[2],
        kw: kernel[3],
        s0: cfg.stride.0,
        s1: cfg.stride.1,
        p0: cfg.padding.0,
        p1: cfg.padding.1,
        oh: conv_out_len(input[2] as int, cfg.padding.0 as int, kernel[2] as int, cfg.stride.0 as int) as usize,
        ow: conv_out_len(input[3] as int, cfg.padding.1 as int, kernel[3] as int, cfg.stride.1 as int) as usize,
    }
}

/// The convolution of `input` by `kernel` with zero padding, windows
/// anchored at their first element, as a row-major array.
fn conv2d_compute<T: Copy + num_traits::Float>(
    input: &TensorView<T>,
    kernel: &TensorView<T>,
    config: &ConvConfig2D,
) -> (rows: Vec<T>)
    requires
        conv2d_args_ok(input.spec_shape(), kernel.spec_shape(), *config),
    ensures
        rows@.len() == shape_size(conv_shape_2d(input.spec_shape(), kernel.spec_shape(), config.stride, config.padding)),
        conv2d_result(input.elems(), kernel.elems(), geom_2d(input.spec_shape(), kernel.spec_shape(), *config), rows@),
{
    let x = input.to_contiguous();
    let wt = kernel.to_contiguous();
    let ghost ish = input.spec_shape();
    let ghost ksh = kernel.spec_shape();
    let ghost osh = conv_shape_2d(ish, ksh, config.stride, config.padding);
    proof {
        lemma_size4(ish);
        lemma_size4(ksh);
        lemma_size4(osh);
        crate::layout::lemma_positions_len(ish, input.spec_strides(), 0, input.spec_offset());
        crate::layout::lemma_positions_len(ksh, kernel.spec_strides(), 0, kernel.spec_offset());
    }
    let oh = out_len(input.meta.shape[2], config.padding.0, kernel.meta.shape[2], config.stride.0);
    let ow = out_len(input.meta.shape[3], config.padding.1, kernel.meta.shape[3], config.stride.1);
    let g = Geom2 {
        b: input.meta.shape[0],
        c: input.meta.shape[1],
        h: input.meta.shape[2],
        w: input.meta.shape[3],
        k: kernel.meta.shape[0],
        kh: kernel.meta.shape[2],
        kw: kernel.meta.shape[3],
        s0: config.stride.0,
        s1: config.stride.1,
        p0: config.padding.0,
        p1: config.padding.1,
        oh,
        ow,
    };
    assert(g == geom_2d(ish, ksh, *config));
    conv2d_rows(&x.buf, &wt.buf, &g)
}

/// Writes the convolution of `input` by `kernel` into `output`, in row-major
/// order of its layout
/// (zero padding, windows anchored at their first element); the rest of the
/// output's buffer is unchanged.
pub fn temp_conv2d_fallback<T: Copy + num_traits::Float>(
    input: TensorView<T>,
    kernel: TensorView<T>,
    config: &ConvConfig2D,
    output: &mut TensorViewMut<T>,
) -> (r: Result<(), TensorError>)
    requires
        conv2d_args_ok(input.spec_shape(), kernel.spec_shape(), *config),
        old(output).wf(),
        old(output).spec_shape() == conv_shape_2d(
            input.spec_shape(),
            kernel.spec_shape(),
            config.stride,
            config.padding,
        ),
    ensures
        r is Ok,
        final(output).wf(),
        final(output).spec_shape() == old(output).spec_shape(),
        final(output).spec_strides() == old(output).spec_strides(),
        final(output).spec_offset() == old(output).spec_offset(),
        final(output).data().len() == old(output).data().len(),
        forall|i: int|
            0 <= i < old(output).data().len() && !old(output).spec_positions().contains(i)
                ==> final(output).data()[i] == old(output).data()[i],
        distinct(old(output).spec_positions()) ==> conv2d_result(
            input.elems(),
            kernel.elems(),
            geom_2d(input.spec_shape(), kernel.spec_shape(), *config),
            final(output).elems(),
        ),
{
    let rows = conv2d_compute(&input, &kernel, config);
    output.write_elems(&rows);
    Ok(())
}

/// Convolution of `input` by `kernel`: the input is raised to rank 4 by
/// leading dimensions of size 1 (`[B, C, H, W]`), the kernel is `[K, C, KH, KW]`,
/// and the result is a row-major `[B, K, OH, OW]` tensor.
///
/// Errors: `InvalidShape` when the input has rank above 4, when the channels
/// differ, or when the kernel does not have rank 4; `UnsupportedOperation`
/// when a stride is 0 (checked in this order).
pub fn conv2d_view<T: Copy + num_traits::Float>(
    input: &TensorView<T>,
    kernel: &TensorView<T>,
    config: &ConvConfig2D,
) -> (r: Result<TensorBase<T>, TensorError>)
    requires
        kernel.spec_shape().len() >= 2,
        sizes_fit(input.spec_shape()),
        sizes_fit(kernel.spec_shape()),
        conv2d_accepts(input.spec_shape(), kernel.spec_shape(), *config) ==> conv2d_args_ok(
            lift_shape(input.spec_shape(), 4),
            kernel.spec_shape(),
            *config,
        ),
    ensures
        input.spec_shape().len() > 4 ==> (r matches Err(e) && e is InvalidShape),
        input.spec_shape().len() <= 4 && lift_shape(input.spec_shape(), 4)[1] != kernel.spec_shape()[1]
            ==> (r matches Err(e) && e is InvalidShape),
        input.spec_shape().len() <= 4 && lift_shape(input.spec_shape(), 4)[1] == kernel.spec_shape()[1]
            && kernel.spec_shape().len() != 4 ==> (r matches Err(e) && e is InvalidShape),
        input.spec_shape().len() <= 4 && lift_shape(input.spec_shape(), 4)[1] == kernel.spec_shape()[1]
            && kernel.spec_shape().len() == 4 && (config.stride.0 == 0 || config.stride.1 == 0) ==> (r matches Err(
            e,
        ) && e is UnsupportedOperation),
        conv2d_accepts(input.spec_shape(), kernel.spec_shape(), *config) ==> (r matches Ok(t) && t.wf()
            && t.spec_shape() == conv_shape_2d(
            lift_shape(input.spec_shape(), 4),
            kernel.spec_shape(),
            config.stride,
            config.padding,
        ) && is_row_major(t.spec_shape(), t.spec_strides()) && t.spec_offset() == 0
            && conv2d_result(input.elems(), kernel.elems(), geom_2d(lift_shape(input.spec_shape(), 4), kernel.spec_shape(), *config), t.data())),
{
    if input.meta.shape.len() > 4 {
        return Err(TensorError::InvalidShape(msg("input must be no more than a 4D tensor [B, C, H, W]")));
    }
    let shape4 = lift_shape_vec(&input.meta.shape, 4);
    if shape4[1] != kernel.meta.shape[1] {
        return Err(TensorError::InvalidShape(msg("input channels do not match kernel channels")));
    }
    if kernel.meta.shape.len() != 4 {
        return Err(TensorError::InvalidShape(msg("kernel must be a 4D tensor [K, C, KH, KW]")));
    }
    if config.stride.0 == 0 || config.stride.1 == 0 {
        return Err(TensorError::UnsupportedOperation(msg("stride values must be greater than 0")));
    }
    let x = input.to_contiguous();
    proof {
        lemma_lift_sizes(input.spec_shape(), 4);
        crate::layout::lemma_positions_len(input.spec_shape(), input.spec_strides(), 0, input.spec_offset());
    }
    let strides4 = crate::meta::shape_to_stride(&shape4);
    proof {
        crate::fits::lemma_row_major_fits(shape4@, strides4@, x.buf@.len() as int);
    }
    let x4 = TensorView::from_parts(&x.buf, crate::meta::MetaTensor::new(shape4, strides4, 0));
    proof {
        use_type_invariant(kernel);
    }
    let kv = TensorView::from_parts(kernel.buf, kernel.meta.clone_meta());
    proof {
        crate::laws::law_row_major_elements(x.buf@, shape4@, strides4@);
        assert(x4.elems() == input.elems());
        assert(kv.elems() == kernel.elems());
    }
    let out_shape = compute_output_convolution_shape_2d(&x4.meta.shape, &kernel.meta.shape, &config.stride, &config.padding);
    let out_strides = crate::meta::shape_to_stride(&out_shape);
    let rows = conv2d_compute(&x4, &kv, config);
    proof {
        crate::fits::lemma_row_major_fits(out_shape@, out_strides@, rows@.len() as int);
    }
    let out = TensorBase::from_parts(rows, crate::meta::MetaTensor::new(out_shape, out_strides, 0));
    Ok(out)
}

// ---------------------------------------------------------------------------
// Three-dimensional convolution
// ---------------------------------------------------------------------------

/// A `[B, C, H, W, D]` input, a `[K, C, KH, KW, KD]` kernel and a configuration
/// whose windows fit, with an output size that fits in memory.
pub open spec fn conv3d_args_ok(input: Seq<usize>, kernel: Seq<usize>, cfg: ConvConfig3D) -> bool {
    &&& input.len() == 5
    &&& kernel.len() == 5
    &&& input[1] == kernel[1]
    &&& conv_dim_ok(input[2], cfg.padding.0, kernel[2], cfg.stride.0)
    &&& conv_dim_ok(input[3], cfg.padding.1, kernel[3], cfg.stride.1)
    &&& conv_dim_ok(input[4], cfg.padding.2, kernel[4], cfg.stride.2)
    &&& sizes_fit(input)
    &&& sizes_fit(kernel)
    &&& sizes_fit(conv_shape_3d(input, kernel, cfg.stride, cfg.padding))
}

/// The checks of a three-dimensional convolution pass: the input has rank at
/// most 5, the channels agree, the kernel has rank 5 and the strides are positive.
pub open spec fn conv3d_accepts(input: Seq<usize>, kernel: Seq<usize>, cfg: ConvConfig3D) -> bool {
    &&& input.len() <= 5
    &&& lift_shape(input, 5)[1] == kernel[1]
    &&& kernel.len() == 5
    &&& cfg.stride.0 > 0
    &&& cfg.stride.1 > 0
    &&& cfg.stride.2 > 0
}

/// The sizes of the convolution of a `[B, C, H, W, D]` input by a
/// `[K, C, KH, KW, KD]` kernel under `cfg`.
pub open spec fn geom_3d(input: Seq<usize>, kernel: Seq<usize>, cfg: ConvConfig3D) -> Geom3 {
    Geom3 {
        b: input[0],
        c: input[1],
        h: input[2],
        w: input[3],
        d: input[4],
        k: kernel[0],
        kh: kernel[2],
        kw: kernel[3],
        kd: kernel[4],
        s0: cfg.stride.0,
        s1: cfg.stride.1,
        s2: cfg.stride.2,
        p0: cfg.padding.0,
        p1: cfg.padding.1,
        p2: cfg.padding.2,
        oh: conv_out_len(input[2] as int, cfg.padding.0 as int, kernel[2] as int, cfg.stride.0 as int) as usize,
        ow: conv_out_len(input[3] as int, cfg.padding.1 as int, kernel[3] as int, cfg.stride.1 as int) as usize,
        od: conv_out_len(input[4] as int, cfg.padding.2 as int, kernel[4] as int, cfg.stride.2 as int) as usize,
    }
}

/// The convolution of `input` by `kernel` with zero padding, windows
/// anchored at their first element, as a row-major array.
fn conv3d_compute<T: Copy + num_traits::Float>(
    input: &TensorView<T>,
    kernel: &TensorView<T>,
    config: &ConvConfig3D,
) -> (rows: Vec<T>)
    requires
        conv3d_args_ok(input.spec_shape(), kernel.spec_shape(), *config),
    ensures
        rows@.len() == shape_size(conv_shape_3d(input.spec_shape(), kernel.spec_shape(), config.stride, config.padding)),
        conv3d_result(input.elems(), kernel.elems(), geom_3d(input.spec_shape(), kernel.spec_shape(), *config), rows@),
{
    let x = input.to_contiguous();
    let wt = kernel.to_contiguous();
    let ghost ish = input.spec_shape();
    let ghost ksh = kernel.spec_shape();
    let ghost osh = conv_shape_3d(ish, ksh, config.stride, config.padding);
    proof {
        lemma_size5(ish);
        lemma_size5(ksh);
        lemma_size5(osh);
        crate::layout::lemma_positions_len(ish, input.spec_strides(), 0, input.spec_offset());
        crate::layout::lemma_positions_len(ksh, kernel.spec_strides(), 0, kernel.spec_offset());
    }
    let oh = out_len(input.meta.shape[2], config.padding.0, kernel.meta.shape[2], config.stride.0);
    let ow = out_len(input.meta.shape[3], config.padding.1, kernel.meta.shape[3], config.stride.1);
    let od = out_len(input.meta.shape[4], config.padding.2, kernel.meta.shape[4], config.stride.2);
    let g = Geom3 {
        b: input.meta.shape[0],
        c: input.meta.shape[1],
        h: input.meta.shape[2],
        w: input.meta.shape[3],
        d: input.meta.shape[4],
        k: kernel.meta.shape[0],
        kh: kernel.meta.shape[2],
        kw: kernel.meta.shape[3],
        kd: kernel.meta.shape[4],
        s0: config.stride.0,
        s1: config.stride.1,
        s2: config.stride.2,
        p0: config.padding.0,
        p1: config.padding.1,
        p2: config.padding.2,
        oh,
        ow,
        od,
    };
    assert(g == geom_3d(ish, ksh, *config));
    conv3d_rows(&x.buf, &wt.buf, &g)
}

/// Writes the convolution of `input` by `kernel` into `output`, in row-major
/// order of its layout
/// (zero padding, windows anchored at their first element); the rest of the
/// output's buffer is unchanged.
pub fn temp_conv3d_fallback<T: Copy + num_traits::Float>(
    input: TensorView<T>,
    kernel: TensorView<T>,
    config: &ConvConfig3D,
    output: &mut TensorViewMut<T>,
) -> (r: Result<(), TensorError>)
    requires
        conv3d_args_ok(input.spec_shape(), kernel.spec_shape(), *config),
        old(output).wf(),
        old(output).spec_shape() == conv_shape_3d(
            input.spec_shape(),
            kernel.spec_shape(),
            config.stride,
            config.padding,
        ),
    ensures
        r is Ok,
        final(output).wf(),
        final(output).spec_shape() == old(output).spec_shape(),
        final(output).spec_strides() == old(output).spec_strides(),
        final(output).spec_offset() == old(output).spec_offset(),
        final(output).data().len() == old(output).data().len(),
        forall|i: int|
            0 <= i < old(output).data().len() && !old(output).spec_positions().contains(i)
                ==> final(output).data()[i] == old(output).data()[i],
        distinct(old(output).spec_positions()) ==> conv3d_result(
            input.elems(),
            kernel.elems(),
            geom_3d(input.spec_shape(), kernel.spec_shape(), *config),
            final(output).elems(),
        ),
{
    let rows = conv3d_compute(&input, &kernel, config);
    output.write_elems(&rows);
    Ok(())
}

/// Convolution of `input` by `kernel`: the input is raised to rank 5 by
/// leading dimensions of size 1 (`[B, C, H, W, D]`), the kernel is
/// `[K, C, KH, KW, KD]`, and the result is a row-major `[B, K, OH, OW, OD]` tensor.
///
/// Errors: `InvalidShape` when the input has rank above 5, when the channels
/// differ, or when the kernel does not have rank 5; `UnsupportedOperation`
/// when a stride is 0 (checked in this order).
pub fn conv3d_view<T: Copy + num_traits::Float>(
    input: &TensorView<T>,
    kernel: &TensorView<T>,
    config: &ConvConfig3D,
) -> (r: Result<TensorBase<T>, TensorError>)
    requires
        kernel.spec_shape().len() >= 2,
        sizes_fit(input.spec_shape()),
        sizes_fit(kernel.spec_shape()),
        conv3d_accepts(input.spec_shape(), kernel.spec_shape(), *config) ==> conv3d_args_ok(
            lift_shape(input.spec_shape(), 5),
            kernel.spec_shape(),
            *config,
        ),
    ensures
        input.spec_shape().len() > 5 ==> (r matches Err(e) && e is InvalidShape),
        input.spec_shape().len() <= 5 && lift_shape(input.spec_shape(), 5)[1] != kernel.spec_shape()[1]
            ==> (r matches Err(e) && e is InvalidShape),
        input.spec_shape().len() <= 5 && lift_shape(input.spec_shape(), 5)[1] == kernel.spec_shape()[1]
            && kernel.spec_shape().len() != 5 ==> (r matches Err(e) && e is InvalidShape),
        input.spec_shape().len() <= 5 && lift_shape(input.spec_shape(), 5)[1] == kernel.spec_shape()[1]
            && kernel.spec_shape().len() == 5 && (config.stride.0 == 0 || config.stride.1 == 0 || config.stride.2 == 0) ==> (r matches Err(
            e,
        ) && e is UnsupportedOperation),
        conv3d_accepts(input.spec_shape(), kernel.spec_shape(), *config) ==> (r matches Ok(t) && t.wf()
            && t.spec_shape() == conv_shape_3d(
            lift_shape(input.spec_shape(), 5),
            kernel.spec_shape(),
            config.stride,
            config.padding,
        ) && is_row_major(t.spec_shape(), t.spec_strides()) && t.spec_offset() == 0
            && conv3d_result(input.elems(), kernel.elems(), geom_3d(lift_shape(input.spec_shape(), 5), kernel.spec_shape(), *config), t.data())),
{
    if input.meta.shape.len() > 5 {
        return Err(TensorError::InvalidShape(msg("input must be no more than a 5D tensor [B, C, H, W, D]")));
    }
    let shape5 = lift_shape_vec(&input.meta.shape, 5);
    if shape5[1] != kernel.meta.shape[1] {
        return Err(TensorError::InvalidShape(msg("input channels do not match kernel channels")));
    }
    if kernel.meta.shape.len() != 5 {
        return Err(TensorError::InvalidShape(msg("kernel must be a 5D tensor [K, C, KH, KW, KD]")));
    }
    if config.stride.0 == 0 || config.stride.1 == 0 || config.stride.2 == 0 {
        return Err(TensorError::UnsupportedOperation(msg("stride values must be greater than 0")));
    }
    let x = input.to_contiguous();
    proof {
        lemma_lift_sizes(input.spec_shape(), 5);
        crate::layout::lemma_positions_len(input.spec_shape(), input.spec_strides(), 0, input.spec_offset());
    }
    let strides5 = crate::meta::shape_to_stride(&shape5);
    proof {
        crate::fits::lemma_row_major_fits(shape5@, strides5@, x.buf@.len() as int);
    }
    let x5 = TensorView::from_parts(&x.buf, crate::meta::MetaTensor::new(shape5, strides5, 0));
    proof {
        use_type_invariant(kernel);
    }
    let kv = TensorView::from_parts(kernel.buf, kernel.meta.clone_meta());
    proof {
        crate::laws::law_row_major_elements(x.buf@, shape5@, strides5@);
        assert(x5.elems() == input.elems());
        assert(kv.elems() == kernel.elems());
    }
    let out_shape = compute_output_convolution_shape_3d(&x5.meta.shape, &kernel.meta.shape, &config.stride, &config.padding);
    let out_strides = crate::meta::shape_to_stride(&out_shape);
    let rows = conv3d_compute(&x5, &kv, config);
    proof {
        crate::fits::lemma_row_major_fits(out_shape@, out_strides@, rows@.len() as int);
    }
    let out = TensorBase::from_parts(rows, crate::meta::MetaTensor::new(out_shape, out_strides, 0));
    Ok(out)
}

impl<T> TensorBase<T> {
    /// Convolution by `kernel` (see `conv2d_view`): the input is raised to
    /// rank 4 by leading dimensions of size 1, the result is a row-major
    /// `[B, K, OH, OW]` tensor.
    ///
    /// Errors: `InvalidShape` when the input has rank above 4, when the
    /// channels differ, or when the kernel does not have rank 4;
    /// `UnsupportedOperation` when a stride is 0.
    pub fn conv2d<K: AsView<T>>(&self, kernel: &K, config: &ConvConfig2D) -> (r: Result<TensorBase<T>, TensorError>)
        where T: Copy + num_traits::Float,
        requires
            self.wf(),
            kernel.view_wf(),
            kernel.view_shape().len() >= 2,
            sizes_fit(self.view_shape()),
            sizes_fit(kernel.view_shape()),
            conv2d_accepts(self.view_shape(), kernel.view_shape(), *config) ==> conv2d_args_ok(
                lift_shape(self.view_shape(), 4),
                kernel.view_shape(),
                *config,
            ),
        ensures
            self.view_shape().len() > 4 ==> (r matches Err(e) && e is InvalidShape),
            self.view_shape().len() <= 4 && lift_shape(self.view_shape(), 4)[1] != kernel.view_shape()[1]
                ==> (r matches Err(e) && e is InvalidShape),
            self.view_shape().len() <= 4 && lift_shape(self.view_shape(), 4)[1] == kernel.view_shape()[1]
                && kernel.view_shape().len() != 4 ==> (r matches Err(e) && e is InvalidShape),
            self.view_shape().len() <= 4 && lift_shape(self.view_shape(), 4)[1] == kernel.view_shape()[1]
                && kernel.view_shape().len() == 4 && (config.stride.0 == 0 || config.stride.1 == 0) ==> (r matches Err(
                e,
            ) && e is UnsupportedOperation),
            conv2d_accepts(self.view_shape(), kernel.view_shape(), *config) ==> (r matches Ok(t) && t.wf()
                && t.spec_shape() == conv_shape_2d(
                lift_shape(self.view_shape(), 4),
                kernel.view_shape(),
                config.stride,
                config.padding,
            ) && is_row_major(t.spec_shape(), t.spec_strides()) && t.spec_offset() == 0
                && conv2d_result(
                view_elems(self.view_data(), self.view_shape(), self.view_strides(), self.view_offset()),
                view_elems(kernel.view_data(), kernel.view_shape(), kernel.view_strides(), kernel.view_offset()),
                geom_2d(lift_shape(self.view_shape(), 4), kernel.view_shape(), *config),
                t.data(),
            )),
    {
        let iv = self.view();
        let kv = kernel.view();
        conv2d_view(&iv, &kv, config)
    }

    /// Convolution by `kernel` (see `conv3d_view`): the input is raised to
    /// rank 5 by leading dimensions of size 1, the result is a row-major
    /// `[B, K, OH, OW, OD]` tensor.
    ///
    /// Errors: `InvalidShape` when the input has rank above 5, when the
    /// channels differ, or when the kernel does not have rank 5;
    /// `UnsupportedOperation` when a stride is 0.
    pub fn conv3d<K: AsView<T>>(&self, kernel: &K, config: &ConvConfig3D) -> (r: Result<TensorBase<T>, TensorError>)
        where T: Copy + num_traits::Float,
        requires
            self.wf(),
            kernel.view_wf(),
            kernel.view_shape().len() >= 2,
            sizes_fit(self.view_shape()),
            sizes_fit(kernel.view_shape()),
            conv3d_accepts(self.view_shape(), kernel.view_shape(), *config) ==> conv3d_args_ok(
                lift_shape(self.view_shape(), 5),
                kernel.view_shape(),
                *config,
            ),
        ensures
            self.view_shape().len() > 5 ==> (r matches Err(e) && e is InvalidShape),
            self.view_shape().len() <= 5 && lift_shape(self.view_shape(), 5)[1] != kernel.view_shape()[1]
                ==> (r matches Err(e) && e is InvalidShape),
            self.view_shape().len() <= 5 && lift_shape(self.view_shape(), 5)[1] == kernel.view_shape()[1]
                && kernel.view_shape().len() != 5 ==> (r matches Err(e) && e is InvalidShape),
            self.view_shape().len() <= 5 && lift_shape(self.view_shape(), 5)[1] == kernel.view_shape()[1]
                && kernel.view_shape().len() == 5 && (config.stride.0 == 0 || config.stride.1 == 0
                || config.stride.2 == 0) ==> (r matches Err(e) && e is UnsupportedOperation),
            conv3d_accepts(self.view_shape(), kernel.view_shape(), *config) ==> (r matches Ok(t) && t.wf()
                && t.spec_shape() == conv_shape_3d(
                lift_shape(self.view_shape(), 5),
                kernel.view_shape(),
                config.stride,
                config.padding,
            ) && is_row_major(t.spec_shape(), t.spec_strides()) && t.spec_offset() == 0
                && conv3d_result(
                view_elems(self.view_data(), self.view_shape(), self.view_strides(), self.view_offset()),
                view_elems(kernel.view_data(), kernel.view_shape(), kernel.view_strides(), kernel.view_offset()),
                geom_3d(lift_shape(self.view_shape(), 5), kernel.view_shape(), *config),
                t.data(),
            )),
    {
        let iv = self.view();
        let kv = kernel.view();
        conv3d_view(&iv, &kv, config)
    }
}

impl<'a, T> TensorView<'a, T> {
    /// Convolution by `kernel` (see `conv2d_view`): the input is raised to
    /// rank 4 by leading dimensions of size 1, the result is a row-major
    /// `[B, K, OH, OW]` tensor.
    ///
    /// Errors: `InvalidShape` when the input has rank above 4, when the
    /// channels differ, or when the kernel does not have rank 4;
    /// `UnsupportedOperation` when a stride is 0.
    pub fn conv2d<K: AsView<T>>(&self, kernel: &K, config: &ConvConfig2D) -> (r: Result<TensorBase<T>, TensorError>)
        where T: Copy + num_traits::Float,
        requires
            kernel.view_wf(),
            kernel.view_shape().len() >= 2,
            sizes_fit(self.view_shape()),
            sizes_fit(kernel.view_shape()),
            conv2d_accepts(self.view_shape(), kernel.view_shape(), *config) ==> conv2d_args_ok(
                lift_shape(self.view_shape(), 4),
                kernel.view_shape(),
                *config,
            ),
        ensures
            self.view_shape().len() > 4 ==> (r matches Err(e) && e is InvalidShape),
            self.view_shape().len() <= 4 && lift_shape(self.view_shape(), 4)[1] != kernel.view_shape()[1]
                ==> (r matches Err(e) && e is InvalidShape),
            self.view_shape().len() <= 4 && lift_shape(self.view_shape(), 4)[1] == kernel.view_shape()[1]
                && kernel.view_shape().len() != 4 ==> (r matches Err(e) && e is InvalidShape),
            self.view_shape().len() <= 4 && lift_shape(self.view_shape(), 4)[1] == kernel.view_shape()[1]
                && kernel.view_shape().len() == 4 && (config.stride.0 == 0 || config.stride.1 == 0) ==> (r matches Err(
                e,
            ) && e is UnsupportedOperation),
            conv2d_accepts(self.view_shape(), kernel.view_shape(), *config) ==> (r matches Ok(t) && t.wf()
                && t.spec_shape() == conv_shape_2d(
                lift_shape(self.view_shape(), 4),
                kernel.view_shape(),
                config.stride,
                config.padding,
            ) && is_row_major(t.spec_shape(), t.spec_strides()) && t.spec_offset() == 0
                && conv2d_result(
                view_elems(self.view_data(), self.view_shape(), self.view_strides(), self.view_offset()),
                view_elems(kernel.view_data(), kernel.view_shape(), kernel.view_strides(), kernel.view_offset()),
                geom_2d(lift_shape(self.view_shape(), 4), kernel.view_shape(), *config),
                t.data(),
            )),
    {
        let iv = self.view();
        let kv = kernel.view();
        conv2d_view(&iv, &kv, config)
    }

    /// Convolution by `kernel` (see `conv3d_view`): the input is raised to
    /// rank 5 by leading dimensions of size 1, the result is a row-major
    /// `[B, K, OH, OW, OD]` tensor.
    ///
    /// Errors: `InvalidShape` when the input has rank above 5, when the
    /// channels differ, or when the kernel does not have rank 5;
    /// `UnsupportedOperation` when a stride is 0.
    pub fn conv3d<K: AsView<T>>(&self, kernel: &K, config: &ConvConfig3D) -> (r: Result<TensorBase<T>, TensorError>)
        where T: Copy + num_traits::Float,
        requires
            kernel.view_wf(),
            kernel.view_shape().len() >= 2,
            sizes_fit(self.view_shape()),
            sizes_fit(kernel.view_shape()),
            conv3d_accepts(self.view_shape(), kernel.view_shape(), *config) ==> conv3d_args_ok(
                lift_shape(self.view_shape(), 5),
                kernel.view_shape(),
                *config,
            ),
        ensures
            self.view_shape().len() > 5 ==> (r matches Err(e) && e is InvalidShape),
            self.view_shape().len() <= 5 && lift_shape(self.view_shape(), 5)[1] != kernel.view_shape()[1]
                ==> (r matches Err(e) && e is InvalidShape),
            self.view_shape().len() <= 5 && lift_shape(self.view_shape(), 5)[1] == kernel.view_shape()[1]
                && kernel.view_shape().len() != 5 ==> (r matches Err(e) && e is InvalidShape),
            self.view_shape().len() <= 5 && lift_shape(self.view_shape(), 5)[1] == kernel.view_shape()[1]
                && kernel.view_shape().len() == 5 && (config.stride.0 == 0 || config.stride.1 == 0
                || config.stride.2 == 0) ==> (r matches Err(e) && e is UnsupportedOperation),
            conv3d_accepts(self.view_shape(), kernel.view_shape(), *config) ==> (r matches Ok(t) && t.wf()
                && t.spec_shape() == conv_shape_3d(
                lift_shape(self.view_shape(), 5),
                kernel.view_shape(),
                config.stride,
                config.padding,
            ) && is_row_major(t.spec_shape(), t.spec_strides()) && t.spec_offset() == 0
                && conv3d_result(
                view_elems(self.view_data(), self.view_shape(), self.view_strides(), self.view_offset()),
                view_elems(kernel.view_data(), kernel.view_shape(), kernel.view_strides(), kernel.view_offset()),
                geom_3d(lift_shape(self.view_shape(), 5), kernel.view_shape(), *config),
                t.data(),
            )),
    {
        let iv = self.view();
        let kv = kernel.view();
        conv3d_view(&iv, &kv, config)
    }
}

impl<'a, T> TensorViewMut<'a, T> {
    /// Convolution by `kernel` (see `conv2d_view`): the input is raised to
    /// rank 4 by leading dimensions of size 1, the result is a row-major
    /// `[B, K, OH, OW]` tensor.
    ///
    /// Errors: `InvalidShape` when the input has rank above 4, when the
    /// channels differ, or when the kernel does not have rank 4;
    /// `UnsupportedOperation` when a stride is 0.
    pub fn conv2d<K: AsView<T>>(&self, kernel: &K, config: &ConvConfig2D) -> (r: Result<TensorBase<T>, TensorError>)
        where T: Copy + num_traits::Float,
        requires
            self.wf(),
            kernel.view_wf(),
            kernel.view_shape().len() >= 2,
            sizes_fit(self.view_shape()),
            sizes_fit(kernel.view_shape()),
            conv2d_accepts(self.view_shape(), kernel.view_shape(), *config) ==> conv2d_args_ok(
                lift_shape(self.view_shape(), 4),
                kernel.view_shape(),
                *config,
            ),
        ensures
            self.view_shape().len() > 4 ==> (r matches Err(e) && e is InvalidShape),
            self.view_shape().len() <= 4 && lift_shape(self.view_shape(), 4)[1] != kernel.view_shape()[1]
                ==> (r matches Err(e) && e is InvalidShape),
            self.view_shape().len() <= 4 && lift_shape(self.view_shape(), 4)[1] == kernel.view_shape()[1]
                && kernel.view_shape().len() != 4 ==> (r matches Err(e) && e is InvalidShape),
            self.view_shape().len() <= 4 && lift_shape(self.view_shape(), 4)[1] == kernel.view_shape()[1]
                && kernel.view_shape().len() == 4 && (config.stride.0 == 0 || config.stride.1 == 0) ==> (r matches Err(
                e,
            ) && e is UnsupportedOperation),
            conv2d_accepts(self.view_shape(), kernel.view_shape(), *config) ==> (r matches Ok(t) && t.wf()
                && t.spec_shape() == conv_shape_2d(
                lift_shape(self.view_shape(), 4),
                kernel.view_shape(),
                config.stride,
                config.padding,
            ) && is_row_major(t.spec_shape(), t.spec_strides()) && t.spec_offset() == 0
                && conv2d_result(
                view_elems(self.view_data(), self.view_shape(), self.view_strides(), self.view_offset()),
                view_elems(kernel.view_data(), kernel.view_shape(), kernel.view_strides(), kernel.view_offset()),
                geom_2d(lift_shape(self.view_shape(), 4), kernel.view_shape(), *config),
                t.data(),
            )),
    {
        let iv = self.view();
        let kv = kernel.view();
        conv2d_view(&iv, &kv, config)
    }

    /// Convolution by `kernel` (see `conv3d_view`): the input is raised to
    /// rank 5 by leading dimensions of size 1, the result is a row-major
    /// `[B, K, OH, OW, OD]` tensor.
    ///
    /// Errors: `InvalidShape` when the input has rank above 5, when the
    /// channels differ, or when the kernel does not have rank 5;
    /// `UnsupportedOperation` when a stride is 0.
    pub fn conv3d<K: AsView<T>>(&self, kernel: &K, config: &ConvConfig3D) -> (r: Result<TensorBase<T>, TensorError>)
        where T: Copy + num_traits::Float,
        requires
            self.wf(),
            kernel.view_wf(),
            kernel.view_shape().len() >= 2,
            sizes_fit(self.view_shape()),
            sizes_fit(kernel.view_shape()),
            conv3d_accepts(self.view_shape(), kernel.view_shape(), *config) ==> conv3d_args_ok(
                lift_shape(self.view_shape(), 5),
                kernel.view_shape(),
                *config,
            ),
        ensures
            self.view_shape().len() > 5 ==> (r matches Err(e) && e is InvalidShape),
            self.view_shape().len() <= 5 && lift_shape(self.view_shape(), 5)[1] != kernel.view_shape()[1]
                ==> (r matches Err(e) && e is InvalidShape),
            self.view_shape().len() <= 5 && lift_shape(self.view_shape(), 5)[1] == kernel.view_shape()[1]
                && kernel.view_shape().len() != 5 ==> (r matches Err(e) && e is InvalidShape),
            self.view_shape().len() <= 5 && lift_shape(self.view_shape(), 5)[1] == kernel.view_shape()[1]
                && kernel.view_shape().len() == 5 && (config.stride.0 == 0 || config.stride.1 == 0
                || config.stride.2 == 0) ==> (r matches Err(e) && e is UnsupportedOperation),
            conv3d_accepts(self.view_shape(), kernel.view_shape(), *config) ==> (r matches Ok(t) && t.wf()
                && t.spec_shape() == conv_shape_3d(
                lift_shape(self.view_shape(), 5),
                kernel.view_shape(),
                config.stride,
                config.padding,
            ) && is_row_major(t.spec_shape(), t.spec_strides()) && t.spec_offset() == 0
                && conv3d_result(
                view_elems(self.view_data(), self.view_shape(), self.view_strides(), self.view_offset()),
                view_elems(kernel.view_data(), kernel.view_shape(), kernel.view_strides(), kernel.view_offset()),
                geom_3d(lift_shape(self.view_shape(), 5), kernel.view_shape(), *config),
                t.data(),
            )),
    {
        let iv = self.view();
        let kv = kernel.view();
        conv3d_view(&iv, &kv, config)
    }
}

} // verus!

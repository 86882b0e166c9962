//! Batched matrix products, dot and outer products, and the classification
//! of the memory layout of the matrices of a tensor.
use vstd::prelude::*;
use crate::access::{view_elems, AsView};
use crate::conv::{filled_vec, idx3, index4, lemma_idx3_before, lemma_prefix_products, lemma_size_from_suffix, lex_before3};
use crate::unary::{float_add, float_mul, float_zero, product_of, product_value, sum_of, sum_value, zero_of, zero_value};
use crate::error::{msg, TensorError};
use crate::layout::{shape_size, size_from};
use crate::meta::{is_row_major, shape_size_of, shape_to_stride, sizes_fit, MetaTensor};
use crate::tensor::{TensorBase, TensorView, TensorViewMut};

verus! {

broadcast use crate::tensor::group_tensor_parts;

/// How the last two dimensions of a tensor are laid out.
#[derive(Clone, Copy, Debug, PartialEq, Eq, Structural)]
pub enum ContiguityTypes {
    /// Rows are contiguous (the last stride is 1).
    RowMajor,
    /// Columns are contiguous (the second-to-last stride is 1).
    ColumnMajor,
    /// Neither, or batch dimensions that cannot be merged into one.
    Strided,
}

/// The batch dimensions `d..` can be walked as one dimension: each stride is
/// the next one times the next length.
pub open spec fn batch_is_flat(shape: Seq<usize>, strides: Seq<isize>) -> bool {
    forall|i: int|
        0 <= i < shape.len() - 1 ==> #[trigger] strides[i] as int == (strides[i + 1] as int) * (shape[i
            + 1] as int)
}

/// The layout class of the matrices of a tensor.
pub open spec fn contiguity_of(shape: Seq<usize>, strides: Seq<isize>) -> ContiguityTypes {
    if shape.len() < 2 {
        ContiguityTypes::RowMajor
    } else {
        let n = shape.len();
        let inner = if strides[n - 1] == 1 {
            ContiguityTypes::RowMajor
        } else if strides[n - 2] == 1 {
            ContiguityTypes::ColumnMajor
        } else {
            ContiguityTypes::Strided
        };
        if n - 2 > 1 && !batch_is_flat(shape.subrange(0, n - 2), strides.subrange(0, n - 2)) {
            ContiguityTypes::Strided
        } else {
            inner
        }
    }
}

/// Whether consecutive batch dimensions can be merged.
fn batch_flat(shape: &Vec<usize>, strides: &Vec<isize>, nb: usize) -> (b: bool)
    requires
        nb <= shape@.len(),
        shape@.len() == strides@.len(),
    ensures
        b == batch_is_flat(shape@.subrange(0, nb as int), strides@.subrange(0, nb as int)),
{
    if nb == 0 {
        return true;
    }
    let mut i: usize = 0;
    while i + 1 < nb
        invariant
            i < nb,
            nb <= shape@.len(),
            shape@.len() == strides@.len(),
            forall|j: int|
                0 <= j < i ==> #[trigger] strides@[j] as int == (strides@[j + 1] as int) * (shape@[j + 1] as int),
        decreases nb - i,
    {
        let a: i128 = strides[i + 1] as i128;
        let c: i128 = shape[i + 1] as i128;
        assert(i128::MIN <= a * c <= i128::MAX) by (nonlinear_arith)
            requires
                -0x8000_0000_0000_0000 <= a < 0x8000_0000_0000_0000,
                0 <= c <= 0xffff_ffff_ffff_ffff,
        {
            assert(a * c <= 0x7fff_ffff_ffff_ffff * 0xffff_ffff_ffff_ffff);
            assert(a * c >= -0x8000_0000_0000_0000 * 0xffff_ffff_ffff_ffff);
        }
        let prod: i128 = a * c;
        if (strides[i] as i128) != prod {
            assert(!(strides@.subrange(0, nb as int)[i as int] as int == (strides@.subrange(0, nb as int)[i + 1] as int)
                * (shape@.subrange(0, nb as int)[i + 1] as int)));
            return false;
        }
        i = i + 1;
    }
    assert forall|j: int| 0 <= j < nb - 1 implies #[trigger] strides@.subrange(0, nb as int)[j] as int == (strides@.subrange(
        0,
        nb as int,
    )[j + 1] as int) * (shape@.subrange(0, nb as int)[j + 1] as int) by {
        assert(strides@[j] as int == (strides@[j + 1] as int) * (shape@[j + 1] as int));
    }
    true
}

/// The layout class of the matrices of a tensor: row-major when the last
/// stride is 1, column-major when the second-to-last is, and strided
/// otherwise or when several batch dimensions cannot be merged. Tensors of
/// rank below 2 count as row-major.
pub fn contiguity_type(meta: &MetaTensor) -> (c: ContiguityTypes)
    requires
        meta.shape@.len() == meta.strides@.len(),
    ensures
        c == contiguity_of(meta.shape@, meta.strides@),
{
    let shape = &meta.shape;
    let strides = &meta.strides;
    if shape.len() < 2 {
        return ContiguityTypes::RowMajor;
    }
    let n = shape.len();
    let inner = if strides[n - 1] == 1 {
        ContiguityTypes::RowMajor
    } else if strides[n - 2] == 1 {
        ContiguityTypes::ColumnMajor
    } else {
        ContiguityTypes::Strided
    };
    if n - 2 > 1 {
        if !batch_flat(shape, strides, n - 2) {
            ContiguityTypes::Strided
        } else {
            inner
        }
    } else {
        inner
    }
}

// ---------------------------------------------------------------------------
// Shapes
// ---------------------------------------------------------------------------

/// The batch dimensions: all but the last two.
pub open spec fn batch_dims(shape: Seq<usize>) -> Seq<usize> {
    shape.subrange(0, shape.len() - 2)
}

/// Shape of the product of `(..., M, K)` by `(..., K, N)`: `(..., M, N)`.
pub open spec fn matmul_shape(l: Seq<usize>, r: Seq<usize>) -> Seq<usize> {
    batch_dims(l) + seq![l[l.len() - 2], r[r.len() - 1]]
}

/// The checks of a matrix product pass: both ranks are at least 2 and equal,
/// the batch dimensions agree, and the inner dimensions agree.
pub open spec fn matmul_accepts(l: Seq<usize>, r: Seq<usize>) -> bool {
    &&& l.len() >= 2
    &&& r.len() >= 2
    &&& l.len() == r.len()
    &&& batch_dims(l) == batch_dims(r)
    &&& l[l.len() - 1] == r[r.len() - 2]
}

/// Sizes multiply over concatenation.
pub proof fn lemma_size_concat(a: Seq<usize>, b: Seq<usize>, i: int)
    requires
        0 <= i <= a.len(),
    ensures
        size_from(a + b, i) == size_from(a, i) * shape_size(b),
    decreases a.len() - i,
{
    if i == a.len() {
        lemma_size_from_suffix(a, b, 0);
        assert(a.len() + 0 == i);
        assert(size_from(a, i) == 1);
        assert(size_from(a + b, i) == size_from(b, 0));
        assert(1 * shape_size(b) == shape_size(b));
    } else {
        lemma_size_concat(a, b, i + 1);
        assert((a + b)[i] == a[i]);
        assert(size_from(a + b, i) == ((a + b)[i] as nat) * size_from(a + b, i + 1));
        assert(size_from(a, i) == (a[i] as nat) * size_from(a, i + 1));
        assert((a[i] as nat) * (size_from(a, i + 1) * shape_size(b)) == ((a[i] as nat) * size_from(a, i + 1))
            * shape_size(b)) by (nonlinear_arith);
    }
}

/// The size of a shape of rank at least 2: batch size times the two matrix dimensions.
proof fn lemma_size_matrices(s: Seq<usize>)
    requires
        s.len() >= 2,
    ensures
        shape_size(s) == shape_size(batch_dims(s)) * s[s.len() - 2] * s[s.len() - 1],
{
    let b = batch_dims(s);
    let t = seq![s[s.len() - 2], s[s.len() - 1]];
    assert(s =~= b + t);
    lemma_size_concat(b, t, 0);
    assert(size_from(t, 2) == 1);
    assert(size_from(t, 1) == (t[1] as nat) * size_from(t, 2));
    assert(size_from(t, 0) == (t[0] as nat) * size_from(t, 1));
    assert(shape_size(t) == (s[s.len() - 2] as nat) * (s[s.len() - 1] as nat));
    assert(shape_size(b) * ((s[s.len() - 2] as nat) * (s[s.len() - 1] as nat)) == shape_size(b) * s[s.len() - 2]
        * s[s.len() - 1]) by (nonlinear_arith);
}

/// The batch dimensions as a vector.
fn batch_vec(shape: &Vec<usize>) -> (r: Vec<usize>)
    requires
        shape@.len() >= 2,
    ensures
        r@ == batch_dims(shape@),
{
    let n = shape.len() - 2;
    let mut r: Vec<usize> = Vec::new();
    let mut i: usize = 0;
    while i < n
        invariant
            i <= n,
            n == shape@.len() - 2,
            r@ == shape@.subrange(0, i as int),
        decreases n - i,
    {
        r.push(shape[i]);
        i = i + 1;
        assert(r@ =~= shape@.subrange(0, i as int));
    }
    r
}

/// Whether two shapes are equal.
pub(crate) fn same_shape(a: &Vec<usize>, b: &Vec<usize>) -> (r: bool)
    ensures
        r == (a@ == b@),
{
    if a.len() != b.len() {
        return false;
    }
    let mut i: usize = 0;
    while i < a.len()
        invariant
            a@.len() == b@.len(),
            i <= a@.len(),
            forall|j: int| 0 <= j < i ==> a@[j] == b@[j],
        decreases a@.len() - i,
    {
        if a[i] != b[i] {
            return false;
        }
        i = i + 1;
    }
    assert(a@ =~= b@);
    true
}

// ---------------------------------------------------------------------------
// Kernels
// ---------------------------------------------------------------------------

/// Calls `format!` for the message of operands whose ranks differ; nothing
/// is claimed of the text.
#[verifier::external_body]
fn rank_mismatch_text(lr: usize, rr: usize) -> String {
    format!("Both tensors must have the same rank >= 2, got lhs rank {} and rhs rank {}", lr, rr)
}

/// Calls `format!` for the message of operands whose batch dimensions
/// differ; nothing is claimed of the text.
#[verifier::external_body]
fn batch_mismatch_text(l: &Vec<usize>, r: &Vec<usize>) -> String {
    format!("Batch dimensions must match for matmul, got lhs batch dims {:?} and rhs batch dims {:?}", l, r)
}

/// Calls `format!` for the message of operands whose inner dimensions
/// differ; nothing is claimed of the text.
#[verifier::external_body]
fn inner_mismatch_text(k_l: usize, k_r: usize) -> String {
    format!("Inner matrix dimensions must match for matmul, got lhs K={} and rhs K={}", k_l, k_r)
}

/// `prods` and `sums` are the products `x[i] * y[i]` and their running sums
/// from a float zero, each step by the float operations.
pub open spec fn product_sums<T: num_traits::Float>(x: Seq<T>, y: Seq<T>, prods: Seq<T>, sums: Seq<T>) -> bool {
    &&& prods.len() == x.len()
    &&& sums.len() == x.len() + 1
    &&& zero_value(sums[0])
    &&& forall|i: int|
        0 <= i < x.len() ==> product_value(x[i], y[i], #[trigger] prods[i]) && sum_value(
            sums[i],
            prods[i],
            sums[i + 1],
        )
}

/// `r` is the sum, in increasing order from a float zero, of the products
/// `x[i] * y[i]`, each step by the float operations.
pub open spec fn dot_value<T: num_traits::Float>(x: Seq<T>, y: Seq<T>, r: T) -> bool {
    exists|prods: Seq<T>, sums: Seq<T>| #[trigger] product_sums(x, y, prods, sums) && sums.last() == r
}

/// Row `i` of matrix `bi` of a row-major `(b, m, k)` array.
pub open spec fn mat_row<T>(x: Seq<T>, m: int, k: int, bi: int, i: int) -> Seq<T> {
    Seq::new(k as nat, |kk: int| x[idx3(bi, i, kk, m, k)])
}

/// Column `j` of matrix `bi` of a row-major `(b, k, n)` array.
pub open spec fn mat_col<T>(y: Seq<T>, k: int, n: int, bi: int, j: int) -> Seq<T> {
    Seq::new(k as nat, |kk: int| y[idx3(bi, kk, j, k, n)])
}

/// `out` is the row-major `(b, m, n)` batched product of the row-major
/// `(b, m, k)` array `x` by the row-major `(b, k, n)` array `y`: entry
/// `(bi, i, j)` is the dot product of row `i` and column `j` of matrix `bi`.
pub open spec fn matmul_values<T: num_traits::Float>(x: Seq<T>, y: Seq<T>, b: int, m: int, k: int, n: int, out: Seq<T>) -> bool {
    &&& out.len() == b * m * n
    &&& forall|bi: int, i: int, j: int|
        0 <= bi < b && 0 <= i < m && 0 <= j < n ==> #[trigger] dot_value(
            mat_row(x, m, k, bi, i),
            mat_col(y, k, n, bi, j),
            out[idx3(bi, i, j, m, n)],
        )
}

/// `out` is the row-major `(m, n)` outer product of `x` by `y`: entry `(i, j)`
/// is a float zero plus `x[i] * y[j]`, each step by the float operations.
pub open spec fn outer_values<T: num_traits::Float>(x: Seq<T>, y: Seq<T>, out: Seq<T>) -> bool {
    &&& out.len() == x.len() * y.len()
    &&& forall|i: int, j: int|
        0 <= i < x.len() && 0 <= j < y.len() ==> #[trigger] zero_plus_product(x[i], y[j], out[i * y.len() + j])
}

/// `v` is a float zero plus `a * b`, each step by the float operations.
pub open spec fn zero_plus_product<T: num_traits::Float>(a: T, b: T, v: T) -> bool {
    exists|z: T, p: T| zero_value(z) && product_value(a, b, p) && sum_value(z, p, v)
}

/// The product of a row-major `(b, m, k)` and a row-major `(b, k, n)` array
/// for the sizes of `lhs` and `rhs`.
pub open spec fn matmul_result<T: num_traits::Float>(
    lhs: Seq<T>,
    ls: Seq<usize>,
    rhs: Seq<T>,
    rs: Seq<usize>,
    out: Seq<T>,
) -> bool {
    matmul_values(
        lhs,
        rhs,
        shape_size(batch_dims(ls)) as int,
        ls[ls.len() - 2] as int,
        ls[ls.len() - 1] as int,
        rs[rs.len() - 1] as int,
        out,
    )
}

/// `(b, m, k) @ (b, k, n)` on row-major arrays: a row-major `(b, m, n)` array
/// of sums over the inner index, taken in increasing order from zero.
fn matmul_rows<T: Copy + num_traits::Float>(
    x: &Vec<T>,
    y: &Vec<T>,
    b: usize,
    m: usize,
    k: usize,
    n: usize,
    total: usize,
) -> (out: Vec<T>)
    requires
        total == b * m * n,
        x@.len() == b * m * k,
        y@.len() == b * k * n,
        b * m * k <= usize::MAX,
        b * k * n <= usize::MAX,
        b * m * n <= usize::MAX,
    ensures
        out@.len() == b * m * n,
        matmul_values(x@, y@, b as int, m as int, k as int, n as int, out@),
{
    let zero = zero_of::<T>();
    let mut out = filled_vec(zero, total);
    let mut bi: usize = 0;
    while bi < b
        invariant
            x@.len() == b * m * k,
            y@.len() == b * k * n,
            b * m * k <= usize::MAX,
            b * k * n <= usize::MAX,
            b * m * n <= usize::MAX,
            total == b * m * n,
            out@.len() == total,
            zero_value(zero),
            bi <= b,
            forall|b2: int, i2: int, j2: int|
                0 <= b2 < b && 0 <= i2 < m && 0 <= j2 < n && lex_before3(b2, i2, j2, bi as int, 0, 0)
                    ==> #[trigger] dot_value(
                    mat_row(x@, m as int, k as int, b2, i2),
                    mat_col(y@, k as int, n as int, b2, j2),
                    out@[idx3(b2, i2, j2, m as int, n as int)],
                ),
        decreases b - bi,
    {
        let mut i: usize = 0;
        while i < m
            invariant
                x@.len() == b * m * k,
                y@.len() == b * k * n,
                b * m * k <= usize::MAX,
                b * k * n <= usize::MAX,
                b * m * n <= usize::MAX,
                total == b * m * n,
                out@.len() == total,
                zero_value(zero),
                bi < b,
                i <= m,
                forall|b2: int, i2: int, j2: int|
                    0 <= b2 < b && 0 <= i2 < m && 0 <= j2 < n && lex_before3(b2, i2, j2, bi as int, i as int, 0)
                        ==> #[trigger] dot_value(
                        mat_row(x@, m as int, k as int, b2, i2),
                        mat_col(y@, k as int, n as int, b2, j2),
                        out@[idx3(b2, i2, j2, m as int, n as int)],
                    ),
            decreases m - i,
        {
            let mut j: usize = 0;
            while j < n
                invariant
                    x@.len() == b * m * k,
                    y@.len() == b * k * n,
                    b * m * k <= usize::MAX,
                    b * k * n <= usize::MAX,
                    b * m * n <= usize::MAX,
                    total == b * m * n,
                    out@.len() == total,
                    zero_value(zero),
                    bi < b,
                    i < m,
                    j <= n,
                    forall|b2: int, i2: int, j2: int|
                        0 <= b2 < b && 0 <= i2 < m && 0 <= j2 < n
                            && lex_before3(b2, i2, j2, bi as int, i as int, j as int) ==> #[trigger] dot_value(
                            mat_row(x@, m as int, k as int, b2, i2),
                            mat_col(y@, k as int, n as int, b2, j2),
                            out@[idx3(b2, i2, j2, m as int, n as int)],
                        ),
                decreases n - j,
            {
                let ghost row = mat_row(x@, m as int, k as int, bi as int, i as int);
                let ghost col = mat_col(y@, k as int, n as int, bi as int, j as int);
                let mut acc = zero;
                let ghost mut prods: Seq<T> = seq![];
                let ghost mut sums: Seq<T> = seq![zero];
                let mut kk: usize = 0;
                while kk < k
                    invariant
                        x@.len() == b * m * k,
                        y@.len() == b * k * n,
                        b * m * k <= usize::MAX,
                        b * k * n <= usize::MAX,
                        bi < b,
                        i < m,
                        j < n,
                        kk <= k,
                        row == mat_row(x@, m as int, k as int, bi as int, i as int),
                        col == mat_col(y@, k as int, n as int, bi as int, j as int),
                        prods.len() == kk,
                        sums.len() == kk + 1,
                        zero_value(sums[0]),
                        sums.last() == acc,
                        forall|t: int|
                            0 <= t < kk ==> product_value(row[t], col[t], #[trigger] prods[t]) && sum_value(
                                sums[t],
                                prods[t],
                                sums[t + 1],
                            ),
                    decreases k - kk,
                {
                    let xv = x[index4(bi, i, kk, 0, b, m, k, 1)];
                    let yv = y[index4(bi, kk, j, 0, b, k, n, 1)];
                    let p = product_of(xv, yv);
                    let next = sum_of(acc, p);
                    proof {
                        assert(xv == row[kk as int]);
                        assert(yv == col[kk as int]);
                        let prods0 = prods;
                        let sums0 = sums;
                        prods = prods.push(p);
                        sums = sums.push(next);
                        assert forall|t: int| 0 <= t < kk + 1 implies product_value(row[t], col[t], #[trigger] prods[t])
                            && sum_value(sums[t], prods[t], sums[t + 1]) by {
                            if t < kk {
                                assert(prods[t] == prods0[t]);
                                assert(sums[t] == sums0[t]);
                                assert(sums[t + 1] == sums0[t + 1]);
                            }
                        }
                    }
                    acc = next;
                    kk = kk + 1;
                }
                proof {
                    assert(product_sums(row, col, prods, sums));
                }
                let at = index4(bi, i, j, 0, b, m, n, 1);
                let ghost out0 = out@;
                out.set(at, acc);
                proof {
                    assert forall|b2: int, i2: int, j2: int|
                        0 <= b2 < b && 0 <= i2 < m && 0 <= j2 < n
                            && lex_before3(b2, i2, j2, bi as int, i as int, j + 1) implies #[trigger] dot_value(
                            mat_row(x@, m as int, k as int, b2, i2),
                            mat_col(y@, k as int, n as int, b2, j2),
                            out@[idx3(b2, i2, j2, m as int, n as int)],
                        ) by {
                        let q = idx3(b2, i2, j2, m as int, n as int);
                        if lex_before3(b2, i2, j2, bi as int, i as int, j as int) {
                            lemma_idx3_before(b2, i2, j2, bi as int, i as int, j as int, m as int, n as int);
                            assert(out@[q] == out0[q]);
                        } else {
                            assert(q == at);
                        }
                    }
                }
                j = j + 1;
            }
            i = i + 1;
        }
        bi = bi + 1;
    }
    out
}

/// The matrix product of the last two dimensions of `lhs` and `rhs`, batched
/// over the leading dimensions, which must be equal (no broadcasting). The
/// result is a row-major tensor of shape `(..., M, N)`.
///
/// Errors: `InvalidShape` when a rank is below 2 or the ranks differ;
/// `SizeMismatch` when the batch dimensions differ or the inner dimensions
/// differ (checked in this order).
pub fn matmul_view<T: Copy + num_traits::Float>(lhs: &TensorView<T>, rhs: &TensorView<T>) -> (r: Result<
    TensorBase<T>,
    TensorError,
>)
    requires
        sizes_fit(lhs.spec_shape()),
        sizes_fit(rhs.spec_shape()),
        matmul_accepts(lhs.spec_shape(), rhs.spec_shape()) ==> sizes_fit(
            matmul_shape(lhs.spec_shape(), rhs.spec_shape()),
        ) && sizes_fit(batch_dims(lhs.spec_shape())),
    ensures
        lhs.spec_shape().len() < 2 ==> (r matches Err(e) && e is InvalidShape),
        lhs.spec_shape().len() >= 2 && rhs.spec_shape().len() < 2 ==> (r matches Err(e) && e is InvalidShape),
        lhs.spec_shape().len() >= 2 && rhs.spec_shape().len() >= 2 && lhs.spec_shape().len()
            != rhs.spec_shape().len() ==> (r matches Err(e) && e is InvalidShape),
        lhs.spec_shape().len() >= 2 && lhs.spec_shape().len() == rhs.spec_shape().len() && batch_dims(
            lhs.spec_shape(),
        ) != batch_dims(rhs.spec_shape()) ==> (r matches Err(e) && e is SizeMismatch),
        lhs.spec_shape().len() >= 2 && lhs.spec_shape().len() == rhs.spec_shape().len() && batch_dims(
            lhs.spec_shape(),
        ) == batch_dims(rhs.spec_shape()) && lhs.spec_shape()[lhs.spec_shape().len() - 1]
            != rhs.spec_shape()[rhs.spec_shape().len() - 2] ==> (r matches Err(e) && e is SizeMismatch),
        matmul_accepts(lhs.spec_shape(), rhs.spec_shape()) ==> (r matches Ok(t) && t.wf() && t.spec_shape()
            == matmul_shape(lhs.spec_shape(), rhs.spec_shape()) && is_row_major(t.spec_shape(), t.spec_strides())
            && t.spec_offset() == 0 && matmul_result(lhs.elems(), lhs.spec_shape(), rhs.elems(), rhs.spec_shape(), t.data())),
{
    let lr = lhs.meta.shape.len();
    let rr = rhs.meta.shape.len();
    if lr < 2 {
        return Err(TensorError::InvalidShape(msg("LHS tensor must have rank >= 2 for matmul")));
    }
    if rr < 2 {
        return Err(TensorError::InvalidShape(msg("RHS tensor must have rank >= 2 for matmul")));
    }
    if lr != rr {
        return Err(TensorError::InvalidShape(rank_mismatch_text(lr, rr)));
    }
    let lhs_batch = batch_vec(&lhs.meta.shape);
    let rhs_batch = batch_vec(&rhs.meta.shape);
    if !same_shape(&lhs_batch, &rhs_batch) {
        return Err(TensorError::SizeMismatch(batch_mismatch_text(&lhs_batch, &rhs_batch)));
    }
    let m = lhs.meta.shape[lr - 2];
    let k_l = lhs.meta.shape[lr - 1];
    let k_r = rhs.meta.shape[rr - 2];
    let n = rhs.meta.shape[rr - 1];
    if k_l != k_r {
        return Err(TensorError::SizeMismatch(inner_mismatch_text(k_l, k_r)));
    }
    let ghost ls = lhs.spec_shape();
    let ghost rs = rhs.spec_shape();
    let ghost os = matmul_shape(ls, rs);
    let b = shape_size_of(&lhs_batch);
    let mut out_shape = lhs_batch;
    out_shape.push(m);
    out_shape.push(n);
    assert(out_shape@ =~= os);
    proof {
        lemma_size_matrices(ls);
        lemma_size_matrices(rs);
        assert(batch_dims(os) =~= batch_dims(ls));
        lemma_size_matrices(os);
        crate::layout::lemma_positions_len(ls, lhs.spec_strides(), 0, lhs.spec_offset());
        crate::layout::lemma_positions_len(rs, rhs.spec_strides(), 0, rhs.spec_offset());
        assert(sizes_fit(ls) ==> size_from(ls, 0) <= isize::MAX);
        assert(sizes_fit(os) ==> size_from(os, 0) <= isize::MAX);
    }
    let x = lhs.to_contiguous();
    let y = rhs.to_contiguous();
    let total = shape_size_of(&out_shape);
    let rows = matmul_rows(&x.buf, &y.buf, b, m, k_l, n, total);
    let out_strides = shape_to_stride(&out_shape);
    proof {
        crate::fits::lemma_row_major_fits(out_shape@, out_strides@, rows@.len() as int);
    }
    Ok(TensorBase::from_parts(rows, MetaTensor::new(out_shape, out_strides, 0)))
}

/// A one-dimensional shape whose sizes fit: its size is its length.
proof fn lemma_fit_1d(s: Seq<usize>)
    requires
        s.len() == 1,
        sizes_fit(s),
    ensures
        s[0] <= isize::MAX,
        shape_size(s) == s[0],
{
    assert(size_from(s, 0) <= isize::MAX);
    assert(size_from(s, 1) == 1);
    assert(size_from(s, 0) == (s[0] as nat) * 1);
}

/// The dot product of two vectors of equal length: a rank-0 tensor holding
/// the sum of the products of their entries, in increasing order from zero.
///
/// Errors: `InvalidShape` when either tensor is not of rank 1,
/// `SizeMismatch` when the lengths differ.
pub fn dot_view<T: Copy + num_traits::Float>(lhs: &TensorView<T>, rhs: &TensorView<T>) -> (r: Result<TensorBase<T>, TensorError>)
    requires
        sizes_fit(lhs.spec_shape()),
        sizes_fit(rhs.spec_shape()),
    ensures
        (lhs.spec_shape().len() != 1 || rhs.spec_shape().len() != 1) ==> (r matches Err(e) && e is InvalidShape),
        lhs.spec_shape().len() == 1 && rhs.spec_shape().len() == 1 && lhs.spec_shape()[0] != rhs.spec_shape()[0]
            ==> (r matches Err(e) && e is SizeMismatch),
        lhs.spec_shape().len() == 1 && rhs.spec_shape().len() == 1 && lhs.spec_shape()[0] == rhs.spec_shape()[0]
            ==> (r matches Ok(t) && t.wf() && t.spec_shape() == Seq::<usize>::empty() && t.data().len() == 1
            && dot_value(lhs.elems(), rhs.elems(), t.data()[0])),
{
    if lhs.meta.shape.len() != 1 || rhs.meta.shape.len() != 1 {
        return Err(TensorError::InvalidShape(msg("dot product is only defined for 1-D tensors")));
    }
    let n = lhs.meta.shape[0];
    if n != rhs.meta.shape[0] {
        return Err(TensorError::SizeMismatch(msg("inner matrix dimensions must match for matmul")));
    }
    let x = lhs.to_contiguous();
    let y = rhs.to_contiguous();
    proof {
        crate::layout::lemma_positions_len(lhs.spec_shape(), lhs.spec_strides(), 0, lhs.spec_offset());
        crate::layout::lemma_positions_len(rhs.spec_shape(), rhs.spec_strides(), 0, rhs.spec_offset());
        lemma_fit_1d(lhs.spec_shape());
        lemma_fit_1d(rhs.spec_shape());
    }
    let ghost xs = x.buf@;
    let ghost ys = y.buf@;
    let mut acc = zero_of::<T>();
    let ghost mut prods: Seq<T> = seq![];
    let ghost mut sums: Seq<T> = seq![acc];
    let mut i: usize = 0;
    while i < n
        invariant
            i <= n,
            x.buf@.len() == n,
            y.buf@.len() == n,
            xs == x.buf@,
            ys == y.buf@,
            prods.len() == i,
            sums.len() == i + 1,
            zero_value(sums[0]),
            sums.last() == acc,
            forall|t: int|
                0 <= t < i ==> product_value(xs[t], ys[t], #[trigger] prods[t]) && sum_value(
                    sums[t],
                    prods[t],
                    sums[t + 1],
                ),
        decreases n - i,
    {
        let p = product_of(x.buf[i], y.buf[i]);
        let next = sum_of(acc, p);
        proof {
            let prods0 = prods;
            let sums0 = sums;
            prods = prods.push(p);
            sums = sums.push(next);
            assert forall|t: int| 0 <= t < i + 1 implies product_value(xs[t], ys[t], #[trigger] prods[t]) && sum_value(
                sums[t],
                prods[t],
                sums[t + 1],
            ) by {
                if t < i {
                    assert(prods[t] == prods0[t]);
                    assert(sums[t] == sums0[t]);
                    assert(sums[t + 1] == sums0[t + 1]);
                }
            }
        }
        acc = next;
        i = i + 1;
    }
    proof {
        assert(product_sums(xs, ys, prods, sums));
    }
    let t = TensorBase::scalar(acc);
    assert(t.data()[0] == acc);
    Ok(t)
}

/// The outer product of two vectors: the `(M, N)` row-major tensor whose
/// entry `(i, j)` is zero plus the product of entry `i` of `lhs` and entry
/// `j` of `rhs`.
///
/// Errors: `InvalidShape` when either tensor is not of rank 1.
pub fn outer_view<T: Copy + num_traits::Float>(lhs: &TensorView<T>, rhs: &TensorView<T>) -> (r: Result<TensorBase<T>, TensorError>)
    requires
        sizes_fit(lhs.spec_shape()),
        sizes_fit(rhs.spec_shape()),
        lhs.spec_shape().len() == 1 && rhs.spec_shape().len() == 1 ==> sizes_fit(
            seq![lhs.spec_shape()[0], rhs.spec_shape()[0]],
        ),
    ensures
        (lhs.spec_shape().len() != 1 || rhs.spec_shape().len() != 1) ==> (r matches Err(e) && e is InvalidShape),
        lhs.spec_shape().len() == 1 && rhs.spec_shape().len() == 1 ==> (r matches Ok(t) && t.wf() && t.spec_shape()
            == seq![lhs.spec_shape()[0], rhs.spec_shape()[0]] && is_row_major(t.spec_shape(), t.spec_strides())
            && t.spec_offset() == 0 && outer_values(lhs.elems(), rhs.elems(), t.data())),
{
    if lhs.meta.shape.len() != 1 || rhs.meta.shape.len() != 1 {
        return Err(TensorError::InvalidShape(msg("outer product is only defined for 1-D tensors")));
    }
    let m = lhs.meta.shape[0];
    let n = rhs.meta.shape[0];
    let x = lhs.to_contiguous();
    let y = rhs.to_contiguous();
    let mut out_shape: Vec<usize> = Vec::new();
    out_shape.push(m);
    out_shape.push(n);
    assert(out_shape@ =~= seq![m, n]);
    proof {
        crate::layout::lemma_positions_len(lhs.spec_shape(), lhs.spec_strides(), 0, lhs.spec_offset());
        crate::layout::lemma_positions_len(rhs.spec_shape(), rhs.spec_strides(), 0, rhs.spec_offset());
        lemma_fit_1d(lhs.spec_shape());
        lemma_fit_1d(rhs.spec_shape());
        lemma_size_matrices(out_shape@);
        assert(batch_dims(out_shape@) =~= Seq::<usize>::empty());
        assert(shape_size(Seq::<usize>::empty()) == 1);
        assert(sizes_fit(out_shape@) ==> size_from(out_shape@, 0) <= isize::MAX);
    }
    let total = shape_size_of(&out_shape);
    let zero = zero_of::<T>();
    let mut out = filled_vec(zero, total);
    let ghost xs = x.buf@;
    let ghost ys = y.buf@;
    let mut i: usize = 0;
    while i < m
        invariant
            x.buf@.len() == m,
            y.buf@.len() == n,
            xs == x.buf@,
            ys == y.buf@,
            total == 1 * m * n,
            total <= usize::MAX,
            out@.len() == total,
            zero_value(zero),
            i <= m,
            forall|i2: int, j2: int|
                0 <= i2 < m && 0 <= j2 < n && (i2 < i) ==> #[trigger] zero_plus_product(xs[i2], ys[j2], out@[i2 * n + j2]),
        decreases m - i,
    {
        let mut j: usize = 0;
        while j < n
            invariant
                x.buf@.len() == m,
                y.buf@.len() == n,
                xs == x.buf@,
                ys == y.buf@,
                total == 1 * m * n,
                total <= usize::MAX,
                out@.len() == total,
                zero_value(zero),
                i < m,
                j <= n,
                forall|i2: int, j2: int|
                    0 <= i2 < m && 0 <= j2 < n && (i2 < i || (i2 == i && j2 < j)) ==> #[trigger] zero_plus_product(
                        xs[i2],
                        ys[j2],
                        out@[i2 * n + j2],
                    ),
            decreases n - j,
        {
            let p = product_of(x.buf[i], y.buf[j]);
            let v = sum_of(zero, p);
            let at = index4(0, i, j, 0, 1, m, n, 1);
            let ghost out0 = out@;
            out.set(at, v);
            proof {
                assert(at == i * n + j);
                assert(zero_plus_product(xs[i as int], ys[j as int], v));
                assert forall|i2: int, j2: int|
                    0 <= i2 < m && 0 <= j2 < n && (i2 < i || (i2 == i && j2 < j + 1)) implies #[trigger] zero_plus_product(
                        xs[i2],
                        ys[j2],
                        out@[i2 * n + j2],
                    ) by {
                    if i2 < i || (i2 == i && j2 < j) {
                        lemma_idx3_before(0, i2, j2, 0, i as int, j as int, m as int, n as int);
                        assert(i2 * n + j2 < at);
                        assert(out@[i2 * n + j2] == out0[i2 * n + j2]);
                    }
                }
            }
            j = j + 1;
        }
        i = i + 1;
    }
    let out_strides = shape_to_stride(&out_shape);
    proof {
        crate::fits::lemma_row_major_fits(out_shape@, out_strides@, out@.len() as int);
    }
    Ok(TensorBase::from_parts(out, MetaTensor::new(out_shape, out_strides, 0)))
}

impl<T> TensorBase<T> {
    /// Matrix product with `rhs` over the last two dimensions, batched over
    /// the equal leading dimensions (see `matmul_view`).
    ///
    /// Errors: `InvalidShape` when a rank is below 2 or the ranks differ;
    /// `SizeMismatch` when the batch or inner dimensions differ.
    pub fn matmul<R: AsView<T>>(&self, rhs: &R) -> (r: Result<TensorBase<T>, TensorError>)
        where T: Copy + num_traits::Float,
        requires
            self.wf(),
            rhs.view_wf(),
            sizes_fit(self.view_shape()),
            sizes_fit(rhs.view_shape()),
            matmul_accepts(self.view_shape(), rhs.view_shape()) ==> sizes_fit(
                matmul_shape(self.view_shape(), rhs.view_shape()),
            ) && sizes_fit(batch_dims(self.view_shape())),
        ensures
            self.view_shape().len() < 2 ==> (r matches Err(e) && e is InvalidShape),
            self.view_shape().len() >= 2 && rhs.view_shape().len() < 2 ==> (r matches Err(e) && e is InvalidShape),
            self.view_shape().len() >= 2 && rhs.view_shape().len() >= 2 && self.view_shape().len()
                != rhs.view_shape().len() ==> (r matches Err(e) && e is InvalidShape),
            self.view_shape().len() >= 2 && self.view_shape().len() == rhs.view_shape().len() && batch_dims(
                self.view_shape(),
            ) != batch_dims(rhs.view_shape()) ==> (r matches Err(e) && e is SizeMismatch),
            self.view_shape().len() >= 2 && self.view_shape().len() == rhs.view_shape().len() && batch_dims(
                self.view_shape(),
            ) == batch_dims(rhs.view_shape()) && self.view_shape()[self.view_shape().len() - 1]
                != rhs.view_shape()[rhs.view_shape().len() - 2] ==> (r matches Err(e) && e is SizeMismatch),
            matmul_accepts(self.view_shape(), rhs.view_shape()) ==> (r matches Ok(t) && t.wf() && t.spec_shape()
                == matmul_shape(self.view_shape(), rhs.view_shape()) && is_row_major(
                t.spec_shape(),
                t.spec_strides(),
            ) && t.spec_offset() == 0
                && matmul_result(view_elems(self.view_data(), self.view_shape(), self.view_strides(), self.view_offset()), self.view_shape(), view_elems(rhs.view_data(), rhs.view_shape(), rhs.view_strides(), rhs.view_offset()), rhs.view_shape(), t.data())),
    {
        let l = self.view();
        let rv = rhs.view();
        matmul_view(&l, &rv)
    }

    /// Dot product with `rhs` (see `dot_view`).
    ///
    /// Errors: `InvalidShape` when either tensor is not of rank 1,
    /// `SizeMismatch` when the lengths differ.
    pub fn dot<R: AsView<T>>(&self, rhs: &R) -> (r: Result<TensorBase<T>, TensorError>)
        where T: Copy + num_traits::Float,
        requires
            self.wf(),
            rhs.view_wf(),
            sizes_fit(self.view_shape()),
            sizes_fit(rhs.view_shape()),
        ensures
            (self.view_shape().len() != 1 || rhs.view_shape().len() != 1) ==> (r matches Err(e) && e is InvalidShape),
            self.view_shape().len() == 1 && rhs.view_shape().len() == 1 && self.view_shape()[0] != rhs.view_shape()[0]
                ==> (r matches Err(e) && e is SizeMismatch),
            self.view_shape().len() == 1 && rhs.view_shape().len() == 1 && self.view_shape()[0] == rhs.view_shape()[0]
                ==> (r matches Ok(t) && t.wf() && t.spec_shape() == Seq::<usize>::empty() && t.data().len() == 1
                && dot_value(view_elems(self.view_data(), self.view_shape(), self.view_strides(), self.view_offset()), view_elems(rhs.view_data(), rhs.view_shape(), rhs.view_strides(), rhs.view_offset()), t.data()[0])),
    {
        let l = self.view();
        let rv = rhs.view();
        dot_view(&l, &rv)
    }

    /// Outer product with `rhs` (see `outer_view`).
    ///
    /// Errors: `InvalidShape` when either tensor is not of rank 1.
    pub fn outer<R: AsView<T>>(&self, rhs: &R) -> (r: Result<TensorBase<T>, TensorError>)
        where T: Copy + num_traits::Float,
        requires
            self.wf(),
            rhs.view_wf(),
            sizes_fit(self.view_shape()),
            sizes_fit(rhs.view_shape()),
            self.view_shape().len() == 1 && rhs.view_shape().len() == 1 ==> sizes_fit(
                seq![self.view_shape()[0], rhs.view_shape()[0]],
            ),
        ensures
            (self.view_shape().len() != 1 || rhs.view_shape().len() != 1) ==> (r matches Err(e) && e is InvalidShape),
            self.view_shape().len() == 1 && rhs.view_shape().len() == 1 ==> (r matches Ok(t) && t.wf() && t.spec_shape()
                == seq![self.view_shape()[0], rhs.view_shape()[0]] && is_row_major(t.spec_shape(), t.spec_strides())
                && t.spec_offset() == 0
                && outer_values(view_elems(self.view_data(), self.view_shape(), self.view_strides(), self.view_offset()), view_elems(rhs.view_data(), rhs.view_shape(), rhs.view_strides(), rhs.view_offset()), t.data())),
    {
        let l = self.view();
        let rv = rhs.view();
        outer_view(&l, &rv)
    }
}

impl<'a, T> TensorView<'a, T> {
    /// Matrix product with `rhs` over the last two dimensions, batched over
    /// the equal leading dimensions (see `matmul_view`).
    ///
    /// Errors: `InvalidShape` when a rank is below 2 or the ranks differ;
    /// `SizeMismatch` when the batch or inner dimensions differ.
    pub fn matmul<R: AsView<T>>(&self, rhs: &R) -> (r: Result<TensorBase<T>, TensorError>)
        where T: Copy + num_traits::Float,
        requires
            rhs.view_wf(),
            sizes_fit(self.view_shape()),
            sizes_fit(rhs.view_shape()),
            matmul_accepts(self.view_shape(), rhs.view_shape()) ==> sizes_fit(
                matmul_shape(self.view_shape(), rhs.view_shape()),
            ) && sizes_fit(batch_dims(self.view_shape())),
        ensures
            self.view_shape().len() < 2 ==> (r matches Err(e) && e is InvalidShape),
            self.view_shape().len() >= 2 && rhs.view_shape().len() < 2 ==> (r matches Err(e) && e is InvalidShape),
            self.view_shape().len() >= 2 && rhs.view_shape().len() >= 2 && self.view_shape().len()
                != rhs.view_shape().len() ==> (r matches Err(e) && e is InvalidShape),
            self.view_shape().len() >= 2 && self.view_shape().len() == rhs.view_shape().len() && batch_dims(
                self.view_shape(),
            ) != batch_dims(rhs.view_shape()) ==> (r matches Err(e) && e is SizeMismatch),
            self.view_shape().len() >= 2 && self.view_shape().len() == rhs.view_shape().len() && batch_dims(
                self.view_shape(),
            ) == batch_dims(rhs.view_shape()) && self.view_shape()[self.view_shape().len() - 1]
                != rhs.view_shape()[rhs.view_shape().len() - 2] ==> (r matches Err(e) && e is SizeMismatch),
            matmul_accepts(self.view_shape(), rhs.view_shape()) ==> (r matches Ok(t) && t.wf() && t.spec_shape()
                == matmul_shape(self.view_shape(), rhs.view_shape()) && is_row_major(
                t.spec_shape(),
                t.spec_strides(),
            ) && t.spec_offset() == 0
                && matmul_result(view_elems(self.view_data(), self.view_shape(), self.view_strides(), self.view_offset()), self.view_shape(), view_elems(rhs.view_data(), rhs.view_shape(), rhs.view_strides(), rhs.view_offset()), rhs.view_shape(), t.data())),
    {
        let l = self.view();
        let rv = rhs.view();
        matmul_view(&l, &rv)
    }

    /// Dot product with `rhs` (see `dot_view`).
    ///
    /// Errors: `InvalidShape` when either tensor is not of rank 1,
    /// `SizeMismatch` when the lengths differ.
    pub fn dot<R: AsView<T>>(&self, rhs: &R) -> (r: Result<TensorBase<T>, TensorError>)
        where T: Copy + num_traits::Float,
        requires
            rhs.view_wf(),
            sizes_fit(self.view_shape()),
            sizes_fit(rhs.view_shape()),
        ensures
            (self.view_shape().len() != 1 || rhs.view_shape().len() != 1) ==> (r matches Err(e) && e is InvalidShape),
            self.view_shape().len() == 1 && rhs.view_shape().len() == 1 && self.view_shape()[0] != rhs.view_shape()[0]
                ==> (r matches Err(e) && e is SizeMismatch),
            self.view_shape().len() == 1 && rhs.view_shape().len() == 1 && self.view_shape()[0] == rhs.view_shape()[0]
                ==> (r matches Ok(t) && t.wf() && t.spec_shape() == Seq::<usize>::empty() && t.data().len() == 1
                && dot_value(view_elems(self.view_data(), self.view_shape(), self.view_strides(), self.view_offset()), view_elems(rhs.view_data(), rhs.view_shape(), rhs.view_strides(), rhs.view_offset()), t.data()[0])),
    {
        let l = self.view();
        let rv = rhs.view();
        dot_view(&l, &rv)
    }

    /// Outer product with `rhs` (see `outer_view`).
    ///
    /// Errors: `InvalidShape` when either tensor is not of rank 1.
    pub fn outer<R: AsView<T>>(&self, rhs: &R) -> (r: Result<TensorBase<T>, TensorError>)
        where T: Copy + num_traits::Float,
        requires
            rhs.view_wf(),
            sizes_fit(self.view_shape()),
            sizes_fit(rhs.view_shape()),
            self.view_shape().len() == 1 && rhs.view_shape().len() == 1 ==> sizes_fit(
                seq![self.view_shape()[0], rhs.view_shape()[0]],
            ),
        ensures
            (self.view_shape().len() != 1 || rhs.view_shape().len() != 1) ==> (r matches Err(e) && e is InvalidShape),
            self.view_shape().len() == 1 && rhs.view_shape().len() == 1 ==> (r matches Ok(t) && t.wf() && t.spec_shape()
                == seq![self.view_shape()[0], rhs.view_shape()[0]] && is_row_major(t.spec_shape(), t.spec_strides())
                && t.spec_offset() == 0
                && outer_values(view_elems(self.view_data(), self.view_shape(), self.view_strides(), self.view_offset()), view_elems(rhs.view_data(), rhs.view_shape(), rhs.view_strides(), rhs.view_offset()), t.data())),
    {
        let l = self.view();
        let rv = rhs.view();
        outer_view(&l, &rv)
    }
}

impl<'a, T> TensorViewMut<'a, T> {
    /// Matrix product with `rhs` over the last two dimensions, batched over
    /// the equal leading dimensions (see `matmul_view`).
    ///
    /// Errors: `InvalidShape` when a rank is below 2 or the ranks differ;
    /// `SizeMismatch` when the batch or inner dimensions differ.
    pub fn matmul<R: AsView<T>>(&self, rhs: &R) -> (r: Result<TensorBase<T>, TensorError>)
        where T: Copy + num_traits::Float,
        requires
            self.wf(),
            rhs.view_wf(),
            sizes_fit(self.view_shape()),
            sizes_fit(rhs.view_shape()),
            matmul_accepts(self.view_shape(), rhs.view_shape()) ==> sizes_fit(
                matmul_shape(self.view_shape(), rhs.view_shape()),
            ) && sizes_fit(batch_dims(self.view_shape())),
        ensures
            self.view_shape().len() < 2 ==> (r matches Err(e) && e is InvalidShape),
            self.view_shape().len() >= 2 && rhs.view_shape().len() < 2 ==> (r matches Err(e) && e is InvalidShape),
            self.view_shape().len() >= 2 && rhs.view_shape().len() >= 2 && self.view_shape().len()
                != rhs.view_shape().len() ==> (r matches Err(e) && e is InvalidShape),
            self.view_shape().len() >= 2 && self.view_shape().len() == rhs.view_shape().len() && batch_dims(
                self.view_shape(),
            ) != batch_dims(rhs.view_shape()) ==> (r matches Err(e) && e is SizeMismatch),
            self.view_shape().len() >= 2 && self.view_shape().len() == rhs.view_shape().len() && batch_dims(
                self.view_shape(),
            ) == batch_dims(rhs.view_shape()) && self.view_shape()[self.view_shape().len() - 1]
                != rhs.view_shape()[rhs.view_shape().len() - 2] ==> (r matches Err(e) && e is SizeMismatch),
            matmul_accepts(self.view_shape(), rhs.view_shape()) ==> (r matches Ok(t) && t.wf() && t.spec_shape()
                == matmul_shape(self.view_shape(), rhs.view_shape()) && is_row_major(
                t.spec_shape(),
                t.spec_strides(),
            ) && t.spec_offset() == 0
                && matmul_result(view_elems(self.view_data(), self.view_shape(), self.view_strides(), self.view_offset()), self.view_shape(), view_elems(rhs.view_data(), rhs.view_shape(), rhs.view_strides(), rhs.view_offset()), rhs.view_shape(), t.data())),
    {
        let l = self.view();
        let rv = rhs.view();
        matmul_view(&l, &rv)
    }

    /// Dot product with `rhs` (see `dot_view`).
    ///
    /// Errors: `InvalidShape` when either tensor is not of rank 1,
    /// `SizeMismatch` when the lengths differ.
    pub fn dot<R: AsView<T>>(&self, rhs: &R) -> (r: Result<TensorBase<T>, TensorError>)
        where T: Copy + num_traits::Float,
        requires
            self.wf(),
            rhs.view_wf(),
            sizes_fit(self.view_shape()),
            sizes_fit(rhs.view_shape()),
        ensures
            (self.view_shape().len() != 1 || rhs.view_shape().len() != 1) ==> (r matches Err(e) && e is InvalidShape),
            self.view_shape().len() == 1 && rhs.view_shape().len() == 1 && self.view_shape()[0] != rhs.view_shape()[0]
                ==> (r matches Err(e) && e is SizeMismatch),
            self.view_shape().len() == 1 && rhs.view_shape().len() == 1 && self.view_shape()[0] == rhs.view_shape()[0]
                ==> (r matches Ok(t) && t.wf() && t.spec_shape() == Seq::<usize>::empty() && t.data().len() == 1
                && dot_value(view_elems(self.view_data(), self.view_shape(), self.view_strides(), self.view_offset()), view_elems(rhs.view_data(), rhs.view_shape(), rhs.view_strides(), rhs.view_offset()), t.data()[0])),
    {
        let l = self.view();
        let rv = rhs.view();
        dot_view(&l, &rv)
    }

    /// Outer product with `rhs` (see `outer_view`).
    ///
    /// Errors: `InvalidShape` when either tensor is not of rank 1.
    pub fn outer<R: AsView<T>>(&self, rhs: &R) -> (r: Result<TensorBase<T>, TensorError>)
        where T: Copy + num_traits::Float,
        requires
            self.wf(),
            rhs.view_wf(),
            sizes_fit(self.view_shape()),
            sizes_fit(rhs.view_shape()),
            self.view_shape().len() == 1 && rhs.view_shape().len() == 1 ==> sizes_fit(
                seq![self.view_shape()[0], rhs.view_shape()[0]],
            ),
        ensures
            (self.view_shape().len() != 1 || rhs.view_shape().len() != 1) ==> (r matches Err(e) && e is InvalidShape),
            self.view_shape().len() == 1 && rhs.view_shape().len() == 1 ==> (r matches Ok(t) && t.wf() && t.spec_shape()
                == seq![self.view_shape()[0], rhs.view_shape()[0]] && is_row_major(t.spec_shape(), t.spec_strides())
                && t.spec_offset() == 0
                && outer_values(view_elems(self.view_data(), self.view_shape(), self.view_strides(), self.view_offset()), view_elems(rhs.view_data(), rhs.view_shape(), rhs.view_strides(), rhs.view_offset()), t.data())),
    {
        let l = self.view();
        let rv = rhs.view();
        outer_view(&l, &rv)
    }
}

} // verus!

//! Broadcasting: shapes are aligned from the right, missing dimensions count
//! as 1, and each pair of dimensions must match or contain a 1; the smaller
//! operand is then read through strides of 0 along the broadcast dimensions.
use vstd::prelude::*;
use crate::access::AsView;
use crate::error::{msg, TensorError};
use crate::layout::{coord_index, gather, layout_fits, layout_positions, lin_from, shape_size, valid_coord};
use crate::meta::{is_row_major, shape_to_stride, sizes_fit, MetaTensor};
use crate::tensor::{distinct, positions_of, TensorBase, TensorView, TensorViewMut};
use crate::unary::{abs_value, difference_of, difference_value, float_div, product_of, product_value, quotient_of, quotient_value, sum_of, sum_value, zero_of, zero_value};

verus! {

broadcast use crate::tensor::group_tensor_parts;

/// The larger of two ranks.
pub open spec fn out_rank(a: Seq<usize>, b: Seq<usize>) -> int {
    if a.len() >= b.len() {
        a.len() as int
    } else {
        b.len() as int
    }
}

/// Dimension of `s` aligned with dimension `k` of a rank-`n` shape (from the
/// right); 1 where `s` has no such dimension.
pub open spec fn bdim(s: Seq<usize>, n: int, k: int) -> usize {
    let j = k - (n - s.len());
    if 0 <= j < s.len() {
        s[j]
    } else {
        1
    }
}

/// The two shapes can be broadcast together: aligned dimensions are equal
/// or one of them is 1.
pub open spec fn broadcastable(a: Seq<usize>, b: Seq<usize>) -> bool {
    forall|k: int|
        0 <= k < out_rank(a, b) ==> {
            let x = #[trigger] bdim(a, out_rank(a, b), k);
            let y = bdim(b, out_rank(a, b), k);
            x == y || x == 1 || y == 1
        }
}

/// The common shape: in each dimension the one that is not 1.
pub open spec fn broadcast_shape(a: Seq<usize>, b: Seq<usize>) -> Seq<usize> {
    Seq::new(
        out_rank(a, b) as nat,
        |k: int|
            if bdim(a, out_rank(a, b), k) == 1 {
                bdim(b, out_rank(a, b), k)
            } else {
                bdim(a, out_rank(a, b), k)
            },
    )
}

/// Strides reading an operand of shape `s` through the output shape `out`:
/// its own stride where its dimension equals the output's, 0 elsewhere.
pub open spec fn broadcast_strides(s: Seq<usize>, st: Seq<isize>, out: Seq<usize>) -> Seq<isize> {
    Seq::new(
        out.len(),
        |k: int|
            {
                let j = k - (out.len() - s.len());
                if 0 <= j < s.len() && s[j] == out[k] {
                    st[j]
                } else {
                    0isize
                }
            },
    )
}

/// Shape and both operands' strides of a broadcast of `a` with `b`.
///
/// Errors: `BroadcastError` when the shapes cannot be broadcast together.
pub fn compute_broadcasted_params(a: &MetaTensor, b: &MetaTensor) -> (r: Result<
    (Vec<usize>, Vec<isize>, Vec<isize>),
    TensorError,
>)
    requires
        a.shape@.len() == a.strides@.len(),
        b.shape@.len() == b.strides@.len(),
    ensures
        !broadcastable(a.shape@, b.shape@) ==> (r matches Err(e) && e is BroadcastError),
        broadcastable(a.shape@, b.shape@) ==> (r matches Ok((s, sa, sb)) && s@ == broadcast_shape(
            a.shape@,
            b.shape@,
        ) && sa@ == broadcast_strides(a.shape@, a.strides@, s@) && sb@ == broadcast_strides(
            b.shape@,
            b.strides@,
            s@,
        )),
{
    let ra = a.shape.len();
    let rb = b.shape.len();
    let n = if ra >= rb {
        ra
    } else {
        rb
    };
    let ghost gn = out_rank(a.shape@, b.shape@);
    let mut shape: Vec<usize> = Vec::new();
    let mut k: usize = 0;
    while k < n
        invariant
            k <= n,
            n == gn,
            ra == a.shape@.len(),
            rb == b.shape@.len(),
            gn == out_rank(a.shape@, b.shape@),
            shape@.len() == k,
            forall|j: int| 0 <= j < k ==> #[trigger] shape@[j] == broadcast_shape(a.shape@, b.shape@)[j],
            forall|j: int|
                0 <= j < k ==> {
                    let x = #[trigger] bdim(a.shape@, gn, j);
                    let y = bdim(b.shape@, gn, j);
                    x == y || x == 1 || y == 1
                },
        decreases n - k,
    {
        let x = if k >= n - ra {
            a.shape[k - (n - ra)]
        } else {
            1
        };
        let y = if k >= n - rb {
            b.shape[k - (n - rb)]
        } else {
            1
        };
        assert(x == bdim(a.shape@, gn, k as int));
        assert(y == bdim(b.shape@, gn, k as int));
        if x != y && x != 1 && y != 1 {
            return Err(TensorError::BroadcastError(msg("shapes are not broadcastable")));
        }
        if x == 1 {
            shape.push(y);
        } else {
            shape.push(x);
        }
        k = k + 1;
    }
    assert(shape@ =~= broadcast_shape(a.shape@, b.shape@));
    let sa = broadcast_strides_vec(&a.shape, &a.strides, &shape);
    let sb = broadcast_strides_vec(&b.shape, &b.strides, &shape);
    Ok((shape, sa, sb))
}

/// The strides reading an operand through the output shape.
fn broadcast_strides_vec(s: &Vec<usize>, st: &Vec<isize>, out: &Vec<usize>) -> (r: Vec<isize>)
    requires
        s@.len() == st@.len(),
        s@.len() <= out@.len(),
    ensures
        r@ == broadcast_strides(s@, st@, out@),
{
    let n = out.len();
    let d = n - s.len();
    let mut r: Vec<isize> = Vec::new();
    let mut k: usize = 0;
    while k < n
        invariant
            k <= n,
            n == out@.len(),
            d == n - s@.len(),
            s@.len() == st@.len(),
            r@.len() == k,
            forall|j: int| 0 <= j < k ==> #[trigger] r@[j] == broadcast_strides(s@, st@, out@)[j],
        decreases n - k,
    {
        if k >= d && s[k - d] == out[k] {
            r.push(st[k - d]);
        } else {
            r.push(0);
        }
        k = k + 1;
    }
    assert(r@ =~= broadcast_strides(s@, st@, out@));
    r
}

// ---------------------------------------------------------------------------
// Reading an operand through the broadcast layout
// ---------------------------------------------------------------------------

/// The coordinate of an operand read at output coordinate `c`.
pub open spec fn operand_coord(s: Seq<usize>, out: Seq<usize>, c: Seq<usize>) -> Seq<usize> {
    Seq::new(
        s.len(),
        |j: int|
            {
                let k = j + (out.len() - s.len());
                if s[j] == out[k] {
                    c[k]
                } else {
                    0usize
                }
            },
    )
}

/// The broadcast strides give the same index as the operand's own strides
/// at the operand coordinate.
proof fn lemma_broadcast_lin(s: Seq<usize>, st: Seq<isize>, out: Seq<usize>, c: Seq<usize>, k: int)
    requires
        s.len() == st.len(),
        s.len() <= out.len(),
        c.len() == out.len(),
        0 <= k <= out.len(),
    ensures
        k >= out.len() - s.len() ==> lin_from(c, broadcast_strides(s, st, out), k) == lin_from(
            operand_coord(s, out, c),
            st,
            k - (out.len() - s.len()),
        ),
        k < out.len() - s.len() ==> lin_from(c, broadcast_strides(s, st, out), k) == lin_from(
            operand_coord(s, out, c),
            st,
            0,
        ),
    decreases out.len() - k,
{
    let d = out.len() - s.len();
    let bs = broadcast_strides(s, st, out);
    let oc = operand_coord(s, out, c);
    if k < out.len() {
        lemma_broadcast_lin(s, st, out, c, k + 1);
        if k >= d {
            let j = k - d;
            if s[j] == out[k] {
                assert(oc[j] == c[k]);
                assert(bs[k] == st[j]);
            } else {
                assert(oc[j] == 0);
                assert(bs[k] == 0);
                assert((c[k] as int) * 0 == 0);
                assert((0usize as int) * (st[j] as int) == 0);
            }
        } else {
            assert(bs[k] == 0);
            assert((c[k] as int) * 0 == 0);
        }
    }
}

/// An operand that fits its buffer still fits when read through the broadcast layout.
pub proof fn lemma_broadcast_fits(
    s: Seq<usize>,
    st: Seq<isize>,
    other: Seq<usize>,
    out: Seq<usize>,
    off: int,
    len: int,
)
    requires
        layout_fits(s, st, off, len),
        out == broadcast_shape(s, other) || out == broadcast_shape(other, s),
        broadcastable(s, other),
    ensures
        layout_fits(out, broadcast_strides(s, st, out), off, len),
{
    let n = out.len();
    let d = n - s.len();
    assert(out_rank(s, other) == out_rank(other, s));
    assert forall|c: Seq<usize>| #[trigger] valid_coord(out, c) implies 0 <= coord_index(
        c,
        broadcast_strides(s, st, out),
        off,
    ) < len by {
        let oc = operand_coord(s, out, c);
        assert forall|j: int| 0 <= j < s.len() implies oc[j] < s[j] by {
            let k = j + d;
            assert(bdim(s, out_rank(s, other), k) == s[j]);
            if s[j] == out[k] {
                assert(c[k] < out[k]);
            } else {
                let x = bdim(s, out_rank(s, other), k);
                let y = bdim(other, out_rank(s, other), k);
                assert(x == y || x == 1 || y == 1);
                assert(s[j] == 1);
            }
        }
        assert(valid_coord(s, oc));
        lemma_broadcast_lin(s, st, out, c, 0);
    }
}

/// The elements of an operand read at each output position of a broadcast,
/// in row-major order of the output.
pub open spec fn broadcast_reads<T>(data: Seq<T>, s: Seq<usize>, st: Seq<isize>, off: int, out: Seq<usize>) -> Seq<T> {
    gather(data, layout_positions(out, broadcast_strides(s, st, out), off))
}

/// Entry `k` of `out` is related by `rel` to entry `k` of `ra` and of `rb`.
pub open spec fn pairwise<T>(ra: Seq<T>, rb: Seq<T>, out: Seq<T>, rel: spec_fn(T, T, T) -> bool) -> bool {
    forall|k: int| 0 <= k < out.len() ==> rel(ra[k], rb[k], #[trigger] out[k])
}

/// Applies `f` to the pairs of elements of `a` and `b` that meet in the
/// broadcast of their shapes: a row-major tensor whose entry `k` is a result
/// of `f` on entry `k` of each operand read through the broadcast layout.
///
/// Errors: `BroadcastError` when the shapes cannot be broadcast together.
pub fn broadcast_apply<T: Copy, F: Fn(T, T) -> T>(a: &TensorView<T>, b: &TensorView<T>, f: &F) -> (r: Result<
    TensorBase<T>,
    TensorError,
>)
    requires
        forall|x: T, y: T| call_requires(*f, (x, y)),
        broadcastable(a.spec_shape(), b.spec_shape()) ==> sizes_fit(
            broadcast_shape(a.spec_shape(), b.spec_shape()),
        ),
    ensures
        !broadcastable(a.spec_shape(), b.spec_shape()) ==> (r matches Err(e) && e is BroadcastError),
        broadcastable(a.spec_shape(), b.spec_shape()) ==> (r matches Ok(t) && t.wf() && t.spec_shape()
            == broadcast_shape(a.spec_shape(), b.spec_shape()) && is_row_major(t.spec_shape(), t.spec_strides())
            && t.spec_offset() == 0 && t.data().len() == shape_size(t.spec_shape()) && forall|k: int|
            0 <= k < t.data().len() ==> call_ensures(
                *f,
                (
                    broadcast_reads(a.data(), a.spec_shape(), a.spec_strides(), a.spec_offset(), t.spec_shape())[k],
                    broadcast_reads(b.data(), b.spec_shape(), b.spec_strides(), b.spec_offset(), t.spec_shape())[k],
                ),
                #[trigger] t.data()[k],
            )),
{
    proof {
        use_type_invariant(a);
        use_type_invariant(b);
    }
    let (shape, sa, sb) = compute_broadcasted_params(&a.meta, &b.meta)?;
    let ghost out = shape@;
    proof {
        lemma_broadcast_fits(a.meta.shape@, a.meta.strides@, b.meta.shape@, out, a.meta.offset as int, a.buf@.len() as int);
        lemma_broadcast_fits(b.meta.shape@, b.meta.strides@, a.meta.shape@, out, b.meta.offset as int, b.buf@.len() as int);
        crate::layout::lemma_positions_len(out, sa@, 0, a.meta.offset as int);
        crate::layout::lemma_positions_len(out, sb@, 0, b.meta.offset as int);
    }
    let ma = MetaTensor::new(shape.clone(), sa, a.meta.offset);
    let mb = MetaTensor::new(shape.clone(), sb, b.meta.offset);
    let pa = positions_of(&ma, a.buf.len());
    let pb = positions_of(&mb, b.buf.len());
    let ghost ra = broadcast_reads(a.data(), a.spec_shape(), a.spec_strides(), a.spec_offset(), out);
    let ghost rb = broadcast_reads(b.data(), b.spec_shape(), b.spec_strides(), b.spec_offset(), out);
    let n = pa.len();
    let mut data: Vec<T> = Vec::new();
    let mut k: usize = 0;
    while k < n
        invariant
            k <= n,
            n == pa@.len(),
            pa@.len() == pb@.len(),
            forall|j: int| 0 <= j < pa@.len() ==> pa@[j] < a.buf@.len(),
            forall|j: int| 0 <= j < pb@.len() ==> pb@[j] < b.buf@.len(),
            forall|j: int| 0 <= j < pa@.len() ==> ra[j] == a.buf@[pa@[j] as int],
            forall|j: int| 0 <= j < pb@.len() ==> rb[j] == b.buf@[pb@[j] as int],
            forall|x: T, y: T| call_requires(*f, (x, y)),
            data@.len() == k,
            forall|j: int| 0 <= j < k ==> call_ensures(*f, (ra[j], rb[j]), #[trigger] data@[j]),
        decreases n - k,
    {
        let v = f(a.buf[pa[k]], b.buf[pb[k]]);
        data.push(v);
        k = k + 1;
    }
    let strides = shape_to_stride(&shape);
    proof {
        crate::fits::lemma_row_major_fits(shape@, strides@, data@.len() as int);
    }
    Ok(TensorBase::from_parts(data, MetaTensor::new(shape, strides, 0)))
}

impl<T> TensorBase<T> {
    /// Broadcast sum (see `broadcast_apply`); the shapes must be broadcastable.
    pub fn add_tensor<R: AsView<T>>(&self, rhs: &R) -> (t: TensorBase<T>)
        where T: Copy + num_traits::Float,
        requires
            self.wf(),
            rhs.view_wf(),
            broadcastable(self.view_shape(), rhs.view_shape()),
            sizes_fit(broadcast_shape(self.view_shape(), rhs.view_shape())),
        ensures
            t.wf(),
            t.spec_shape() == broadcast_shape(self.view_shape(), rhs.view_shape()),
            is_row_major(t.spec_shape(), t.spec_strides()),
            t.spec_offset() == 0,
            t.data().len() == shape_size(t.spec_shape()),
            pairwise(
                broadcast_reads(self.view_data(), self.view_shape(), self.view_strides(), self.view_offset(), t.spec_shape()),
                broadcast_reads(rhs.view_data(), rhs.view_shape(), rhs.view_strides(), rhs.view_offset(), t.spec_shape()),
                t.data(),
                |x: T, y: T, z: T| sum_value(x, y, z),
            ),
    {
        let l = self.view();
        let rv = rhs.view();
        match broadcast_apply(&l, &rv, &sum_of::<T>) {
            Ok(t) => t,
            Err(_) => {
                proof {
                    assert(false);
                }
                TensorBase::from_parts(Vec::new(), MetaTensor::new(Vec::new(), Vec::new(), 0))
            },
        }
    }

    /// Broadcast difference (see `broadcast_apply`); the shapes must be broadcastable.
    pub fn sub_tensor<R: AsView<T>>(&self, rhs: &R) -> (t: TensorBase<T>)
        where T: Copy + num_traits::Float,
        requires
            self.wf(),
            rhs.view_wf(),
            broadcastable(self.view_shape(), rhs.view_shape()),
            sizes_fit(broadcast_shape(self.view_shape(), rhs.view_shape())),
        ensures
            t.wf(),
            t.spec_shape() == broadcast_shape(self.view_shape(), rhs.view_shape()),
            is_row_major(t.spec_shape(), t.spec_strides()),
            t.spec_offset() == 0,
            t.data().len() == shape_size(t.spec_shape()),
            pairwise(
                broadcast_reads(self.view_data(), self.view_shape(), self.view_strides(), self.view_offset(), t.spec_shape()),
                broadcast_reads(rhs.view_data(), rhs.view_shape(), rhs.view_strides(), rhs.view_offset(), t.spec_shape()),
                t.data(),
                |x: T, y: T, z: T| difference_value(x, y, z),
            ),
    {
        let l = self.view();
        let rv = rhs.view();
        match broadcast_apply(&l, &rv, &difference_of::<T>) {
            Ok(t) => t,
            Err(_) => {
                proof {
                    assert(false);
                }
                TensorBase::from_parts(Vec::new(), MetaTensor::new(Vec::new(), Vec::new(), 0))
            },
        }
    }

    /// Broadcast product (see `broadcast_apply`); the shapes must be broadcastable.
    pub fn mul_tensor<R: AsView<T>>(&self, rhs: &R) -> (t: TensorBase<T>)
        where T: Copy + num_traits::Float,
        requires
            self.wf(),
            rhs.view_wf(),
            broadcastable(self.view_shape(), rhs.view_shape()),
            sizes_fit(broadcast_shape(self.view_shape(), rhs.view_shape())),
        ensures
            t.wf(),
            t.spec_shape() == broadcast_shape(self.view_shape(), rhs.view_shape()),
            is_row_major(t.spec_shape(), t.spec_strides()),
            t.spec_offset() == 0,
            t.data().len() == shape_size(t.spec_shape()),
            pairwise(
                broadcast_reads(self.view_data(), self.view_shape(), self.view_strides(), self.view_offset(), t.spec_shape()),
                broadcast_reads(rhs.view_data(), rhs.view_shape(), rhs.view_strides(), rhs.view_offset(), t.spec_shape()),
                t.data(),
                |x: T, y: T, z: T| product_value(x, y, z),
            ),
    {
        let l = self.view();
        let rv = rhs.view();
        match broadcast_apply(&l, &rv, &product_of::<T>) {
            Ok(t) => t,
            Err(_) => {
                proof {
                    assert(false);
                }
                TensorBase::from_parts(Vec::new(), MetaTensor::new(Vec::new(), Vec::new(), 0))
            },
        }
    }

    /// Broadcast quotient (see `broadcast_apply`); the shapes must be broadcastable.
    pub fn div_tensor<R: AsView<T>>(&self, rhs: &R) -> (t: TensorBase<T>)
        where T: Copy + num_traits::Float,
        requires
            self.wf(),
            rhs.view_wf(),
            broadcastable(self.view_shape(), rhs.view_shape()),
            sizes_fit(broadcast_shape(self.view_shape(), rhs.view_shape())),
        ensures
            t.wf(),
            t.spec_shape() == broadcast_shape(self.view_shape(), rhs.view_shape()),
            is_row_major(t.spec_shape(), t.spec_strides()),
            t.spec_offset() == 0,
            t.data().len() == shape_size(t.spec_shape()),
            pairwise(
                broadcast_reads(self.view_data(), self.view_shape(), self.view_strides(), self.view_offset(), t.spec_shape()),
                broadcast_reads(rhs.view_data(), rhs.view_shape(), rhs.view_strides(), rhs.view_offset(), t.spec_shape()),
                t.data(),
                |x: T, y: T, z: T| quotient_value(x, y, z),
            ),
    {
        let l = self.view();
        let rv = rhs.view();
        match broadcast_apply(&l, &rv, &quotient_of::<T>) {
            Ok(t) => t,
            Err(_) => {
                proof {
                    assert(false);
                }
                TensorBase::from_parts(Vec::new(), MetaTensor::new(Vec::new(), Vec::new(), 0))
            },
        }
    }
}

impl<'a, T> TensorView<'a, T> {
    /// Broadcast sum (see `broadcast_apply`); the shapes must be broadcastable.
    pub fn add_tensor<R: AsView<T>>(&self, rhs: &R) -> (t: TensorBase<T>)
        where T: Copy + num_traits::Float,
        requires
            rhs.view_wf(),
            broadcastable(self.view_shape(), rhs.view_shape()),
            sizes_fit(broadcast_shape(self.view_shape(), rhs.view_shape())),
        ensures
            t.wf(),
            t.spec_shape() == broadcast_shape(self.view_shape(), rhs.view_shape()),
            is_row_major(t.spec_shape(), t.spec_strides()),
            t.spec_offset() == 0,
            t.data().len() == shape_size(t.spec_shape()),
            pairwise(
                broadcast_reads(self.view_data(), self.view_shape(), self.view_strides(), self.view_offset(), t.spec_shape()),
                broadcast_reads(rhs.view_data(), rhs.view_shape(), rhs.view_strides(), rhs.view_offset(), t.spec_shape()),
                t.data(),
                |x: T, y: T, z: T| sum_value(x, y, z),
            ),
    {
        let l = self.view();
        let rv = rhs.view();
        match broadcast_apply(&l, &rv, &sum_of::<T>) {
            Ok(t) => t,
            Err(_) => {
                proof {
                    assert(false);
                }
                TensorBase::from_parts(Vec::new(), MetaTensor::new(Vec::new(), Vec::new(), 0))
            },
        }
    }

    /// Broadcast difference (see `broadcast_apply`); the shapes must be broadcastable.
    pub fn sub_tensor<R: AsView<T>>(&self, rhs: &R) -> (t: TensorBase<T>)
        where T: Copy + num_traits::Float,
        requires
            rhs.view_wf(),
            broadcastable(self.view_shape(), rhs.view_shape()),
            sizes_fit(broadcast_shape(self.view_shape(), rhs.view_shape())),
        ensures
            t.wf(),
            t.spec_shape() == broadcast_shape(self.view_shape(), rhs.view_shape()),
            is_row_major(t.spec_shape(), t.spec_strides()),
            t.spec_offset() == 0,
            t.data().len() == shape_size(t.spec_shape()),
            pairwise(
                broadcast_reads(self.view_data(), self.view_shape(), self.view_strides(), self.view_offset(), t.spec_shape()),
                broadcast_reads(rhs.view_data(), rhs.view_shape(), rhs.view_strides(), rhs.view_offset(), t.spec_shape()),
                t.data(),
                |x: T, y: T, z: T| difference_value(x, y, z),
            ),
    {
        let l = self.view();
        let rv = rhs.view();
        match broadcast_apply(&l, &rv, &difference_of::<T>) {
            Ok(t) => t,
            Err(_) => {
                proof {
                    assert(false);
                }
                TensorBase::from_parts(Vec::new(), MetaTensor::new(Vec::new(), Vec::new(), 0))
            },
        }
    }

    /// Broadcast product (see `broadcast_apply`); the shapes must be broadcastable.
    pub fn mul_tensor<R: AsView<T>>(&self, rhs: &R) -> (t: TensorBase<T>)
        where T: Copy + num_traits::Float,
        requires
            rhs.view_wf(),
            broadcastable(self.view_shape(), rhs.view_shape()),
            sizes_fit(broadcast_shape(self.view_shape(), rhs.view_shape())),
        ensures
            t.wf(),
            t.spec_shape() == broadcast_shape(self.view_shape(), rhs.view_shape()),
            is_row_major(t.spec_shape(), t.spec_strides()),
            t.spec_offset() == 0,
            t.data().len() == shape_size(t.spec_shape()),
            pairwise(
                broadcast_reads(self.view_data(), self.view_shape(), self.view_strides(), self.view_offset(), t.spec_shape()),
                broadcast_reads(rhs.view_data(), rhs.view_shape(), rhs.view_strides(), rhs.view_offset(), t.spec_shape()),
                t.data(),
                |x: T, y: T, z: T| product_value(x, y, z),
            ),
    {
        let l = self.view();
        let rv = rhs.view();
        match broadcast_apply(&l, &rv, &product_of::<T>) {
            Ok(t) => t,
            Err(_) => {
                proof {
                    assert(false);
                }
                TensorBase::from_parts(Vec::new(), MetaTensor::new(Vec::new(), Vec::new(), 0))
            },
        }
    }

    /// Broadcast quotient (see `broadcast_apply`); the shapes must be broadcastable.
    pub fn div_tensor<R: AsView<T>>(&self, rhs: &R) -> (t: TensorBase<T>)
        where T: Copy + num_traits::Float,
        requires
            rhs.view_wf(),
            broadcastable(self.view_shape(), rhs.view_shape()),
            sizes_fit(broadcast_shape(self.view_shape(), rhs.view_shape())),
        ensures
            t.wf(),
            t.spec_shape() == broadcast_shape(self.view_shape(), rhs.view_shape()),
            is_row_major(t.spec_shape(), t.spec_strides()),
            t.spec_offset() == 0,
            t.data().len() == shape_size(t.spec_shape()),
            pairwise(
                broadcast_reads(self.view_data(), self.view_shape(), self.view_strides(), self.view_offset(), t.spec_shape()),
                broadcast_reads(rhs.view_data(), rhs.view_shape(), rhs.view_strides(), rhs.view_offset(), t.spec_shape()),
                t.data(),
                |x: T, y: T, z: T| quotient_value(x, y, z),
            ),
    {
        let l = self.view();
        let rv = rhs.view();
        match broadcast_apply(&l, &rv, &quotient_of::<T>) {
            Ok(t) => t,
            Err(_) => {
                proof {
                    assert(false);
                }
                TensorBase::from_parts(Vec::new(), MetaTensor::new(Vec::new(), Vec::new(), 0))
            },
        }
    }
}

impl<'a, T> TensorViewMut<'a, T> {
    /// Broadcast sum (see `broadcast_apply`); the shapes must be broadcastable.
    pub fn add_tensor<R: AsView<T>>(&self, rhs: &R) -> (t: TensorBase<T>)
        where T: Copy + num_traits::Float,
        requires
            self.wf(),
            rhs.view_wf(),
            broadcastable(self.view_shape(), rhs.view_shape()),
            sizes_fit(broadcast_shape(self.view_shape(), rhs.view_shape())),
        ensures
            t.wf(),
            t.spec_shape() == broadcast_shape(self.view_shape(), rhs.view_shape()),
            is_row_major(t.spec_shape(), t.spec_strides()),
            t.spec_offset() == 0,
            t.data().len() == shape_size(t.spec_shape()),
            pairwise(
                broadcast_reads(self.view_data(), self.view_shape(), self.view_strides(), self.view_offset(), t.spec_shape()),
                broadcast_reads(rhs.view_data(), rhs.view_shape(), rhs.view_strides(), rhs.view_offset(), t.spec_shape()),
                t.data(),
                |x: T, y: T, z: T| sum_value(x, y, z),
            ),
    {
        let l = self.view();
        let rv = rhs.view();
        match broadcast_apply(&l, &rv, &sum_of::<T>) {
            Ok(t) => t,
            Err(_) => {
                proof {
                    assert(false);
                }
                TensorBase::from_parts(Vec::new(), MetaTensor::new(Vec::new(), Vec::new(), 0))
            },
        }
    }

    /// Broadcast difference (see `broadcast_apply`); the shapes must be broadcastable.
    pub fn sub_tensor<R: AsView<T>>(&self, rhs: &R) -> (t: TensorBase<T>)
        where T: Copy + num_traits::Float,
        requires
            self.wf(),
            rhs.view_wf(),
            broadcastable(self.view_shape(), rhs.view_shape()),
            sizes_fit(broadcast_shape(self.view_shape(), rhs.view_shape())),
        ensures
            t.wf(),
            t.spec_shape() == broadcast_shape(self.view_shape(), rhs.view_shape()),
            is_row_major(t.spec_shape(), t.spec_strides()),
            t.spec_offset() == 0,
            t.data().len() == shape_size(t.spec_shape()),
            pairwise(
                broadcast_reads(self.view_data(), self.view_shape(), self.view_strides(), self.view_offset(), t.spec_shape()),
                broadcast_reads(rhs.view_data(), rhs.view_shape(), rhs.view_strides(), rhs.view_offset(), t.spec_shape()),
                t.data(),
                |x: T, y: T, z: T| difference_value(x, y, z),
            ),
    {
        let l = self.view();
        let rv = rhs.view();
        match broadcast_apply(&l, &rv, &difference_of::<T>) {
            Ok(t) => t,
            Err(_) => {
                proof {
                    assert(false);
                }
                TensorBase::from_parts(Vec::new(), MetaTensor::new(Vec::new(), Vec::new(), 0))
            },
        }
    }

    /// Broadcast product (see `broadcast_apply`); the shapes must be broadcastable.
    pub fn mul_tensor<R: AsView<T>>(&self, rhs: &R) -> (t: TensorBase<T>)
        where T: Copy + num_traits::Float,
        requires
            self.wf(),
            rhs.view_wf(),
            broadcastable(self.view_shape(), rhs.view_shape()),
            sizes_fit(broadcast_shape(self.view_shape(), rhs.view_shape())),
        ensures
            t.wf(),
            t.spec_shape() == broadcast_shape(self.view_shape(), rhs.view_shape()),
            is_row_major(t.spec_shape(), t.spec_strides()),
            t.spec_offset() == 0,
            t.data().len() == shape_size(t.spec_shape()),
            pairwise(
                broadcast_reads(self.view_data(), self.view_shape(), self.view_strides(), self.view_offset(), t.spec_shape()),
                broadcast_reads(rhs.view_data(), rhs.view_shape(), rhs.view_strides(), rhs.view_offset(), t.spec_shape()),
                t.data(),
                |x: T, y: T, z: T| product_value(x, y, z),
            ),
    {
        let l = self.view();
        let rv = rhs.view();
        match broadcast_apply(&l, &rv, &product_of::<T>) {
            Ok(t) => t,
            Err(_) => {
                proof {
                    assert(false);
                }
                TensorBase::from_parts(Vec::new(), MetaTensor::new(Vec::new(), Vec::new(), 0))
            },
        }
    }

    /// Broadcast quotient (see `broadcast_apply`); the shapes must be broadcastable.
    pub fn div_tensor<R: AsView<T>>(&self, rhs: &R) -> (t: TensorBase<T>)
        where T: Copy + num_traits::Float,
        requires
            self.wf(),
            rhs.view_wf(),
            broadcastable(self.view_shape(), rhs.view_shape()),
            sizes_fit(broadcast_shape(self.view_shape(), rhs.view_shape())),
        ensures
            t.wf(),
            t.spec_shape() == broadcast_shape(self.view_shape(), rhs.view_shape()),
            is_row_major(t.spec_shape(), t.spec_strides()),
            t.spec_offset() == 0,
            t.data().len() == shape_size(t.spec_shape()),
            pairwise(
                broadcast_reads(self.view_data(), self.view_shape(), self.view_strides(), self.view_offset(), t.spec_shape()),
                broadcast_reads(rhs.view_data(), rhs.view_shape(), rhs.view_strides(), rhs.view_offset(), t.spec_shape()),
                t.data(),
                |x: T, y: T, z: T| quotient_value(x, y, z),
            ),
    {
        let l = self.view();
        let rv = rhs.view();
        match broadcast_apply(&l, &rv, &quotient_of::<T>) {
            Ok(t) => t,
            Err(_) => {
                proof {
                    assert(false);
                }
                TensorBase::from_parts(Vec::new(), MetaTensor::new(Vec::new(), Vec::new(), 0))
            },
        }
    }
}

// ---------------------------------------------------------------------------
// L1 loss
// ---------------------------------------------------------------------------

/// How the element-wise losses are combined.
#[derive(Clone, Copy, Debug, PartialEq, Eq, Structural)]
pub enum ReductionType {
    /// Their mean, as a rank-0 tensor.
    Mean,
    /// Their sum, as a rank-0 tensor.
    Sum,
    /// No combination: the tensor of element-wise losses.
    Elementwise,
}

/// Calls `num_traits::NumCast::from` to convert a count to a float (always
/// `Some` for `f32` and `f64`); nothing is claimed of the result.
#[verifier::external_body]
fn float_from_usize<T: num_traits::Float>(n: usize) -> Option<T> {
    T::from(n)
}

/// `sums` are the running sums of `s` from zero by float addition: `sums[0]`
/// is zero and each next one is the previous one plus the next entry.
pub open spec fn sums_from_zero<T: num_traits::Float>(s: Seq<T>, sums: Seq<T>) -> bool {
    &&& sums.len() == s.len() + 1
    &&& zero_value(sums[0])
    &&& forall|i: int| 0 <= i < s.len() ==> sum_value(sums[i], #[trigger] s[i], sums[i + 1])
}

/// `total` is the sum of the entries of `s`, in order from zero, by float
/// addition.
pub open spec fn float_total<T: num_traits::Float>(s: Seq<T>, total: T) -> bool {
    exists|sums: Seq<T>| #[trigger] sums_from_zero(s, sums) && sums.last() == total
}

/// Sum of a buffer's entries, in order, starting from zero.
fn sum_all<T: Copy + num_traits::Float>(data: &Vec<T>) -> (r: T)
    ensures
        float_total(data@, r),
{
    let mut acc = zero_of::<T>();
    let ghost mut sums: Seq<T> = seq![acc];
    let mut i: usize = 0;
    while i < data.len()
        invariant
            i <= data@.len(),
            sums.len() == i + 1,
            zero_value(sums[0]),
            forall|j: int| 0 <= j < i ==> sum_value(sums[j], #[trigger] data@[j], sums[j + 1]),
            sums[i as int] == acc,
        decreases data@.len() - i,
    {
        let x = data[i];
        let next = sum_of(acc, x);
        proof {
            sums = sums.push(next);
        }
        acc = next;
        i = i + 1;
    }
    assert(sums_from_zero(data@, sums));
    acc
}

/// `n` as a float through `num_traits::NumCast::from`: `c` is a value that
/// the call gives for `n`.
pub closed spec fn count_value<T: num_traits::Float>(n: usize, c: Option<T>) -> bool {
    call_ensures(float_from_usize::<T>, (n,), c)
}

/// Calls `f` on `a`.
fn apply1<A, B, F: Fn(A) -> B>(f: F, a: A) -> (b: B)
    requires
        call_requires(f, (a,)),
    ensures
        call_ensures(f, (a,), b),
{
    f(a)
}

/// `z` is `|x - y|`, each step by the float operations.
pub open spec fn abs_difference<T: num_traits::Float>(x: T, y: T, z: T) -> bool {
    exists|d: T| difference_value(x, y, d) && abs_value(d, z)
}

/// `e` holds, for each pair of broadcast reads `ra[k]`, `rb[k]`, the entry
/// `|ra[k] - rb[k]|` of the L1 loss.
pub open spec fn l1_entries<T: num_traits::Float>(ra: Seq<T>, rb: Seq<T>, e: Seq<T>) -> bool {
    &&& e.len() == ra.len()
    &&& pairwise(ra, rb, e, |x: T, y: T, z: T| abs_difference(x, y, z))
}

/// `v` is the mean of a total `s` over `n` entries: `s` divided by `n` as a
/// float, or `s` itself when `n` has no float value.
pub open spec fn mean_of<T: num_traits::Float>(s: T, n: usize, v: T) -> bool {
    exists|c: Option<T>| #[trigger] count_value(n, c) && match c {
        Some(cv) => quotient_value(s, cv, v),
        None => v == s,
    }
}

/// The elements of an operand read at each position of the broadcast of
/// `input` and `target` shapes.
pub open spec fn l1_reads<T, V: AsView<T>>(x: &V, out: Seq<usize>) -> Seq<T> {
    broadcast_reads(x.view_data(), x.view_shape(), x.view_strides(), x.view_offset(), out)
}

/// What the L1 loss of `ra` against `rb` under `reduction` holds: the entries
/// themselves, their total, or their mean.
pub open spec fn l1_result<T: num_traits::Float>(ra: Seq<T>, rb: Seq<T>, reduction: ReductionType, data: Seq<T>) -> bool {
    match reduction {
        ReductionType::Elementwise => l1_entries(ra, rb, data),
        ReductionType::Sum => data.len() == 1 && exists|e: Seq<T>| #[trigger] l1_entries(ra, rb, e) && float_total(e, data[0]),
        ReductionType::Mean => data.len() == 1 && exists|e: Seq<T>, s: T|
            #![trigger l1_entries(ra, rb, e), float_total(e, s)]
            l1_entries(ra, rb, e) && float_total(e, s) && mean_of(s, e.len() as usize, data[0]),
    }
}

/// Shape of the L1 loss of two operands under a reduction.
pub open spec fn l1_shape(a: Seq<usize>, b: Seq<usize>, reduction: ReductionType) -> Seq<usize> {
    match reduction {
        ReductionType::Elementwise => broadcast_shape(a, b),
        _ => Seq::empty(),
    }
}

/// The L1 loss `|input - target|` (broadcast), reduced by `reduction`: the
/// mean or the sum of the entries as a rank-0 tensor, or the tensor of
/// entries itself. The mean is the sum itself when the count has no float
/// value.
pub fn l1_loss<T: Copy + num_traits::Float, L: AsView<T>, R: AsView<T>>(
    input: &L,
    target: &R,
    reduction: ReductionType,
) -> (t: TensorBase<T>)
    requires
        input.view_wf(),
        target.view_wf(),
        broadcastable(input.view_shape(), target.view_shape()),
        sizes_fit(broadcast_shape(input.view_shape(), target.view_shape())),
    ensures
        t.wf(),
        t.spec_shape() == l1_shape(input.view_shape(), target.view_shape(), reduction),
        l1_result(
            l1_reads(input, broadcast_shape(input.view_shape(), target.view_shape())),
            l1_reads(target, broadcast_shape(input.view_shape(), target.view_shape())),
            reduction,
            t.data(),
        ),
{
    let ghost out = broadcast_shape(input.view_shape(), target.view_shape());
    let ghost ra = l1_reads(input, out);
    let ghost rb = l1_reads(target, out);
    let lhs = input.view();
    let rv = target.view();
    let d = lhs.sub_tensor(&rv);
    let ghost d0 = d.data();
    let mut diff = d;
    diff.abs_inplace();
    proof {
        crate::layout::lemma_row_major_positions(diff.spec_shape(), diff.spec_strides(), 0, 0);
        let ps = diff.spec_positions();
        assert(distinct(ps));
        assert(ra.len() == diff.data().len()) by {
            crate::layout::lemma_positions_len(out, broadcast_strides(input.view_shape(), input.view_strides(), out), 0, input.view_offset() as int);
        }
        assert forall|k: int| 0 <= k < diff.data().len() implies abs_difference(ra[k], rb[k], #[trigger] diff.data()[k]) by {
            assert(ps[k] == k);
            assert(abs_value(d0[ps[k]], diff.data()[ps[k]]));
            assert(difference_value(ra[k], rb[k], d0[k]));
        }
        assert(l1_entries(ra, rb, diff.data()));
    }
    match reduction {
        ReductionType::Elementwise => diff,
        ReductionType::Sum => {
            let s = sum_all(&diff.buf);
            let t = TensorBase::scalar(s);
            assert(t.data()[0] == s);
            t
        },
        ReductionType::Mean => {
            let s = sum_all(&diff.buf);
            let n = diff.size();
            let c = apply1(float_from_usize::<T>, n);
            proof {
                assert(count_value(n, c));
            }
            match c {
                Some(cv) => {
                    let v = quotient_of(s, cv);
                    let t = TensorBase::scalar(v);
                    assert(t.data()[0] == v);
                    t
                },
                None => {
                    let t = TensorBase::scalar(s);
                    assert(t.data()[0] == s);
                    t
                },
            }
        },
    }
}

/// The mean L1 loss, as a rank-0 tensor.
pub fn mean_l1_loss<T: Copy + num_traits::Float, L: AsView<T>, R: AsView<T>>(input: &L, target: &R) -> (t: TensorBase<T>)
    requires
        input.view_wf(),
        target.view_wf(),
        broadcastable(input.view_shape(), target.view_shape()),
        sizes_fit(broadcast_shape(input.view_shape(), target.view_shape())),
    ensures
        t.wf(),
        t.spec_shape() == Seq::<usize>::empty(),
        l1_result(
            l1_reads(input, broadcast_shape(input.view_shape(), target.view_shape())),
            l1_reads(target, broadcast_shape(input.view_shape(), target.view_shape())),
            ReductionType::Mean,
            t.data(),
        ),
{
    l1_loss(input, target, ReductionType::Mean)
}

/// The summed L1 loss, as a rank-0 tensor.
pub fn sum_l1_loss<T: Copy + num_traits::Float, L: AsView<T>, R: AsView<T>>(input: &L, target: &R) -> (t: TensorBase<T>)
    requires
        input.view_wf(),
        target.view_wf(),
        broadcastable(input.view_shape(), target.view_shape()),
        sizes_fit(broadcast_shape(input.view_shape(), target.view_shape())),
    ensures
        t.wf(),
        t.spec_shape() == Seq::<usize>::empty(),
        l1_result(
            l1_reads(input, broadcast_shape(input.view_shape(), target.view_shape())),
            l1_reads(target, broadcast_shape(input.view_shape(), target.view_shape())),
            ReductionType::Sum,
            t.data(),
        ),
{
    l1_loss(input, target, ReductionType::Sum)
}

} // verus!

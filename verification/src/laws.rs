//! Properties that relate several operations of the library, stated over
//! the specification functions their contracts use.
use vstd::prelude::*;
use crate::access::reversed_dims;
use crate::broadcast::{bdim, broadcast_shape, broadcastable, out_rank};
use crate::error::TensorError;
use crate::io::{converted, ImageData};
use crate::layout::{gather, layout_positions, lin, shape_size, size_from};
use crate::meta::{is_row_major, range_first, range_valid, slice_offset, slice_shape, slice_strides, slice_valid, squeeze_all, Idx, Slice};
use crate::pad::{lemma_zero_padding_block, no_padding, padded_block, padded_shape};
use crate::sums::{is_perm, perm_hits, permuted};
use crate::tensor::{index_in, read_result, write_result};

verus! {

/// Reading an index right after a successful write of `value` at it gives `value`.
pub proof fn law_get_after_set<T>(
    old: Seq<T>,
    new: Seq<T>,
    strides: Seq<isize>,
    offset: int,
    idx: Idx,
    value: T,
    w: Result<(), TensorError>,
    r: Result<T, TensorError>,
)
    requires
        write_result(old, new, strides, offset, idx, value, w),
        w is Ok,
        read_result(new, strides, offset, idx, r),
    ensures
        r == Ok::<T, TensorError>(value),
{
    if !index_in(old.len() as int, strides, offset, idx) {
        assert(idx.coord().len() == strides.len() ==> w is Err);
    }
    assert(new.len() == old.len());
}

/// The buffer index computed prefix by prefix agrees with the one computed
/// from the back.
proof fn lemma_lin_prefix_from(c: Seq<usize>, strides: Seq<isize>, offset: int, k: int)
    requires
        0 <= k <= c.len(),
    ensures
        crate::layout::lin_prefix(c, strides, offset, k) + crate::layout::lin_from(c, strides, k) == offset
            + crate::layout::lin_from(c, strides, 0),
    decreases k,
{
    if k > 0 {
        lemma_lin_prefix_from(c, strides, offset, k - 1);
    }
}

/// On a well-formed layout, a write at any coordinate inside the shape
/// succeeds, and reading that coordinate afterwards gives the value written.
pub proof fn law_get_after_set_inside_shape<T>(
    shape: Seq<usize>,
    old: Seq<T>,
    new: Seq<T>,
    strides: Seq<isize>,
    offset: int,
    idx: Idx,
    value: T,
    w: Result<(), TensorError>,
    r: Result<T, TensorError>,
)
    requires
        crate::layout::layout_fits(shape, strides, offset, old.len() as int),
        crate::layout::valid_coord(shape, idx.coord()),
        write_result(old, new, strides, offset, idx, value, w),
        read_result(new, strides, offset, idx, r),
    ensures
        w is Ok,
        r == Ok::<T, TensorError>(value),
{
    let c = idx.coord();
    lemma_lin_prefix_from(c, strides, offset, c.len() as int);
    assert(index_in(old.len() as int, strides, offset, idx));
    law_get_after_set(old, new, strides, offset, idx, value, w, r);
}

/// A write leaves every in-range index that denotes another buffer position
/// reading as before.
pub proof fn law_set_keeps_other_reads<T>(
    old: Seq<T>,
    new: Seq<T>,
    strides: Seq<isize>,
    offset: int,
    idx: Idx,
    other: Idx,
    value: T,
    w: Result<(), TensorError>,
    r_old: Result<T, TensorError>,
    r_new: Result<T, TensorError>,
)
    requires
        write_result(old, new, strides, offset, idx, value, w),
        read_result(old, strides, offset, other, r_old),
        read_result(new, strides, offset, other, r_new),
        index_in(old.len() as int, strides, offset, idx) ==> lin(other.coord(), strides, offset) != lin(
            idx.coord(),
            strides,
            offset,
        ),
    ensures
        index_in(old.len() as int, strides, offset, other) ==> r_new == r_old,
{
    assert(new.len() == old.len());
}

/// The ordering that undoes a permutation: entry `i` is the position of `i` in `p`.
pub open spec fn inverse_perm(p: Seq<usize>) -> Seq<usize> {
    Seq::new(p.len(), |i: int| (choose|k: int| 0 <= k < p.len() && p[k] == i) as usize)
}

/// Permuting by `p` and then by its inverse gives back the order one started
/// from (of a shape or of strides), and the inverse is itself a permutation.
pub proof fn law_permute_inverse<A>(s: Seq<A>, p: Seq<usize>)
    requires
        is_perm(p, s.len() as int),
        s.len() <= usize::MAX,
    ensures
        is_perm(inverse_perm(p), s.len() as int),
        permuted(permuted(s, p), inverse_perm(p)) == s,
        permuted(permuted(s, inverse_perm(p)), p) == s,
{
    let n = s.len() as int;
    let q = inverse_perm(p);
    assert forall|i: int| 0 <= i < n implies 0 <= #[trigger] q[i] < n && p[q[i] as int] == i by {
        assert(perm_hits(p, n, i));
        let k0 = choose|k: int| 0 <= k < n && #[trigger] p[k] == i;
        assert(0 <= k0 < p.len() && p[k0] == i);
        let k = choose|k: int| 0 <= k < p.len() && p[k] == i;
        assert(q[i] == k as usize);
    }
    assert forall|k1: int, k2: int| 0 <= k1 < n && 0 <= k2 < n && k1 != k2 implies q[k1] != q[k2] by {
        assert(p[q[k1] as int] == k1);
        assert(p[q[k2] as int] == k2);
    }
    assert forall|k: int| 0 <= k < n implies #[trigger] q[p[k] as int] == k by {
        let j = p[k] as int;
        assert(p[q[j] as int] == j);
        if q[j] as int != k {
            assert(p[q[j] as int] != p[k]);
        }
    }
    assert forall|i: int| 0 <= i < n implies #[trigger] perm_hits(q, n, i) by {
        assert(q[p[i] as int] == i);
    }
    assert(is_perm(q, n));
    assert(permuted(permuted(s, p), q) =~= s);
    assert(permuted(permuted(s, q), p) =~= s);
}

/// Reversing the order of the dimensions twice gives back the order one
/// started from: transposing twice restores shape and strides.
pub proof fn law_transpose_twice<A>(s: Seq<A>)
    requires
        s.len() <= usize::MAX,
    ensures
        permuted(permuted(s, reversed_dims(s.len() as int)), reversed_dims(s.len() as int)) == s,
{
    assert(permuted(permuted(s, reversed_dims(s.len() as int)), reversed_dims(s.len() as int)) =~= s);
}

/// Removing the dimension just inserted at `dim` gives back the shape and
/// strides one started from: `squeeze_at(dim)` undoes `unsqueeze_at(dim)`.
pub proof fn law_squeeze_undoes_unsqueeze(shape: Seq<usize>, strides: Seq<isize>, dim: int, stride: isize)
    requires
        0 <= dim <= shape.len(),
    ensures
        shape.insert(dim, 1).len() > dim && shape.insert(dim, 1)[dim] == 1,
        shape.insert(dim, 1).remove(dim) == shape,
        dim <= strides.len() ==> strides.insert(dim, stride).remove(dim) == strides,
{
    assert(shape.insert(dim, 1).remove(dim) =~= shape);
    if dim <= strides.len() {
        assert(strides.insert(dim, stride).remove(dim) =~= strides);
    }
}

/// Squeezing every dimension of size 1 is not changed by first inserting a
/// dimension of size 1 anywhere, whatever its stride: `squeeze()` after
/// `unsqueeze_at(dim)` gives what `squeeze()` gives.
pub proof fn law_squeeze_all_after_unsqueeze(shape: Seq<usize>, strides: Seq<isize>, dim: int, stride: isize)
    requires
        0 <= dim <= shape.len(),
        strides.len() == shape.len(),
    ensures
        squeeze_all(shape.insert(dim, 1), strides.insert(dim, stride)) == squeeze_all(shape, strides),
    decreases shape.len(),
{
    let s2 = shape.insert(dim, 1);
    let t2 = strides.insert(dim, stride);
    if dim == 0 {
        assert(s2.drop_first() =~= shape);
        assert(t2.drop_first() =~= strides);
    } else {
        law_squeeze_all_after_unsqueeze(shape.drop_first(), strides.drop_first(), dim - 1, stride);
        assert(s2.drop_first() =~= shape.drop_first().insert(dim - 1, 1));
        assert(t2.drop_first() =~= strides.drop_first().insert(dim - 1, stride));
        assert(s2[0] == shape[0]);
        assert(t2[0] == strides[0]);
    }
}

/// The elements of a row-major tensor at offset 0, in row-major order, are
/// its buffer: what `from_buf` is given is what its elements are.
pub proof fn law_row_major_elements<T>(data: Seq<T>, shape: Seq<usize>, strides: Seq<isize>)
    requires
        is_row_major(shape, strides),
        data.len() == shape_size(shape),
    ensures
        gather(data, layout_positions(shape, strides, 0)) == data,
{
    crate::layout::lemma_row_major_positions(shape, strides, 0, 0);
    assert(gather(data, layout_positions(shape, strides, 0)) =~= data);
}

/// Broadcasting is symmetric: the operands can be swapped.
pub proof fn law_broadcast_symmetric(a: Seq<usize>, b: Seq<usize>)
    ensures
        broadcastable(a, b) == broadcastable(b, a),
        broadcastable(a, b) ==> broadcast_shape(a, b) == broadcast_shape(b, a),
{
    assert(out_rank(a, b) == out_rank(b, a));
    let n = out_rank(a, b);
    if broadcastable(a, b) {
        assert forall|k: int| 0 <= k < n implies {
            let x = #[trigger] bdim(b, out_rank(b, a), k);
            let y = bdim(a, out_rank(b, a), k);
            x == y || x == 1 || y == 1
        } by {
            assert(bdim(a, n, k) == bdim(a, out_rank(b, a), k));
        }
        assert forall|k: int| 0 <= k < n implies #[trigger] broadcast_shape(a, b)[k] == broadcast_shape(b, a)[k] by {
            let x = bdim(a, n, k);
            let y = bdim(b, n, k);
            assert(x == y || x == 1 || y == 1);
        }
        assert(broadcast_shape(a, b) =~= broadcast_shape(b, a));
    }
    if broadcastable(b, a) {
        assert forall|k: int| 0 <= k < n implies {
            let x = #[trigger] bdim(a, out_rank(a, b), k);
            let y = bdim(b, out_rank(a, b), k);
            x == y || x == 1 || y == 1
        } by {
            assert(bdim(b, n, k) == bdim(b, out_rank(b, a), k));
        }
    }
}

/// A rank-0 operand broadcasts to any shape, which is the result's shape.
pub proof fn law_broadcast_scalar(s: Seq<usize>)
    ensures
        broadcastable(Seq::empty(), s),
        broadcast_shape(Seq::empty(), s) == s,
{
    let e = Seq::<usize>::empty();
    assert forall|k: int| 0 <= k < out_rank(e, s) implies #[trigger] broadcast_shape(e, s)[k] == s[k] by {
        assert(bdim(e, out_rank(e, s), k) == 1);
    }
    assert(broadcast_shape(e, s) =~= s);
}

/// Equal shapes broadcast to themselves.
pub proof fn law_broadcast_same(s: Seq<usize>)
    ensures
        broadcastable(s, s),
        broadcast_shape(s, s) == s,
{
    assert(broadcast_shape(s, s) =~= s);
}

/// Padding every dimension by zero indices gives the same shape and the
/// same elements, in the same order.
pub proof fn law_zero_padding_is_a_copy<T: crate::value::TensorValue>(e: Seq<T>, shape: Seq<usize>, pad: Seq<usize>)
    requires
        pad.len() == shape.len(),
        no_padding(pad),
        e.len() == shape_size(shape),
    ensures
        padded_shape(shape, pad) == shape,
        padded_block(e, shape, pad, 0) == e,
{
    assert(padded_shape(shape, pad) =~= shape);
    lemma_zero_padding_block(e, shape, pad, 0);
}

/// An RGB image made from a `[height, width, 3]` tensor has that tensor's
/// shape as `[height, width, channels]` and its buffer as samples: loading
/// it back gives the tensor one started from.
pub proof fn law_image_round_trip(shape: Seq<usize>, buf: Seq<u8>, r: Result<ImageData, TensorError>)
    requires
        shape.len() == 3,
        shape[2] == 3,
        shape[0] <= u32::MAX,
        shape[1] <= u32::MAX,
        converted(r, 3, shape, buf),
        r is Ok,
    ensures
        r matches Ok(img) && seq![img.height as usize, img.width as usize, img.channels] == shape && img.pixels@
            == buf,
{
    if let Ok(img) = r {
        assert(seq![img.height as usize, img.width as usize, img.channels] =~= shape);
    }
}


/// Counting the steps of `b` that fit strictly below `a`: `q` of them fit
/// and the `q`-th step reaches `a` or beyond.
proof fn lemma_steps_below(a: int, b: int, q: int)
    requires
        a >= 1,
        b >= 1,
        q == (a + b - 1) / b,
    ensures
        q >= 1,
        q * b >= a,
        forall|j: int| 0 <= j < q ==> #[trigger] (j * b) < a,
{
    let r = (a + b - 1) % b;
    assert(a + b - 1 == q * b + r && 0 <= r < b) by (nonlinear_arith)
        requires
            b >= 1,
            q == (a + b - 1) / b,
            r == (a + b - 1) % b,
    ;
    assert(q >= 1) by (nonlinear_arith)
        requires
            a + b - 1 == q * b + r,
            0 <= r < b,
            a >= 1,
            b >= 1,
    ;
    assert forall|j: int| 0 <= j < q implies #[trigger] (j * b) < a by {
        assert(j * b <= (q - 1) * b) by (nonlinear_arith)
            requires
                0 <= j <= q - 1,
                b >= 1,
        ;
        assert((q - 1) * b == q * b - b) by (nonlinear_arith);
    }
}

/// Counting the steps of `m` that stay at or above zero from `f`: `q` of
/// them do, and the `q`-th step goes below zero.
proof fn lemma_steps_down_to_zero(f: int, m: int, q: int)
    requires
        f >= 0,
        m >= 1,
        q == f / m + 1,
    ensures
        q >= 1,
        q * m > f,
        forall|j: int| 0 <= j < q ==> #[trigger] (j * m) <= f,
{
    let d = f / m;
    let r = f % m;
    assert(f == d * m + r && 0 <= r < m && d >= 0) by (nonlinear_arith)
        requires
            f >= 0,
            m >= 1,
            d == f / m,
            r == f % m,
    ;
    assert(q * m == d * m + m) by (nonlinear_arith)
        requires
            q == d + 1,
    ;
    assert forall|j: int| 0 <= j < q implies #[trigger] (j * m) <= f by {
        assert(j * m <= d * m) by (nonlinear_arith)
            requires
                0 <= j <= d,
                m >= 1,
        ;
    }
}

/// The size of dimension `dim` after slicing it with a range.
pub open spec fn kept_len(shape: Seq<usize>, dim: int, start: Option<usize>, stop: Option<usize>, step: isize) -> int {
    slice_shape(shape, dim, Slice::Range { start, stop, step })[dim] as int
}

/// Where a forward range stops: its stop, or one past the end.
pub open spec fn range_end(n: int, stop: Option<usize>) -> int {
    match stop {
        Some(e) => e as int,
        None => n,
    }
}

/// Slicing a dimension with a range `start..stop` by `step` keeps exactly
/// the indices `first, first + step, first + 2 * step, ...` that come
/// before the stop in the step's direction, where `first` is the start (by
/// default the first index, or the last one for a negative step) and the
/// stop is by default one past the end (or, for a negative step, one before
/// index 0): each kept index lies before the stop, and one more step would
/// reach or pass it, so no selectable index is left out.
pub proof fn law_slice_keeps_every_step_before_stop(
    shape: Seq<usize>,
    dim: int,
    start: Option<usize>,
    stop: Option<usize>,
    step: isize,
)
    requires
        slice_valid(shape, dim, Slice::Range { start, stop, step }),
    ensures
        slice_shape(shape, dim, Slice::Range { start, stop, step }).len() == shape.len(),
        0 <= kept_len(shape, dim, start, stop, step) <= shape[dim],
        step > 0 ==> forall|j: int|
            0 <= j < kept_len(shape, dim, start, stop, step) ==> #[trigger] (range_first(shape[dim] as int, start, step as int)
                + j * step) < range_end(shape[dim] as int, stop),
        step > 0 ==> range_first(shape[dim] as int, start, step as int) + kept_len(shape, dim, start, stop, step) * step
            >= range_end(shape[dim] as int, stop),
        step < 0 && stop is Some ==> forall|j: int|
            0 <= j < kept_len(shape, dim, start, stop, step) ==> #[trigger] (range_first(shape[dim] as int, start, step as int)
                + j * step) > stop->0,
        step < 0 && stop is Some ==> range_first(shape[dim] as int, start, step as int) + kept_len(shape, dim, start, stop, step)
            * step <= stop->0,
        step < 0 && stop is None ==> forall|j: int|
            0 <= j < kept_len(shape, dim, start, stop, step) ==> #[trigger] (range_first(shape[dim] as int, start, step as int)
                + j * step) >= 0,
        step < 0 && stop is None ==> range_first(shape[dim] as int, start, step as int) + kept_len(shape, dim, start, stop, step)
            * step < 0,
{
    let n = shape[dim] as int;
    let st = step as int;
    crate::fits::lemma_range_len_bound(n, start, stop, st);
    let len = crate::meta::range_len(n, start, stop, st);
    let first = range_first(n, start, st);
    assert(slice_shape(shape, dim, Slice::Range { start, stop, step })[dim] as int == len);
    if st > 0 {
        let end = range_end(n, stop);
        if end > first {
            lemma_steps_below(end - first, st, len);
            assert forall|j: int| 0 <= j < len implies #[trigger] (first + j * st) < end by {
                assert((j * st) < end - first);
            }
        }
    } else {
        let m = -st;
        match stop {
            Some(e) => {
                if first > e {
                    lemma_steps_below(first - e, m, len);
                    assert forall|j: int| 0 <= j < len implies #[trigger] (first + j * st) > e by {
                        assert((j * m) < first - e);
                        assert(j * st == -(j * m)) by (nonlinear_arith)
                            requires
                                m == -st,
                        ;
                    }
                    assert(len * st == -(len * m)) by (nonlinear_arith)
                        requires
                            m == -st,
                    ;
                } else {
                    assert(len == 0);
                    assert(len * st == 0);
                }
                assert(first + len * st <= e);
            },
            None => {
                if first >= 0 {
                    lemma_steps_down_to_zero(first, m, len);
                    assert forall|j: int| 0 <= j < len implies #[trigger] (first + j * st) >= 0 by {
                        assert((j * m) <= first);
                        assert(j * st == -(j * m)) by (nonlinear_arith)
                            requires
                                m == -st,
                        ;
                    }
                    assert(len * st == -(len * m)) by (nonlinear_arith)
                        requires
                            m == -st,
                    ;
                }
            },
        }
    }
}


/// Slicing a dimension with a range keeps the other dimensions as they were,
/// multiplies the dimension's stride by the step, and starts the new layout
/// at the first kept index — the start, or by default index 0 for a
/// positive step and the last index for a negative one — so that the `j`-th
/// kept element is the one at index `first + j * step` of the old layout.
pub proof fn law_slice_layout(
    shape: Seq<usize>,
    strides: Seq<isize>,
    offset: int,
    dim: int,
    start: Option<usize>,
    stop: Option<usize>,
    step: isize,
)
    requires
        slice_valid(shape, dim, Slice::Range { start, stop, step }),
        strides.len() == shape.len(),
        isize::MIN <= (strides[dim] as int) * (step as int) <= isize::MAX,
    ensures
        ({
            let first: int = match start {
                Some(a) => a as int,
                None => if step > 0 { 0 } else { shape[dim] - 1 },
            };
            let idx = Slice::Range { start, stop, step };
            &&& slice_strides(strides, dim, idx).len() == strides.len()
            &&& slice_strides(strides, dim, idx)[dim] == (strides[dim] as int) * (step as int)
            &&& forall|i: int| 0 <= i < shape.len() && i != dim ==> #[trigger] slice_shape(shape, dim, idx)[i] == shape[i]
                && slice_strides(strides, dim, idx)[i] == strides[i]
            &&& (kept_len(shape, dim, start, stop, step) > 0 && 0 <= offset + first * strides[dim] <= usize::MAX)
                ==> slice_offset(shape, strides, offset, dim, idx) == offset + first * strides[dim]
            &&& forall|j: int| #[trigger] (offset + (first + j * step) * strides[dim]) == offset + first * strides[dim] + j
                * ((strides[dim] as int) * (step as int))
        }),
{
    let idx = Slice::Range { start, stop, step };
    assert forall|j: int| #[trigger] (offset + (range_first(shape[dim] as int, start, step as int) + j * step) * strides[dim])
        == offset + range_first(shape[dim] as int, start, step as int) * strides[dim] + j * ((strides[dim] as int) * (step as int)) by {
        let f = range_first(shape[dim] as int, start, step as int);
        let t = strides[dim] as int;
        let st = step as int;
        assert((f + j * st) * t == f * t + j * (t * st)) by (nonlinear_arith);
    }
}

} // verus!

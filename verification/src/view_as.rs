//! Viewing a contiguous layout through another shape of the same size,
//! without copying, and the fan-in and fan-out of a weight shape.
use vstd::prelude::*;
use crate::error::{msg, TensorError};
use crate::layout::{block, coord_index, layout_fits, layout_positions, lin_from, positions, shape_size, size_from, valid_coord};
use crate::meta::{is_row_major, shape_size_of, shape_to_stride, sizes_fit, MetaTensor};
use crate::tensor::{TensorView, TensorViewMut};

verus! {

broadcast use crate::tensor::group_tensor_parts;

/// Row-major except along dimensions of length 1, whose strides are free.
pub open spec fn relaxed_contiguous(shape: Seq<usize>, strides: Seq<isize>) -> bool {
    &&& strides.len() == shape.len()
    &&& forall|i: int| 0 <= i < shape.len() && shape[i] != 1 ==> #[trigger] strides[i] as int == size_from(shape, i + 1)
}

/// The row-major strides of a shape.
pub open spec fn row_major_strides(shape: Seq<usize>) -> Seq<isize> {
    Seq::new(shape.len(), |i: int| size_from(shape, i + 1) as isize)
}

/// Whether the layout is row-major except along dimensions of length 1.
pub fn is_contiguous_relaxed(shape: &Vec<usize>, strides: &Vec<isize>) -> (b: bool)
    requires
        sizes_fit(shape@),
        shape@.len() == strides@.len(),
    ensures
        b == relaxed_contiguous(shape@, strides@),
{
    let n = shape.len();
    let mut acc: usize = 1;
    let mut i = n;
    while i > 0
        invariant
            i <= n,
            n == shape@.len(),
            n == strides@.len(),
            sizes_fit(shape@),
            acc == size_from(shape@, i as int),
            forall|j: int| i <= j < n && shape@[j] != 1 ==> #[trigger] strides@[j] as int == size_from(shape@, j + 1),
        decreases i,
    {
        i = i - 1;
        assert(size_from(shape@, i + 1) <= isize::MAX);
        if shape[i] != 1 && strides[i] != acc as isize {
            return false;
        }
        assert(size_from(shape@, i as int) == (shape@[i as int] as nat) * size_from(shape@, i + 1));
        assert(size_from(shape@, i as int) <= isize::MAX);
        acc = shape[i] * acc;
    }
    true
}

/// Positions depend on strides only along dimensions longer than 1.
proof fn lemma_positions_ignore_unit(shape: Seq<usize>, st1: Seq<isize>, st2: Seq<isize>, d: int, off: int)
    requires
        0 <= d,
        forall|i: int| d <= i < shape.len() && shape[i] != 1 ==> st1[i] == st2[i],
    ensures
        positions(shape, st1, d, off) == positions(shape, st2, d, off),
    decreases shape.len() - d, 1int,
{
    if d < shape.len() {
        lemma_block_ignore_unit(shape, st1, st2, d, off, shape[d] as int);
    }
}

proof fn lemma_block_ignore_unit(shape: Seq<usize>, st1: Seq<isize>, st2: Seq<isize>, d: int, off: int, n: int)
    requires
        0 <= d < shape.len(),
        n <= shape[d],
        forall|i: int| d <= i < shape.len() && shape[i] != 1 ==> st1[i] == st2[i],
    ensures
        block(shape, st1, d, off, n) == block(shape, st2, d, off, n),
    decreases shape.len() - d, 0int, n,
{
    if n > 0 {
        lemma_block_ignore_unit(shape, st1, st2, d, off, n - 1);
        if shape[d] == 1 {
            assert(n - 1 == 0);
            assert((n - 1) * st1[d] == 0);
            assert((n - 1) * st2[d] == 0);
        }
        lemma_positions_ignore_unit(shape, st1, st2, d + 1, off + (n - 1) * st1[d]);
    }
}

/// Coordinate indices depend on strides only along dimensions longer than 1.
proof fn lemma_lin_ignore_unit(shape: Seq<usize>, st1: Seq<isize>, st2: Seq<isize>, c: Seq<usize>, d: int)
    requires
        0 <= d,
        valid_coord(shape, c),
        forall|i: int| d <= i < shape.len() && shape[i] != 1 ==> st1[i] == st2[i],
    ensures
        lin_from(c, st1, d) == lin_from(c, st2, d),
    decreases c.len() - d,
{
    if d < c.len() {
        lemma_lin_ignore_unit(shape, st1, st2, c, d + 1);
        if shape[d] == 1 {
            assert(c[d] == 0);
        }
    }
}

/// A relaxed-contiguous layout visits `offset, offset + 1, ...`, and it fits
/// a buffer exactly when its row-major counterpart does.
proof fn lemma_relaxed(shape: Seq<usize>, strides: Seq<isize>, offset: int, len: int)
    requires
        relaxed_contiguous(shape, strides),
        sizes_fit(shape),
        layout_fits(shape, strides, offset, len),
    ensures
        layout_positions(shape, strides, offset) =~= Seq::new(size_from(shape, 0), |k: int| offset + k),
        layout_fits(shape, row_major_strides(shape), offset, len),
        is_row_major(shape, row_major_strides(shape)),
{
    let rm = row_major_strides(shape);
    assert forall|i: int| 0 <= i < shape.len() implies #[trigger] rm[i] as int == size_from(shape, i + 1) by {
        assert(size_from(shape, i + 1) <= isize::MAX);
    }
    assert forall|i: int| 0 <= i < shape.len() && shape[i] != 1 implies strides[i] == rm[i] by {
        assert(strides[i] as int == size_from(shape, i + 1));
        assert(rm[i] as int == size_from(shape, i + 1));
    }
    lemma_positions_ignore_unit(shape, strides, rm, 0, offset);
    crate::layout::lemma_row_major_positions(shape, rm, 0, offset);
    assert forall|c: Seq<usize>| #[trigger] valid_coord(shape, c) implies 0 <= coord_index(c, rm, offset) < len by {
        lemma_lin_ignore_unit(shape, strides, rm, c, 0);
        assert(0 <= coord_index(c, strides, offset) < len);
    }
}

/// The layout `v` viewed through `shape` (row-major strides, same offset).
///
/// Errors: `ContiguityError` when `v` is not row-major apart from
/// dimensions of length 1; `InvalidShape` when the sizes differ.
pub fn view_as_inner<'a, T>(v: TensorView<'a, T>, shape: Vec<usize>) -> (r: Result<TensorView<'a, T>, TensorError>)
    requires
        sizes_fit(v.spec_shape()),
        sizes_fit(shape@),
    ensures
        !relaxed_contiguous(v.spec_shape(), v.spec_strides()) ==> (r matches Err(e) && e is ContiguityError),
        relaxed_contiguous(v.spec_shape(), v.spec_strides()) && shape_size(shape@) != shape_size(v.spec_shape())
            ==> (r matches Err(e) && e is InvalidShape),
        relaxed_contiguous(v.spec_shape(), v.spec_strides()) && shape_size(shape@) == shape_size(v.spec_shape())
            ==> (r matches Ok(w) && w.data() == v.data() && w.spec_shape() == shape@ && is_row_major(
            w.spec_shape(),
            w.spec_strides(),
        ) && w.spec_offset() == v.spec_offset() && w.elems() == v.elems()),
{
    proof {
        use_type_invariant(&v);
    }
    if !is_contiguous_relaxed(&v.meta.shape, &v.meta.strides) {
        return Err(TensorError::ContiguityError(msg("cannot view a non-contiguous tensor through another shape")));
    }
    let n = shape_size_of(&shape);
    let m = shape_size_of(&v.meta.shape);
    if n != m {
        return Err(TensorError::InvalidShape(msg("invalid size for the initial shape")));
    }
    let strides = shape_to_stride(&shape);
    let offset = v.meta.offset;
    proof {
        lemma_relaxed(v.meta.shape@, v.meta.strides@, offset as int, v.buf@.len() as int);
        crate::fits::lemma_row_major_offset_fits(
            shape@,
            strides@,
            offset as int,
            v.meta.shape@,
            row_major_strides(v.meta.shape@),
            v.buf@.len() as int,
        );
        crate::layout::lemma_row_major_positions(shape@, strides@, 0, offset as int);
    }
    let w = TensorView::from_parts(v.buf, MetaTensor::new(shape, strides, offset));
    assert(w.spec_positions() =~= v.spec_positions());
    Ok(w)
}

/// The mutable layout `v` viewed through `shape` (row-major strides, same
/// offset).
///
/// Errors: `ContiguityError` when `v` is not row-major apart from
/// dimensions of length 1; `InvalidShape` when the sizes differ.
pub fn view_as_mut_inner<'a, T>(v: TensorViewMut<'a, T>, shape: Vec<usize>) -> (r: Result<TensorViewMut<'a, T>, TensorError>)
    requires
        v.wf(),
        sizes_fit(v.spec_shape()),
        sizes_fit(shape@),
    ensures
        !relaxed_contiguous(v.spec_shape(), v.spec_strides()) ==> (r matches Err(e) && e is ContiguityError),
        relaxed_contiguous(v.spec_shape(), v.spec_strides()) && shape_size(shape@) != shape_size(v.spec_shape())
            ==> (r matches Err(e) && e is InvalidShape),
        relaxed_contiguous(v.spec_shape(), v.spec_strides()) && shape_size(shape@) == shape_size(v.spec_shape())
            ==> (r matches Ok(w) && w.wf() && w.data() == v.data() && w.spec_shape() == shape@ && is_row_major(
            w.spec_shape(),
            w.spec_strides(),
        ) && w.spec_offset() == v.spec_offset() && w.spec_positions() == v.spec_positions()),
{
    let m0 = v.meta();
    if !is_contiguous_relaxed(&m0.shape, &m0.strides) {
        return Err(TensorError::ContiguityError(msg("cannot view a non-contiguous tensor through another shape")));
    }
    let n = shape_size_of(&shape);
    let m = shape_size_of(&m0.shape);
    if n != m {
        return Err(TensorError::InvalidShape(msg("invalid size for the initial shape")));
    }
    let strides = shape_to_stride(&shape);
    let offset = m0.offset;
    let len = v.buffer_len();
    proof {
        lemma_relaxed(m0.shape@, m0.strides@, offset as int, len as int);
        crate::fits::lemma_row_major_offset_fits(
            shape@,
            strides@,
            offset as int,
            m0.shape@,
            row_major_strides(m0.shape@),
            len as int,
        );
        crate::layout::lemma_row_major_positions(shape@, strides@, 0, offset as int);
    }
    let ghost old_positions = v.spec_positions();
    let w = v.relayout(MetaTensor::new(shape, strides, offset));
    assert(w.spec_positions() =~= old_positions);
    Ok(w)
}

/// Fan-in and fan-out of a weight shape: `(in, out)` of an `[out, in]`
/// matrix, otherwise the last dimension and the number of elements divided
/// by it.
pub fn fan_in_out(shape: &Vec<usize>) -> (r: (usize, usize))
    requires
        shape@.len() >= 1,
        sizes_fit(shape@),
        shape@.len() != 2 ==> shape@[shape@.len() - 1] != 0,
    ensures
        shape@.len() == 2 ==> r == (shape@[1], shape@[0]),
        shape@.len() != 2 ==> r.0 == shape@[shape@.len() - 1] && r.1 == shape_size(shape@) / (r.0 as nat),
{
    if shape.len() == 2 {
        return (shape[1], shape[0]);
    }
    let fan_in = shape[shape.len() - 1];
    let fan_out = shape_size_of(shape) / fan_in;
    (fan_in, fan_out)
}

} // verus!

//! View access: reading and writing elements, slicing, permuting, and
//! adding or removing unit dimensions.
use vstd::prelude::*;
use crate::error::{msg, TensorError};
use crate::fits::{
    lemma_fits_index_slice, lemma_fits_permuted, lemma_fits_range_slice, lemma_fits_remove_unit,
    lemma_fits_squeeze_all, lemma_fits_unsqueezed, lemma_range_len_bound,
};
use crate::layout::{gather, layout_positions, lemma_row_major_positions, shape_size, size_from};
use crate::meta::{
    check_perm, is_row_major, shape_size_of, shape_to_stride, sizes_fit, compute_permuted_parameters, compute_sliced_parameters,
    compute_squeezed_parameters, compute_unsqueezed_parameters, slice_computable, slice_error,
    slice_offset, slice_shape, slice_strides, slice_valid, squeeze_all, unsqueeze_stride, Idx,
    MetaTensor, Slice,
};
use crate::sums::{is_perm, permuted};
use crate::tensor::{
    index_computable, read_at, read_result, write_at, write_result, TensorBase, TensorView,
    TensorViewMut,
};

verus! {

broadcast use crate::tensor::group_tensor_parts;

/// The dimensions of a tensor of the given rank, in reverse order.
pub open spec fn reversed_dims(n: int) -> Seq<usize> {
    Seq::new(n as nat, |i: int| (n - 1 - i) as usize)
}

/// Read-only access to the buffer and layout of a tensor or view.
pub trait AsView<T> {
    spec fn view_data(&self) -> Seq<T>;

    spec fn view_shape(&self) -> Seq<usize>;

    spec fn view_strides(&self) -> Seq<isize>;

    spec fn view_offset(&self) -> int;

    /// The layout lies inside the buffer.
    spec fn view_wf(&self) -> bool;

    /// A view sharing the buffer and layout.
    fn view(&self) -> (v: TensorView<'_, T>)
        requires
            self.view_wf(),
        ensures
            v.data() == self.view_data(),
            v.spec_shape() == self.view_shape(),
            v.spec_strides() == self.view_strides(),
            v.spec_offset() == self.view_offset(),
    ;

    /// The layout viewed through another shape of the same size, without
    /// copying (see `view_as_inner`).
    ///
    /// Errors: `ContiguityError` when the layout is not row-major apart from
    /// dimensions of length 1; `InvalidShape` when the sizes differ.
    fn view_as(&self, shape: Vec<usize>) -> (r: Result<TensorView<'_, T>, TensorError>)
        requires
            self.view_wf(),
            sizes_fit(self.view_shape()),
            sizes_fit(shape@),
        ensures
            !crate::view_as::relaxed_contiguous(self.view_shape(), self.view_strides()) ==> (r matches Err(e)
                && e is ContiguityError),
            crate::view_as::relaxed_contiguous(self.view_shape(), self.view_strides()) && shape_size(shape@)
                != shape_size(self.view_shape()) ==> (r matches Err(e) && e is InvalidShape),
            crate::view_as::relaxed_contiguous(self.view_shape(), self.view_strides()) && shape_size(shape@)
                == shape_size(self.view_shape()) ==> (r matches Ok(w) && w.data() == self.view_data()
                && w.spec_shape() == shape@ && is_row_major(w.spec_shape(), w.spec_strides())
                && w.spec_offset() == self.view_offset() && w.elems() == view_elems(
                self.view_data(),
                self.view_shape(),
                self.view_strides(),
                self.view_offset(),
            )),
    {
        crate::view_as::view_as_inner(self.view(), shape)
    }
}

/// Mutable access to the buffer and layout of a tensor or mutable view.
pub trait AsViewMut<T>: AsView<T> {
    /// A mutable view sharing the buffer and layout.
    fn view_mut(&mut self) -> (v: TensorViewMut<'_, T>)
        requires
            old(self).view_wf(),
        ensures
            v.wf(),
            v.data() == old(self).view_data(),
            v.spec_shape() == old(self).view_shape(),
            v.spec_strides() == old(self).view_strides(),
            v.spec_offset() == old(self).view_offset(),
    ;

    /// The mutable layout viewed through another shape of the same size,
    /// without copying (see `view_as_mut_inner`).
    ///
    /// Errors: `ContiguityError` when the layout is not row-major apart from
    /// dimensions of length 1; `InvalidShape` when the sizes differ.
    fn view_as_mut(&mut self, shape: Vec<usize>) -> (r: Result<TensorViewMut<'_, T>, TensorError>)
        requires
            old(self).view_wf(),
            sizes_fit(old(self).view_shape()),
            sizes_fit(shape@),
        ensures
            !crate::view_as::relaxed_contiguous(old(self).view_shape(), old(self).view_strides()) ==> (r matches Err(
                e,
            ) && e is ContiguityError),
            crate::view_as::relaxed_contiguous(old(self).view_shape(), old(self).view_strides()) && shape_size(
                shape@,
            ) != shape_size(old(self).view_shape()) ==> (r matches Err(e) && e is InvalidShape),
            crate::view_as::relaxed_contiguous(old(self).view_shape(), old(self).view_strides()) && shape_size(
                shape@,
            ) == shape_size(old(self).view_shape()) ==> (r matches Ok(w) && w.wf() && w.data() == old(
                self,
            ).view_data() && w.spec_shape() == shape@ && is_row_major(w.spec_shape(), w.spec_strides())
                && w.spec_offset() == old(self).view_offset()),
    {
        let v = self.view_mut();
        crate::view_as::view_as_mut_inner(v, shape)
    }
}

impl<T> AsView<T> for TensorBase<T> {
    open spec fn view_data(&self) -> Seq<T> {
        self.data()
    }

    open spec fn view_shape(&self) -> Seq<usize> {
        self.spec_shape()
    }

    open spec fn view_strides(&self) -> Seq<isize> {
        self.spec_strides()
    }

    open spec fn view_offset(&self) -> int {
        self.spec_offset()
    }

    open spec fn view_wf(&self) -> bool {
        self.wf()
    }

    fn view(&self) -> (v: TensorView<'_, T>) {
        TensorView::from_parts(&self.buf, self.meta.clone_meta())
    }
}

impl<'a, T> AsView<T> for TensorView<'a, T> {
    open spec fn view_data(&self) -> Seq<T> {
        self.data()
    }

    open spec fn view_shape(&self) -> Seq<usize> {
        self.spec_shape()
    }

    open spec fn view_strides(&self) -> Seq<isize> {
        self.spec_strides()
    }

    open spec fn view_offset(&self) -> int {
        self.spec_offset()
    }

    open spec fn view_wf(&self) -> bool {
        true
    }

    fn view(&self) -> (v: TensorView<'_, T>) {
        proof {
            use_type_invariant(self);
        }
        TensorView::from_parts(self.buf, self.meta.clone_meta())
    }
}

impl<'a, T> AsView<T> for TensorViewMut<'a, T> {
    open spec fn view_data(&self) -> Seq<T> {
        self.data()
    }

    open spec fn view_shape(&self) -> Seq<usize> {
        self.spec_shape()
    }

    open spec fn view_strides(&self) -> Seq<isize> {
        self.spec_strides()
    }

    open spec fn view_offset(&self) -> int {
        self.spec_offset()
    }

    open spec fn view_wf(&self) -> bool {
        self.wf()
    }

    fn view(&self) -> (v: TensorView<'_, T>) {
        self.view_ref()
    }
}

impl<T> AsViewMut<T> for TensorBase<T> {
    fn view_mut(&mut self) -> (v: TensorViewMut<'_, T>) {
        let m = self.meta.clone_meta();
        TensorViewMut::from_parts(&mut self.buf, m)
    }
}

impl<'a, T> AsViewMut<T> for TensorViewMut<'a, T> {
    fn view_mut(&mut self) -> (v: TensorViewMut<'_, T>) {
        self.reborrow()
    }
}

/// Element access and view operations of tensors and views.
pub trait TensorAccess<T: Copy>: AsView<T> + Sized {
    /// Reads the element at `idx`.
    ///
    /// Errors: `WrongDims` when the index rank differs from the tensor rank,
    /// `IdxOutOfBounds` when it denotes no element of the buffer.
    fn get(&self, idx: &Idx) -> (r: Result<T, TensorError>)
        requires
            self.view_wf(),
            index_computable(self.view_strides(), self.view_offset(), *idx),
        ensures
            read_result(self.view_data(), self.view_strides(), self.view_offset(), *idx, r),
    ;

    /// Reads the element of a rank-0 tensor.
    fn item(&self) -> (r: Result<T, TensorError>)
        requires
            self.view_wf(),
            index_computable(self.view_strides(), self.view_offset(), Idx::Item),
        ensures
            read_result(self.view_data(), self.view_strides(), self.view_offset(), Idx::Item, r),
    {
        self.get(&Idx::Item)
    }

    /// A view of the indices `idx` of dimension `dim`.
    fn slice(&self, dim: usize, idx: Slice) -> (r: Result<TensorView<'_, T>, TensorError>)
        requires
            self.view_wf(),
            slice_computable(self.view_strides(), dim as int, idx),
        ensures
            !slice_valid(self.view_shape(), dim as int, idx) ==> (r matches Err(e) && slice_error(
                self.view_shape(),
                dim as int,
                idx,
                e,
            )),
            slice_valid(self.view_shape(), dim as int, idx) ==> (r matches Ok(v) && v.data()
                == self.view_data() && v.spec_shape() == slice_shape(
                self.view_shape(),
                dim as int,
                idx,
            ) && v.spec_strides() == slice_strides(self.view_strides(), dim as int, idx)
                && v.spec_offset() == slice_offset(
                self.view_shape(),
                self.view_strides(),
                self.view_offset(),
                dim as int,
                idx,
            )),
    ;

    /// A view of index `at` of dimension `dim`; the dimension is removed.
    fn slice_at(&self, dim: usize, at: usize) -> (r: Result<TensorView<'_, T>, TensorError>)
        requires
            self.view_wf(),
        ensures
            !slice_valid(self.view_shape(), dim as int, Slice::Index(at)) ==> (r matches Err(e)
                && slice_error(self.view_shape(), dim as int, Slice::Index(at), e)),
            slice_valid(self.view_shape(), dim as int, Slice::Index(at)) ==> (r matches Ok(v)
                && v.data() == self.view_data() && v.spec_shape() == slice_shape(
                self.view_shape(),
                dim as int,
                Slice::Index(at),
            ) && v.spec_strides() == slice_strides(
                self.view_strides(),
                dim as int,
                Slice::Index(at),
            ) && v.spec_offset() == slice_offset(
                self.view_shape(),
                self.view_strides(),
                self.view_offset(),
                dim as int,
                Slice::Index(at),
            )),
    {
        self.slice(dim, Slice::Index(at))
    }

    /// A view whose dimension `k` is dimension `dims[k]` of this tensor.
    ///
    /// Errors: `WrongDims` when `dims` does not have one entry per dimension,
    /// `InvalidDim` when `dims` is not an ordering of the dimensions.
    fn permute(&self, dims: &Idx) -> (r: Result<TensorView<'_, T>, TensorError>)
        requires
            self.view_wf(),
        ensures
            dims.coord().len() != self.view_shape().len() ==> (r matches Err(e) && e is WrongDims),
            dims.coord().len() == self.view_shape().len() && !is_perm(
                dims.coord(),
                self.view_shape().len() as int,
            ) ==> (r matches Err(e) && e is InvalidDim),
            is_perm(dims.coord(), self.view_shape().len() as int) ==> (r matches Ok(v) && v.data()
                == self.view_data() && v.spec_shape() == permuted(self.view_shape(), dims.coord())
                && v.spec_strides() == permuted(self.view_strides(), dims.coord())
                && v.spec_offset() == self.view_offset()),
    ;

    /// A view with the order of the dimensions reversed.
    fn transpose(&self) -> (v: TensorView<'_, T>)
        requires
            self.view_wf(),
        ensures
            v.data() == self.view_data(),
            v.spec_shape() == permuted(
                self.view_shape(),
                reversed_dims(self.view_shape().len() as int),
            ),
            v.spec_strides() == permuted(
                self.view_strides(),
                reversed_dims(self.view_shape().len() as int),
            ),
            v.spec_offset() == self.view_offset(),
    ;

    /// A view with a dimension of size 1 inserted at `dim`.
    ///
    /// Errors: `InvalidDim` when `dim` is greater than the rank.
    fn unsqueeze_at(&self, dim: usize) -> (r: Result<TensorView<'_, T>, TensorError>)
        requires
            self.view_wf(),
            dim < self.view_shape().len() ==> self.view_shape()[dim as int] <= isize::MAX
                && isize::MIN <= unsqueeze_stride(
                self.view_shape(),
                self.view_strides(),
                dim as int,
            ) <= isize::MAX,
        ensures
            dim > self.view_shape().len() ==> (r matches Err(e) && e is InvalidDim),
            dim <= self.view_shape().len() ==> (r matches Ok(v) && v.data() == self.view_data()
                && v.spec_shape() == self.view_shape().insert(dim as int, 1) && v.spec_strides()
                == self.view_strides().insert(
                dim as int,
                unsqueeze_stride(self.view_shape(), self.view_strides(), dim as int) as isize,
            ) && v.spec_offset() == self.view_offset()),
    ;

    /// A view with a dimension of size 1 in front.
    fn unsqueeze(&self) -> (v: TensorView<'_, T>)
        requires
            self.view_wf(),
            self.view_shape().len() > 0 ==> self.view_shape()[0] <= isize::MAX && isize::MIN <= (
            self.view_strides()[0] as int) * (self.view_shape()[0] as int) <= isize::MAX,
        ensures
            v.data() == self.view_data(),
            v.spec_shape() == self.view_shape().insert(0, 1),
            v.spec_strides() == self.view_strides().insert(
                0,
                unsqueeze_stride(self.view_shape(), self.view_strides(), 0) as isize,
            ),
            v.spec_offset() == self.view_offset(),
    ;

    /// A view without dimension `dim`, which must have size 1.
    ///
    /// Errors: `InvalidDim` when `dim` is not a dimension or its size is not 1.
    fn squeeze_at(&self, dim: usize) -> (r: Result<TensorView<'_, T>, TensorError>)
        requires
            self.view_wf(),
        ensures
            !(dim < self.view_shape().len() && self.view_shape()[dim as int] == 1) ==> (r matches Err(
                e,
            ) && e is InvalidDim),
            dim < self.view_shape().len() && self.view_shape()[dim as int] == 1 ==> (r matches Ok(v)
                && v.data() == self.view_data() && v.spec_shape() == self.view_shape().remove(
                dim as int,
            ) && v.spec_strides() == self.view_strides().remove(dim as int) && v.spec_offset()
                == self.view_offset()),
    ;

    /// A view without any dimension of size 1.
    fn squeeze(&self) -> (v: TensorView<'_, T>)
        requires
            self.view_wf(),
        ensures
            v.data() == self.view_data(),
            v.spec_shape() == squeeze_all(self.view_shape(), self.view_strides()).0,
            v.spec_strides() == squeeze_all(self.view_shape(), self.view_strides()).1,
            v.spec_offset() == self.view_offset(),
    ;
}

/// The reversed dimensions are a permutation.
pub proof fn lemma_reversed_is_perm(n: int)
    requires
        0 <= n <= usize::MAX,
    ensures
        is_perm(reversed_dims(n), n),
{
    let p = reversed_dims(n);
    assert forall|i: int| 0 <= i < n implies #[trigger] crate::sums::perm_hits(p, n, i) by {
        assert(p[n - 1 - i] == i);
    }
    assert forall|k1: int, k2: int| 0 <= k1 < n && 0 <= k2 < n && k1 != k2 implies p[k1] != p[k2] by {
        assert(p[k1] == n - 1 - k1);
        assert(p[k2] == n - 1 - k2);
    }
}

/// Builds `[n - 1, ..., 1, 0]`.
pub fn reversed_dims_vec(n: usize) -> (v: Vec<usize>)
    ensures
        v@ == reversed_dims(n as int),
{
    let mut v: Vec<usize> = Vec::new();
    let mut i: usize = 0;
    while i < n
        invariant
            i <= n,
            v@.len() == i,
            forall|k: int| 0 <= k < i ==> v@[k] == n - 1 - k,
        decreases n - i,
    {
        v.push(n - 1 - i);
        i = i + 1;
    }
    assert(v@ =~= reversed_dims(n as int));
    v
}

impl<T: Copy, V: AsView<T>> TensorAccess<T> for V {
    fn get(&self, idx: &Idx) -> (r: Result<T, TensorError>) {
        let v = self.view();
        read_at(v.buf, &v.meta, idx)
    }

    fn slice(&self, dim: usize, idx: Slice) -> (r: Result<TensorView<'_, T>, TensorError>) {
        let v = self.view();
        proof {
            use_type_invariant(&v);
        }
        let blen = v.buf.len();
        let ghost idx0 = idx;
        let (s, t, o) = compute_sliced_parameters(&v.meta.shape, &v.meta.strides, v.meta.offset, dim, idx)?;
        proof {
            let sh = v.meta.shape@;
            let st = v.meta.strides@;
            let len = v.buf@.len() as int;
            match idx0 {
                Slice::Index(i) => {
                    lemma_fits_index_slice(sh, st, v.meta.offset as int, len, dim as int, i);
                },
                Slice::Range { start, stop, step } => {
                    lemma_range_len_bound(sh[dim as int] as int, start, stop, step as int);
                    lemma_fits_range_slice(
                        sh,
                        st,
                        v.meta.offset as int,
                        len,
                        dim as int,
                        start,
                        stop,
                        step,
                    );
                },
            }
        }
        Ok(TensorView::from_parts(v.buf, MetaTensor::new(s, t, o)))
    }

    fn permute(&self, dims: &Idx) -> (r: Result<TensorView<'_, T>, TensorError>) {
        let v = self.view();
        proof {
            use_type_invariant(&v);
        }
        let (s, t) = compute_permuted_parameters(&v.meta.shape, &v.meta.strides, dims)?;
        let p = dims.to_vec();
        if !check_perm(&p, v.meta.shape.len()) {
            return Err(TensorError::InvalidDim(msg("permutation repeats a dimension")));
        }
        proof {
            lemma_fits_permuted(
                v.meta.shape@,
                v.meta.strides@,
                v.meta.offset as int,
                v.buf@.len() as int,
                p@,
            );
        }
        Ok(TensorView::from_parts(v.buf, MetaTensor::new(s, t, v.meta.offset)))
    }

    fn transpose(&self) -> (v: TensorView<'_, T>) {
        let rank = self.view().meta.shape.len();
        let dims = Idx::Coord(reversed_dims_vec(rank));
        proof {
            lemma_reversed_is_perm(rank as int);
        }
        match self.permute(&dims) {
            Ok(v) => v,
            Err(_) => {
                assert(false);
                self.view()
            },
        }
    }

    fn unsqueeze_at(&self, dim: usize) -> (r: Result<TensorView<'_, T>, TensorError>) {
        let v = self.view();
        proof {
            use_type_invariant(&v);
        }
        let (s, t) = compute_unsqueezed_parameters(&v.meta.shape, &v.meta.strides, dim)?;
        proof {
            lemma_fits_unsqueezed(
                v.meta.shape@,
                v.meta.strides@,
                v.meta.offset as int,
                v.buf@.len() as int,
                dim as int,
                t@[dim as int],
            );
        }
        Ok(TensorView::from_parts(v.buf, MetaTensor::new(s, t, v.meta.offset)))
    }

    fn unsqueeze(&self) -> (v: TensorView<'_, T>) {
        match self.unsqueeze_at(0) {
            Ok(v) => v,
            Err(_) => {
                assert(false);
                self.view()
            },
        }
    }

    fn squeeze_at(&self, dim: usize) -> (r: Result<TensorView<'_, T>, TensorError>) {
        let v = self.view();
        proof {
            use_type_invariant(&v);
        }
        let (s, t) = compute_squeezed_parameters(&v.meta.shape, &v.meta.strides, Some(dim))?;
        proof {
            lemma_fits_remove_unit(
                v.meta.shape@,
                v.meta.strides@,
                v.meta.offset as int,
                v.buf@.len() as int,
                dim as int,
            );
        }
        Ok(TensorView::from_parts(v.buf, MetaTensor::new(s, t, v.meta.offset)))
    }

    fn squeeze(&self) -> (r: TensorView<'_, T>) {
        let v = self.view();
        proof {
            use_type_invariant(&v);
        }
        match compute_squeezed_parameters(&v.meta.shape, &v.meta.strides, None) {
            Ok((s, t)) => {
                proof {
                    lemma_fits_squeeze_all(
                        v.meta.shape@,
                        v.meta.strides@,
                        v.meta.offset as int,
                        v.buf@.len() as int,
                    );
                }
                TensorView::from_parts(v.buf, MetaTensor::new(s, t, v.meta.offset))
            },
            Err(_) => {
                assert(false);
                v
            },
        }
    }
}


/// The result of a mutable view operation: the same buffer through a new
/// layout.
pub open spec fn viewmut_is<'a, T>(
    v: TensorViewMut<'a, T>,
    data: Seq<T>,
    shape: Seq<usize>,
    strides: Seq<isize>,
    offset: int,
) -> bool {
    &&& v.wf()
    &&& v.data() == data
    &&& v.spec_shape() == shape
    &&& v.spec_strides() == strides
    &&& v.spec_offset() == offset
}

/// Element writes and mutable view operations of tensors and mutable views.
pub trait TensorAccessMut<T: Copy>: AsViewMut<T> + Sized {
    /// Writes `value` at `idx`.
    ///
    /// Errors: `WrongDims` when the index rank differs from the tensor rank,
    /// `IdxOutOfBounds` when it denotes no element of the buffer; nothing is
    /// written then.
    fn set(&mut self, idx: &Idx, value: T) -> (r: Result<(), TensorError>)
        requires
            old(self).view_wf(),
            index_computable(old(self).view_strides(), old(self).view_offset(), *idx),
        ensures
            final(self).view_wf(),
            final(self).view_shape() == old(self).view_shape(),
            final(self).view_strides() == old(self).view_strides(),
            final(self).view_offset() == old(self).view_offset(),
            write_result(
                old(self).view_data(),
                final(self).view_data(),
                old(self).view_strides(),
                old(self).view_offset(),
                *idx,
                value,
                r,
            ),
    ;

    /// A mutable view of the indices `idx` of dimension `dim`.
    fn slice_mut(&mut self, dim: usize, idx: Slice) -> (r: Result<TensorViewMut<'_, T>, TensorError>)
        requires
            old(self).view_wf(),
            slice_computable(old(self).view_strides(), dim as int, idx),
        ensures
            !slice_valid(old(self).view_shape(), dim as int, idx) ==> (r matches Err(e)
                && slice_error(old(self).view_shape(), dim as int, idx, e)),
            slice_valid(old(self).view_shape(), dim as int, idx) ==> (r matches Ok(v) && viewmut_is(
                v,
                old(self).view_data(),
                slice_shape(old(self).view_shape(), dim as int, idx),
                slice_strides(old(self).view_strides(), dim as int, idx),
                slice_offset(
                    old(self).view_shape(),
                    old(self).view_strides(),
                    old(self).view_offset(),
                    dim as int,
                    idx,
                ),
            )),
    {
        let v = self.view_mut();
        let m = v.meta();
        let blen = v.buffer_len();
        let ghost idx0 = idx;
        let ghost sh = m.shape@;
        let ghost st = m.strides@;
        let ghost off = m.offset as int;
        let (s, t, o) = compute_sliced_parameters(&m.shape, &m.strides, m.offset, dim, idx)?;
        proof {
            match idx0 {
                Slice::Index(i) => {
                    lemma_fits_index_slice(sh, st, off, blen as int, dim as int, i);
                },
                Slice::Range { start, stop, step } => {
                    lemma_range_len_bound(sh[dim as int] as int, start, stop, step as int);
                    lemma_fits_range_slice(sh, st, off, blen as int, dim as int, start, stop, step);
                },
            }
        }
        Ok(v.relayout(MetaTensor::new(s, t, o)))
    }

    /// A mutable view of index `idx` of dimension `dim`; the dimension is removed.
    fn slice_at_mut(&mut self, dim: usize, idx: usize) -> (r: Result<TensorViewMut<'_, T>, TensorError>)
        requires
            old(self).view_wf(),
        ensures
            !slice_valid(old(self).view_shape(), dim as int, Slice::Index(idx)) ==> (r matches Err(
                e,
            ) && slice_error(old(self).view_shape(), dim as int, Slice::Index(idx), e)),
            slice_valid(old(self).view_shape(), dim as int, Slice::Index(idx)) ==> (r matches Ok(v)
                && viewmut_is(
                v,
                old(self).view_data(),
                slice_shape(old(self).view_shape(), dim as int, Slice::Index(idx)),
                slice_strides(old(self).view_strides(), dim as int, Slice::Index(idx)),
                slice_offset(
                    old(self).view_shape(),
                    old(self).view_strides(),
                    old(self).view_offset(),
                    dim as int,
                    Slice::Index(idx),
                ),
            )),
    {
        self.slice_mut(dim, Slice::Index(idx))
    }

    /// A mutable view whose dimension `k` is dimension `dims[k]`.
    ///
    /// Errors: `WrongDims` when `dims` does not have one entry per dimension,
    /// `InvalidDim` when `dims` is not an ordering of the dimensions.
    fn permute_mut(&mut self, dims: &Idx) -> (r: Result<TensorViewMut<'_, T>, TensorError>)
        requires
            old(self).view_wf(),
        ensures
            dims.coord().len() != old(self).view_shape().len() ==> (r matches Err(e) && e is WrongDims),
            dims.coord().len() == old(self).view_shape().len() && !is_perm(
                dims.coord(),
                old(self).view_shape().len() as int,
            ) ==> (r matches Err(e) && e is InvalidDim),
            is_perm(dims.coord(), old(self).view_shape().len() as int) ==> (r matches Ok(v)
                && viewmut_is(
                v,
                old(self).view_data(),
                permuted(old(self).view_shape(), dims.coord()),
                permuted(old(self).view_strides(), dims.coord()),
                old(self).view_offset(),
            )),
    {
        let v = self.view_mut();
        let m = v.meta();
        let blen = v.buffer_len();
        let (s, t) = compute_permuted_parameters(&m.shape, &m.strides, dims)?;
        let p = dims.to_vec();
        if !check_perm(&p, m.shape.len()) {
            return Err(TensorError::InvalidDim(msg("permutation repeats a dimension")));
        }
        proof {
            lemma_fits_permuted(m.shape@, m.strides@, m.offset as int, blen as int, p@);
        }
        let o = m.offset;
        Ok(v.relayout(MetaTensor::new(s, t, o)))
    }

    /// A mutable view with the order of the dimensions reversed.
    fn transpose_mut(&mut self) -> (v: TensorViewMut<'_, T>)
        requires
            old(self).view_wf(),
        ensures
            viewmut_is(
                v,
                old(self).view_data(),
                permuted(old(self).view_shape(), reversed_dims(old(self).view_shape().len() as int)),
                permuted(
                    old(self).view_strides(),
                    reversed_dims(old(self).view_shape().len() as int),
                ),
                old(self).view_offset(),
            ),
    {
        let v = self.view_mut();
        let m = v.meta();
        let blen = v.buffer_len();
        let rank = m.shape.len();
        let dims = Idx::Coord(reversed_dims_vec(rank));
        proof {
            lemma_reversed_is_perm(rank as int);
        }
        let (s, t) = match compute_permuted_parameters(&m.shape, &m.strides, &dims) {
            Ok(x) => x,
            Err(_) => {
                assert(false);
                (Vec::new(), Vec::new())
            },
        };
        proof {
            lemma_fits_permuted(m.shape@, m.strides@, m.offset as int, blen as int, dims.coord());
        }
        let o = m.offset;
        v.relayout(MetaTensor::new(s, t, o))
    }

    /// A mutable view with a dimension of size 1 inserted at `dim`.
    ///
    /// Errors: `InvalidDim` when `dim` is greater than the rank.
    fn unsqueeze_at_mut(&mut self, dim: usize) -> (r: Result<TensorViewMut<'_, T>, TensorError>)
        requires
            old(self).view_wf(),
            dim < old(self).view_shape().len() ==> old(self).view_shape()[dim as int] <= isize::MAX
                && isize::MIN <= unsqueeze_stride(
                old(self).view_shape(),
                old(self).view_strides(),
                dim as int,
            ) <= isize::MAX,
        ensures
            dim > old(self).view_shape().len() ==> (r matches Err(e) && e is InvalidDim),
            dim <= old(self).view_shape().len() ==> (r matches Ok(v) && viewmut_is(
                v,
                old(self).view_data(),
                old(self).view_shape().insert(dim as int, 1),
                old(self).view_strides().insert(
                    dim as int,
                    unsqueeze_stride(old(self).view_shape(), old(self).view_strides(), dim as int)
                        as isize,
                ),
                old(self).view_offset(),
            )),
    {
        let v = self.view_mut();
        let m = v.meta();
        let blen = v.buffer_len();
        let (s, t) = compute_unsqueezed_parameters(&m.shape, &m.strides, dim)?;
        proof {
            lemma_fits_unsqueezed(m.shape@, m.strides@, m.offset as int, blen as int, dim as int, t@[dim as int]);
        }
        let o = m.offset;
        Ok(v.relayout(MetaTensor::new(s, t, o)))
    }

    /// A mutable view with a dimension of size 1 in front.
    fn unsqueeze_mut(&mut self) -> (r: Result<TensorViewMut<'_, T>, TensorError>)
        requires
            old(self).view_wf(),
            old(self).view_shape().len() > 0 ==> old(self).view_shape()[0] <= isize::MAX
                && isize::MIN <= (old(self).view_strides()[0] as int) * (old(
                self,
            ).view_shape()[0] as int) <= isize::MAX,
        ensures
            r matches Ok(v) && viewmut_is(
                v,
                old(self).view_data(),
                old(self).view_shape().insert(0, 1),
                old(self).view_strides().insert(
                    0,
                    unsqueeze_stride(old(self).view_shape(), old(self).view_strides(), 0) as isize,
                ),
                old(self).view_offset(),
            ),
    {
        self.unsqueeze_at_mut(0)
    }

    /// A mutable view without dimension `dim`, which must have size 1.
    ///
    /// Errors: `InvalidDim` when `dim` is not a dimension or its size is not 1.
    fn squeeze_at_mut(&mut self, dim: usize) -> (r: Result<TensorViewMut<'_, T>, TensorError>)
        requires
            old(self).view_wf(),
        ensures
            !(dim < old(self).view_shape().len() && old(self).view_shape()[dim as int] == 1) ==> (
            r matches Err(e) && e is InvalidDim),
            dim < old(self).view_shape().len() && old(self).view_shape()[dim as int] == 1 ==> (
            r matches Ok(v) && viewmut_is(
                v,
                old(self).view_data(),
                old(self).view_shape().remove(dim as int),
                old(self).view_strides().remove(dim as int),
                old(self).view_offset(),
            )),
    {
        let v = self.view_mut();
        let m = v.meta();
        let blen = v.buffer_len();
        let (s, t) = compute_squeezed_parameters(&m.shape, &m.strides, Some(dim))?;
        proof {
            lemma_fits_remove_unit(m.shape@, m.strides@, m.offset as int, blen as int, dim as int);
        }
        let o = m.offset;
        Ok(v.relayout(MetaTensor::new(s, t, o)))
    }

    /// A mutable view without any dimension of size 1.
    fn squeeze_mut(&mut self) -> (v: TensorViewMut<'_, T>)
        requires
            old(self).view_wf(),
        ensures
            viewmut_is(
                v,
                old(self).view_data(),
                squeeze_all(old(self).view_shape(), old(self).view_strides()).0,
                squeeze_all(old(self).view_shape(), old(self).view_strides()).1,
                old(self).view_offset(),
            ),
    {
        let v = self.view_mut();
        let m = v.meta();
        let blen = v.buffer_len();
        let (s, t) = match compute_squeezed_parameters(&m.shape, &m.strides, None) {
            Ok(x) => x,
            Err(_) => {
                assert(false);
                (Vec::new(), Vec::new())
            },
        };
        proof {
            lemma_fits_squeeze_all(m.shape@, m.strides@, m.offset as int, blen as int);
        }
        let o = m.offset;
        v.relayout(MetaTensor::new(s, t, o))
    }
}

impl<T: Copy> TensorAccessMut<T> for TensorBase<T> {
    fn set(&mut self, idx: &Idx, value: T) -> (r: Result<(), TensorError>) {
        self.set_value(idx, value)
    }
}

impl<'a, T: Copy> TensorAccessMut<T> for TensorViewMut<'a, T> {
    fn set(&mut self, idx: &Idx, value: T) -> (r: Result<(), TensorError>) {
        self.set_value(idx, value)
    }
}

/// The logical elements of a layout over `data`, in row-major order.
pub open spec fn view_elems<T>(data: Seq<T>, shape: Seq<usize>, strides: Seq<isize>, offset: int) -> Seq<T> {
    gather(data, layout_positions(shape, strides, offset))
}

/// Copies out of tensors and views.
pub trait AsTensor<T: Copy>: AsView<T> {
    /// An owned tensor with the same shape and elements.
    fn owned(&self) -> (t: TensorBase<T>)
        requires
            self.view_wf(),
            sizes_fit(self.view_shape()),
        ensures
            t.wf(),
            t.spec_shape() == self.view_shape(),
            t.elems() == view_elems(
                self.view_data(),
                self.view_shape(),
                self.view_strides(),
                self.view_offset(),
            ),
    ;

    /// An owned tensor with the same shape and elements and row-major strides.
    fn contiguous(&self) -> (t: TensorBase<T>)
        requires
            self.view_wf(),
            sizes_fit(self.view_shape()),
        ensures
            t.wf(),
            t.spec_shape() == self.view_shape(),
            is_row_major(t.spec_shape(), t.spec_strides()),
            t.elems() == view_elems(
                self.view_data(),
                self.view_shape(),
                self.view_strides(),
                self.view_offset(),
            ),
    ;

    /// A row-major tensor with the same elements, in row-major order, and
    /// another shape.
    ///
    /// Errors: `InvalidShape` when the shapes have different sizes.
    fn reshape(&self, shape: Vec<usize>) -> (r: Result<TensorBase<T>, TensorError>)
        requires
            self.view_wf(),
            sizes_fit(self.view_shape()),
            sizes_fit(shape@),
        ensures
            shape_size(shape@) != shape_size(self.view_shape()) ==> (r matches Err(e)
                && e is InvalidShape),
            shape_size(shape@) == shape_size(self.view_shape()) ==> (r matches Ok(t) && t.wf()
                && t.spec_shape() == shape@ && is_row_major(t.spec_shape(), t.spec_strides())
                && t.elems() == view_elems(
                self.view_data(),
                self.view_shape(),
                self.view_strides(),
                self.view_offset(),
            )),
    {
        let c = self.contiguous();
        let n = c.size();
        let m = shape_size_of(&shape);
        if m != n {
            return Err(TensorError::InvalidShape(msg("reshape changes the number of elements")));
        }
        Ok(relayout_row_major(c, shape))
    }
}

/// A row-major tensor viewed through another row-major shape of the same size
/// keeps its elements.
fn relayout_row_major<T: Copy>(t: TensorBase<T>, shape: Vec<usize>) -> (r: TensorBase<T>)
    requires
        t.wf(),
        is_row_major(t.spec_shape(), t.spec_strides()),
        sizes_fit(shape@),
        shape_size(shape@) == shape_size(t.spec_shape()),
    ensures
        r.wf(),
        r.spec_shape() == shape@,
        is_row_major(r.spec_shape(), r.spec_strides()),
        r.elems() == t.elems(),
{
    let strides = shape_to_stride(&shape);
    let offset = t.offset();
    let data = t.buf;
    proof {
        lemma_row_major_positions(t.meta.shape@, t.meta.strides@, 0, offset as int);
        lemma_row_major_positions(shape@, strides@, 0, offset as int);
        crate::fits::lemma_row_major_offset_fits(shape@, strides@, offset as int, t.meta.shape@, t.meta.strides@, data@.len() as int);
    }
    let r = TensorBase::from_parts(data, MetaTensor::new(shape, strides, offset));
    assert(r.spec_positions() =~= t.spec_positions());
    r
}

impl<T: Copy> AsTensor<T> for TensorBase<T> {
    fn owned(&self) -> (t: TensorBase<T>) {
        self.owned_copy()
    }

    fn contiguous(&self) -> (t: TensorBase<T>) {
        if self.meta.is_contiguous() {
            self.owned_copy()
        } else {
            self.view().to_contiguous()
        }
    }
}

impl<'a, T: Copy> AsTensor<T> for TensorView<'a, T> {
    fn owned(&self) -> (t: TensorBase<T>) {
        self.to_contiguous()
    }

    fn contiguous(&self) -> (t: TensorBase<T>) {
        self.to_contiguous()
    }
}

impl<'a, T: Copy> AsTensor<T> for TensorViewMut<'a, T> {
    fn owned(&self) -> (t: TensorBase<T>) {
        self.view_ref().to_contiguous()
    }

    fn contiguous(&self) -> (t: TensorBase<T>) {
        self.view_ref().to_contiguous()
    }
}

} // verus!

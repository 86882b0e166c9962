//! Owned tensors and views, and element access.
use vstd::prelude::*;
use crate::error::{msg, TensorError};
use crate::fits::lemma_row_major_fits;
use crate::layout::{
    collect_positions, gather, layout_fits, layout_positions, lemma_fits_positions,
    lemma_row_major_positions, lin, lin_fits, shape_size, size_from,
};
use crate::meta::{
    is_row_major, logical_to_buffer_idx, shape_size_of, shape_to_stride, sizes_fit, Idx,
    MetaTensor,
};
use crate::value::TensorValue;

verus! {

/// Calls `num_traits::NumCast::from`, which gives `None` where `x` cannot be
/// represented in `N`; nothing more is claimed of the result.
#[verifier::external_body]
fn num_cast<T: num_traits::ToPrimitive, N: num_traits::NumCast>(x: T) -> Option<N> {
    N::from(x)
}

/// `y` is what converting `x` to the numeric type `N` can give.
pub closed spec fn cast_value<T: num_traits::ToPrimitive, N: num_traits::NumCast>(x: T, y: Option<N>) -> bool {
    call_ensures(num_cast::<T, N>, (x,), y)
}

/// The buffer index an index denotes in a layout, when it is one.
pub open spec fn index_in(len: int, strides: Seq<isize>, offset: int, idx: Idx) -> bool {
    &&& idx.coord().len() == strides.len()
    &&& 0 <= lin(idx.coord(), strides, offset) < len
}

/// Reading `idx` from a layout is free of overflow.
pub open spec fn index_computable(strides: Seq<isize>, offset: int, idx: Idx) -> bool {
    idx.coord().len() == strides.len() ==> lin_fits(idx.coord(), strides, offset)
}

/// What reading `idx` from `data` through `(strides, offset)` gives.
pub open spec fn read_result<T>(
    data: Seq<T>,
    strides: Seq<isize>,
    offset: int,
    idx: Idx,
    r: Result<T, TensorError>,
) -> bool {
    &&& idx.coord().len() != strides.len() ==> (r matches Err(e) && e is WrongDims)
    &&& idx.coord().len() == strides.len() && !index_in(data.len() as int, strides, offset, idx) ==> (
    r matches Err(e) && e is IdxOutOfBounds)
    &&& index_in(data.len() as int, strides, offset, idx) ==> r == Ok::<T, TensorError>(
        data[lin(idx.coord(), strides, offset)],
    )
}

/// What writing `value` at `idx` of `old` through `(strides, offset)` does.
pub open spec fn write_result<T>(
    old: Seq<T>,
    new: Seq<T>,
    strides: Seq<isize>,
    offset: int,
    idx: Idx,
    value: T,
    r: Result<(), TensorError>,
) -> bool {
    &&& idx.coord().len() != strides.len() ==> (r matches Err(e) && e is WrongDims)
    &&& idx.coord().len() == strides.len() && !index_in(old.len() as int, strides, offset, idx) ==> (
    r matches Err(e) && e is IdxOutOfBounds)
    &&& !index_in(old.len() as int, strides, offset, idx) ==> new == old
    &&& index_in(old.len() as int, strides, offset, idx) ==> r is Ok && new == old.update(
        lin(idx.coord(), strides, offset),
        value,
    )
}

/// Reads the element at `idx` of a buffer seen through `meta`.
pub fn read_at<T: Copy>(buf: &Vec<T>, meta: &MetaTensor, idx: &Idx) -> (r: Result<T, TensorError>)
    requires
        index_computable(meta.strides@, meta.offset as int, *idx),
    ensures
        read_result(buf@, meta.strides@, meta.offset as int, *idx, r),
{
    let b = logical_to_buffer_idx(idx, &meta.strides, meta.offset)?;
    if b >= buf.len() {
        return Err(TensorError::IdxOutOfBounds(msg("buffer index is out of bounds")));
    }
    Ok(buf[b])
}

/// Writes `value` at `idx` of a buffer seen through `meta`.
pub fn write_at<T: Copy>(buf: &mut Vec<T>, meta: &MetaTensor, idx: &Idx, value: T) -> (r: Result<
    (),
    TensorError,
>)
    requires
        index_computable(meta.strides@, meta.offset as int, *idx),
    ensures
        write_result(old(buf)@, final(buf)@, meta.strides@, meta.offset as int, *idx, value, r),
{
    let b = logical_to_buffer_idx(idx, &meta.strides, meta.offset)?;
    if b >= buf.len() {
        return Err(TensorError::IdxOutOfBounds(msg("buffer index is out of bounds")));
    }
    buf.set(b, value);
    Ok(())
}

/// Positions in `ps` hold no value twice.
pub open spec fn distinct(ps: Seq<int>) -> bool {
    forall|i: int, j: int| 0 <= i < ps.len() && 0 <= j < ps.len() && i != j ==> ps[i] != ps[j]
}

/// What applying `f` at the positions `ps` of `old` gives: other positions
/// keep their values, and when no position repeats, each position holds a
/// possible result of `f` on its old value.
pub open spec fn mapped_at<T, F: Fn(T) -> T>(old: Seq<T>, new: Seq<T>, ps: Seq<int>, f: F) -> bool {
    &&& new.len() == old.len()
    &&& forall|i: int| 0 <= i < old.len() && !ps.contains(i) ==> new[i] == old[i]
    &&& distinct(ps) ==> forall|k: int|
        0 <= k < ps.len() ==> call_ensures(f, (old[ps[k]],), #[trigger] new[ps[k]])
}

/// `s` with the elements from `off` on replaced by `v`.
pub open spec fn spliced<T>(s: Seq<T>, off: int, v: Seq<T>) -> Seq<T> {
    Seq::new(s.len(), |i: int| if off <= i < off + v.len() { v[i - off] } else { s[i] })
}

/// Applies `f` to the elements of `buf` at the positions `ps`, in order.
pub fn apply_at<T: Copy, F: Fn(T) -> T>(buf: &mut Vec<T>, ps: &Vec<usize>, f: &F)
    requires
        forall|k: int| 0 <= k < ps@.len() ==> ps@[k] < old(buf)@.len(),
        forall|x: T| call_requires(*f, (x,)),
    ensures
        mapped_at(old(buf)@, final(buf)@, Seq::new(ps@.len(), |k: int| ps@[k] as int), *f),
{
    let ghost ips = Seq::new(ps@.len(), |k: int| ps@[k] as int);
    let n = ps.len();
    let mut k: usize = 0;
    while k < n
        invariant
            n == ps@.len(),
            k <= n,
            ips == Seq::new(ps@.len(), |j: int| ps@[j] as int),
            forall|j: int| 0 <= j < ps@.len() ==> ps@[j] < old(buf)@.len(),
            forall|x: T| call_requires(*f, (x,)),
            buf@.len() == old(buf)@.len(),
            forall|i: int|
                0 <= i < old(buf)@.len() && !ips.subrange(0, k as int).contains(i) ==> buf@[i]
                    == old(buf)@[i],
            distinct(ips) ==> forall|j: int|
                0 <= j < k ==> call_ensures(*f, (old(buf)@[ips[j]],), #[trigger] buf@[ips[j]]),
        decreases n - k,
    {
        let p = ps[k];
        let x = buf[p];
        let y = f(x);
        let ghost before = buf@;
        buf.set(p, y);
        proof {
            assert forall|i: int|
                0 <= i < old(buf)@.len() && !ips.subrange(0, k + 1).contains(i) implies buf@[i]
                == old(buf)@[i] by {
                assert(ips.subrange(0, k + 1)[k as int] == p);
                assert(i != p);
                if ips.subrange(0, k as int).contains(i) {
                    let w = choose|w: int| 0 <= w < k && ips.subrange(0, k as int)[w] == i;
                    assert(ips.subrange(0, k + 1)[w] == i);
                }
            }
            if distinct(ips) {
                assert(!ips.subrange(0, k as int).contains(p as int)) by {
                    if ips.subrange(0, k as int).contains(p as int) {
                        let w = choose|w: int| 0 <= w < k && ips.subrange(0, k as int)[w] == p;
                        assert(ips[w] == ips[k as int]);
                    }
                }
                assert(x == old(buf)@[p as int]);
                assert forall|j: int| 0 <= j < k + 1 implies call_ensures(
                    *f,
                    (old(buf)@[ips[j]],),
                    #[trigger] buf@[ips[j]],
                ) by {
                    if j < k {
                        assert(ips[j] != ips[k as int]);
                        assert(buf@[ips[j]] == before[ips[j]]);
                    }
                }
            }
        }
        k = k + 1;
    }
    proof {
        assert(ips.subrange(0, n as int) =~= ips);
    }
}

/// Writes `vals[k]` at position `ps[k]` of `buf`, in order.
pub fn scatter_at<T: Copy>(buf: &mut Vec<T>, ps: &Vec<usize>, vals: &Vec<T>)
    requires
        forall|k: int| 0 <= k < ps@.len() ==> ps@[k] < old(buf)@.len(),
        vals@.len() == ps@.len(),
    ensures
        final(buf)@.len() == old(buf)@.len(),
        forall|i: int|
            0 <= i < old(buf)@.len() && !Seq::new(ps@.len(), |k: int| ps@[k] as int).contains(i)
                ==> final(buf)@[i] == old(buf)@[i],
        distinct(Seq::new(ps@.len(), |k: int| ps@[k] as int)) ==> gather(
            final(buf)@,
            Seq::new(ps@.len(), |k: int| ps@[k] as int),
        ) == vals@,
{
    let ghost ips = Seq::new(ps@.len(), |k: int| ps@[k] as int);
    let n = ps.len();
    let mut k: usize = 0;
    while k < n
        invariant
            n == ps@.len(),
            n == vals@.len(),
            k <= n,
            ips == Seq::new(ps@.len(), |j: int| ps@[j] as int),
            forall|j: int| 0 <= j < ps@.len() ==> ps@[j] < old(buf)@.len(),
            buf@.len() == old(buf)@.len(),
            forall|i: int|
                0 <= i < old(buf)@.len() && !ips.subrange(0, k as int).contains(i) ==> buf@[i]
                    == old(buf)@[i],
            distinct(ips) ==> forall|j: int| 0 <= j < k ==> #[trigger] buf@[ips[j]] == vals@[j],
        decreases n - k,
    {
        let p = ps[k];
        let ghost before = buf@;
        buf.set(p, vals[k]);
        proof {
            assert forall|i: int|
                0 <= i < old(buf)@.len() && !ips.subrange(0, k + 1).contains(i) implies buf@[i]
                == old(buf)@[i] by {
                assert(ips.subrange(0, k + 1)[k as int] == p);
                assert(i != p);
                if ips.subrange(0, k as int).contains(i) {
                    let w = choose|w: int| 0 <= w < k && ips.subrange(0, k as int)[w] == i;
                    assert(ips.subrange(0, k + 1)[w] == i);
                }
            }
            if distinct(ips) {
                assert forall|j: int| 0 <= j < k + 1 implies #[trigger] buf@[ips[j]] == vals@[j] by {
                    if j < k {
                        assert(ips[j] != ips[k as int]);
                        assert(buf@[ips[j]] == before[ips[j]]);
                    }
                }
            }
        }
        k = k + 1;
    }
    proof {
        assert(ips.subrange(0, n as int) =~= ips);
        if distinct(ips) {
            assert(gather(buf@, ips) =~= vals@);
        }
    }
}

/// Copies the elements of a layout, in row-major order, into a new buffer.
pub fn gather_vec<T: Copy>(buf: &Vec<T>, ps: &Vec<usize>) -> (out: Vec<T>)
    requires
        forall|k: int| 0 <= k < ps@.len() ==> ps@[k] < buf@.len(),
    ensures
        out@ == gather(buf@, Seq::new(ps@.len(), |k: int| ps@[k] as int)),
{
    let mut out: Vec<T> = Vec::new();
    let n = ps.len();
    let mut k: usize = 0;
    while k < n
        invariant
            n == ps@.len(),
            k <= n,
            forall|j: int| 0 <= j < ps@.len() ==> ps@[j] < buf@.len(),
            out@.len() == k,
            forall|j: int| 0 <= j < k ==> out@[j] == buf@[ps@[j] as int],
        decreases n - k,
    {
        out.push(buf[ps[k]]);
        k = k + 1;
    }
    assert(out@ =~= gather(buf@, Seq::new(ps@.len(), |k: int| ps@[k] as int)));
    out
}

/// The positions of a fitting layout, as a vector.
pub fn positions_of(meta: &MetaTensor, len: usize) -> (ps: Vec<usize>)
    requires
        meta.fits(len as int),
    ensures
        Seq::new(ps@.len(), |k: int| ps@[k] as int) == layout_positions(
            meta.shape@,
            meta.strides@,
            meta.offset as int,
        ),
        forall|k: int| 0 <= k < ps@.len() ==> ps@[k] < len,
{
    proof {
        lemma_fits_positions(meta.shape@, meta.strides@, meta.offset as int, len as int);
    }
    let ps = collect_positions(&meta.shape, &meta.strides, meta.offset, len);
    assert(Seq::new(ps@.len(), |k: int| ps@[k] as int) =~= layout_positions(
        meta.shape@,
        meta.strides@,
        meta.offset as int,
    ));
    proof {
        assert forall|k: int| 0 <= k < ps@.len() implies ps@[k] < len by {
            assert(layout_positions(meta.shape@, meta.strides@, meta.offset as int)[k] == ps@[k]);
        }
    }
    ps
}

/// An owned tensor: a buffer and the layout through which it is read.
pub struct TensorBase<T> {
    pub(crate) buf: Vec<T>,
    pub(crate) meta: MetaTensor,
}

/// An owned CPU tensor.
pub type Tensor<T> = TensorBase<T>;

/// A read-only view sharing the buffer of a tensor.
pub struct TensorView<'a, T> {
    pub(crate) buf: &'a Vec<T>,
    pub(crate) meta: MetaTensor,
}

/// A mutable view sharing the buffer of a tensor.
pub struct TensorViewMut<'a, T> {
    pub(crate) buf: &'a mut Vec<T>,
    pub(crate) meta: MetaTensor,
}

impl<T> TensorBase<T> {
    /// The layout lies inside the buffer.
    pub open spec fn wf(&self) -> bool {
        layout_fits(self.spec_shape(), self.spec_strides(), self.spec_offset(), self.data().len() as int)
    }

    /// The buffer positions of the elements, in row-major order.
    pub open spec fn spec_positions(&self) -> Seq<int> {
        layout_positions(self.spec_shape(), self.spec_strides(), self.spec_offset())
    }

    /// The logical elements, in row-major order.
    pub open spec fn elems(&self) -> Seq<T> {
        gather(self.data(), self.spec_positions())
    }

    /// Applies `f` to every element in place.
    pub fn map_inplace<F: Fn(T) -> T>(&mut self, f: &F)
        where T: Copy,
        requires
            old(self).wf(),
            forall|x: T| call_requires(*f, (x,)),
        ensures
            final(self).wf(),
            final(self).spec_shape() == old(self).spec_shape(),
            final(self).spec_strides() == old(self).spec_strides(),
            final(self).spec_offset() == old(self).spec_offset(),
            mapped_at(old(self).data(), final(self).data(), old(self).spec_positions(), *f),
    {
        let ps = positions_of(&self.meta, self.buf.len());
        apply_at(&mut self.buf, &ps, f);
    }

    /// A copy of the whole buffer (as the tensor holds it, whatever its
    /// layout); this never fails on the CPU.
    pub fn to_box(&self) -> (r: Result<Vec<T>, TensorError>)
        where T: Copy,
        ensures
            r matches Ok(v) && v@ == self.data(),
    {
        let mut v: Vec<T> = Vec::new();
        let mut i: usize = 0;
        while i < self.buf.len()
            invariant
                i <= self.buf@.len(),
                v@ == self.buf@.subrange(0, i as int),
            decreases self.buf@.len() - i,
        {
            v.push(self.buf[i]);
            i = i + 1;
            assert(v@ =~= self.buf@.subrange(0, i as int));
        }
        assert(v@ =~= self.buf@);
        Ok(v)
    }

    /// The tensor with every buffer entry converted to the element type `N`,
    /// in the same layout.
    ///
    /// Errors: `ConversionError` when an entry cannot be represented in `N`.
    pub fn into_dtype<N: num_traits::NumCast>(&self) -> (r: Result<TensorBase<N>, TensorError>)
        where T: Copy + num_traits::ToPrimitive,
        requires
            self.wf(),
        ensures
            r matches Ok(t) ==> {
                &&& t.wf()
                &&& t.spec_shape() == self.spec_shape()
                &&& t.spec_strides() == self.spec_strides()
                &&& t.spec_offset() == self.spec_offset()
                &&& t.data().len() == self.data().len()
                &&& forall|i: int|
                    0 <= i < self.data().len() ==> #[trigger] cast_value(self.data()[i], Some(t.data()[i]))
            },
            r matches Err(e) ==> e is ConversionError && exists|i: int|
                0 <= i < self.data().len() && #[trigger] cast_value(self.data()[i], None::<N>),
    {
        let mut v: Vec<N> = Vec::new();
        let mut i: usize = 0;
        while i < self.buf.len()
            invariant
                i <= self.buf@.len(),
                v@.len() == i,
                forall|k: int| 0 <= k < i ==> #[trigger] cast_value(self.buf@[k], Some(v@[k])),
            decreases self.buf@.len() - i,
        {
            match num_cast::<T, N>(self.buf[i]) {
                Some(y) => {
                    v.push(y);
                },
                None => {
                    assert(cast_value(self.data()[i as int], None::<N>));
                    return Err(TensorError::ConversionError(msg("value cannot be represented in the target type")));
                },
            }
            i = i + 1;
        }
        Ok(TensorBase { buf: v, meta: self.meta.clone_meta() })
    }

    /// Writes `vals`, in row-major order of the layout, at the positions of
    /// the tensor; the rest of the buffer is unchanged. When no position
    /// repeats, the tensor's elements are then `vals`.
    pub fn write_elems(&mut self, vals: &Vec<T>)
        where T: Copy,
        requires
            old(self).wf(),
            vals@.len() == shape_size(old(self).spec_shape()),
        ensures
            final(self).wf(),
            final(self).spec_shape() == old(self).spec_shape(),
            final(self).spec_strides() == old(self).spec_strides(),
            final(self).spec_offset() == old(self).spec_offset(),
            final(self).data().len() == old(self).data().len(),
            forall|i: int|
                0 <= i < old(self).data().len() && !old(self).spec_positions().contains(i)
                    ==> final(self).data()[i] == old(self).data()[i],
            distinct(old(self).spec_positions()) ==> final(self).elems() == vals@,
    {
        proof {
            crate::layout::lemma_positions_len(
                self.meta.shape@,
                self.meta.strides@,
                0,
                self.meta.offset as int,
            );
        }
        let ps = positions_of(&self.meta, self.buf.len());
        scatter_at(&mut self.buf, &ps, vals);
    }

    /// Writes `value` at `idx`.
    ///
    /// Errors: `WrongDims` when the index rank differs from the tensor rank,
    /// `IdxOutOfBounds` when it denotes no element of the buffer; the tensor
    /// is then unchanged.
    pub fn set_value(&mut self, idx: &Idx, value: T) -> (r: Result<(), TensorError>)
        where T: Copy,
        requires
            old(self).wf(),
            index_computable(old(self).spec_strides(), old(self).spec_offset(), *idx),
        ensures
            final(self).wf(),
            final(self).spec_shape() == old(self).spec_shape(),
            final(self).spec_strides() == old(self).spec_strides(),
            final(self).spec_offset() == old(self).spec_offset(),
            write_result(
                old(self).data(),
                final(self).data(),
                old(self).spec_strides(),
                old(self).spec_offset(),
                *idx,
                value,
                r,
            ),
    {
        write_at(&mut self.buf, &self.meta, idx, value)
    }

    /// A copy with the same buffer and layout.
    pub fn owned_copy(&self) -> (t: Self)
        where T: Copy,
        requires
            self.wf(),
        ensures
            t.wf(),
            t.data() == self.data(),
            t.spec_shape() == self.spec_shape(),
            t.spec_strides() == self.spec_strides(),
            t.spec_offset() == self.spec_offset(),
    {
        let mut b: Vec<T> = Vec::new();
        let n = self.buf.len();
        let mut i: usize = 0;
        while i < n
            invariant
                n == self.buf@.len(),
                i <= n,
                b@ == self.buf@.subrange(0, i as int),
            decreases n - i,
        {
            b.push(self.buf[i]);
            i = i + 1;
            assert(b@ =~= self.buf@.subrange(0, i as int));
        }
        assert(b@ =~= self.buf@);
        TensorBase { buf: b, meta: self.meta.clone_meta() }
    }

    /// The buffer.
    pub closed spec fn data(&self) -> Seq<T> {
        self.buf@
    }

    pub closed spec fn spec_shape(&self) -> Seq<usize> {
        self.meta.shape@
    }

    pub closed spec fn spec_strides(&self) -> Seq<isize> {
        self.meta.strides@
    }

    pub closed spec fn spec_offset(&self) -> int {
        self.meta.offset as int
    }

    /// Builds a tensor from a buffer and a layout that lies inside it.
    pub fn from_parts(buf: Vec<T>, meta: MetaTensor) -> (t: Self)
        requires
            meta.fits(buf@.len() as int),
        ensures
            t.wf(),
            t.data() == buf@,
            t.spec_shape() == meta.shape@,
            t.spec_strides() == meta.strides@,
            t.spec_offset() == meta.offset,
    {
        TensorBase { buf, meta }
    }

    /// Constructs a row-major tensor from a buffer and a shape.
    ///
    /// Errors: `InvalidShape` when the shape has more than 128 dimensions or
    /// the buffer length differs from the number of elements of the shape.
    pub fn from_buf(raw: Vec<T>, shape: Vec<usize>) -> (r: Result<Self, TensorError>)
        requires
            sizes_fit(shape@),
        ensures
            shape@.len() > 128 ==> (r matches Err(e) && e is InvalidShape),
            shape@.len() <= 128 && shape_size(shape@) != raw@.len() ==> (r matches Err(e)
                && e is InvalidShape),
            shape@.len() <= 128 && shape_size(shape@) == raw@.len() ==> (r matches Ok(t) && t.wf()
                && t.data() == raw@ && t.spec_shape() == shape@ && is_row_major(
                t.spec_shape(),
                t.spec_strides(),
            ) && t.spec_offset() == 0),
    {
        if shape.len() > 128 {
            return Err(TensorError::InvalidShape(msg("tensors with more than 128 dimensions are not supported")));
        }
        let n = shape_size_of(&shape);
        if n != raw.len() {
            return Err(TensorError::InvalidShape(msg("element count mismatch between shape and buffer")));
        }
        let stride = shape_to_stride(&shape);
        proof {
            lemma_row_major_fits(shape@, stride@, raw@.len() as int);
        }
        Ok(TensorBase { buf: raw, meta: MetaTensor::new(shape, stride, 0) })
    }

    /// A rank-0 tensor holding one value.
    pub fn scalar(value: T) -> (t: Self)
        ensures
            t.wf(),
            t.data() == seq![value],
            t.spec_shape() == Seq::<usize>::empty(),
            t.spec_strides() == Seq::<isize>::empty(),
            t.spec_offset() == 0,
    {
        let mut v = Vec::new();
        v.push(value);
        let shape: Vec<usize> = Vec::new();
        proof {
            assert(size_from(shape@, 0) == 1);
            assert(sizes_fit(shape@));
        }
        let r = Self::from_buf(v, shape);
        match r {
            Ok(t) => {
                assert(t.data() =~= seq![value]);
                assert(t.spec_strides() =~= Seq::<isize>::empty());
                t
            },
            Err(_) => {
                assert(false);
                Self::from_buf(Vec::new(), Vec::new()).unwrap()
            },
        }
    }

    /// A one-dimensional tensor holding `column`.
    pub fn column(column: Vec<T>) -> (t: Self)
        requires
            column@.len() <= isize::MAX,
        ensures
            t.wf(),
            t.data() == column@,
            t.spec_shape() == seq![column@.len() as usize],
            t.spec_offset() == 0,
            is_row_major(t.spec_shape(), t.spec_strides()),
    {
        let n = column.len();
        let mut shape: Vec<usize> = Vec::new();
        shape.push(n);
        proof {
            lemma_size_from_1d(shape@);
        }
        match Self::from_buf(column, shape) {
            Ok(t) => t,
            Err(_) => {
                assert(false);
                Self::from_buf(Vec::new(), Vec::new()).unwrap()
            },
        }
    }

    /// A `1 x n` tensor holding `row`.
    pub fn row(row: Vec<T>) -> (t: Self)
        requires
            row@.len() <= isize::MAX,
        ensures
            t.wf(),
            t.data() == row@,
            t.spec_shape() == seq![1usize, row@.len() as usize],
            t.spec_offset() == 0,
            is_row_major(t.spec_shape(), t.spec_strides()),
    {
        let n = row.len();
        let mut shape: Vec<usize> = Vec::new();
        shape.push(1);
        shape.push(n);
        proof {
            lemma_size_from_2d_unit(shape@);
        }
        match Self::from_buf(row, shape) {
            Ok(t) => t,
            Err(_) => {
                assert(false);
                Self::from_buf(Vec::new(), Vec::new()).unwrap()
            },
        }
    }

    /// Shape of the tensor.
    pub fn shape(&self) -> (r: &Vec<usize>)
        ensures
            r@ == self.spec_shape(),
    {
        &self.meta.shape
    }

    /// Strides of the tensor.
    pub fn strides(&self) -> (r: &Vec<isize>)
        ensures
            r@ == self.spec_strides(),
    {
        &self.meta.strides
    }

    /// Offset of the first element in the buffer.
    pub fn offset(&self) -> (r: usize)
        ensures
            r == self.spec_offset(),
    {
        self.meta.offset
    }

    /// Number of dimensions.
    pub fn rank(&self) -> (r: usize)
        ensures
            r == self.spec_shape().len(),
    {
        self.meta.shape.len()
    }

    /// Number of logical elements.
    pub fn size(&self) -> (r: usize)
        requires
            sizes_fit(self.spec_shape()),
        ensures
            r == shape_size(self.spec_shape()),
    {
        shape_size_of(&self.meta.shape)
    }

    /// The buffer.
    pub fn buffer(&self) -> (r: &Vec<T>)
        ensures
            r@ == self.data(),
    {
        &self.buf
    }

    /// Removes every dimension of size 1, without copying.
    pub fn squeeze_inplace(&mut self)
        requires
            old(self).wf(),
        ensures
            final(self).wf(),
            final(self).data() == old(self).data(),
            final(self).spec_offset() == old(self).spec_offset(),
            final(self).spec_shape() == crate::meta::squeeze_all(
                old(self).spec_shape(),
                old(self).spec_strides(),
            ).0,
            final(self).spec_strides() == crate::meta::squeeze_all(
                old(self).spec_shape(),
                old(self).spec_strides(),
            ).1,
    {
        let r = crate::meta::compute_squeezed_parameters(&self.meta.shape, &self.meta.strides, None);
        match r {
            Ok((new_shape, new_strides)) => {
                proof {
                    crate::fits::lemma_fits_squeeze_all(
                        self.meta.shape@,
                        self.meta.strides@,
                        self.meta.offset as int,
                        self.buf@.len() as int,
                    );
                }
                self.meta = MetaTensor::new(new_shape, new_strides, self.meta.offset);
            },
            Err(_) => {},
        }
    }

    /// Inserts a dimension of size 1 at `dim`, without copying.
    ///
    /// Errors: `InvalidDim` when `dim` is greater than the rank (the tensor is
    /// then unchanged).
    pub fn unsqueeze_at_inplace(&mut self, dim: usize) -> (r: Result<(), TensorError>)
        requires
            old(self).wf(),
            dim < old(self).spec_shape().len() ==> old(self).spec_shape()[dim as int] <= isize::MAX
                && isize::MIN <= crate::meta::unsqueeze_stride(
                old(self).spec_shape(),
                old(self).spec_strides(),
                dim as int,
            ) <= isize::MAX,
        ensures
            final(self).wf(),
            final(self).data() == old(self).data(),
            final(self).spec_offset() == old(self).spec_offset(),
            dim > old(self).spec_shape().len() ==> (r matches Err(e) && e is InvalidDim)
                && final(self).spec_shape() == old(self).spec_shape() && final(self).spec_strides()
                == old(self).spec_strides(),
            dim <= old(self).spec_shape().len() ==> r is Ok && final(self).spec_shape() == old(
                self,
            ).spec_shape().insert(dim as int, 1) && final(self).spec_strides() == old(
                self,
            ).spec_strides().insert(
                dim as int,
                crate::meta::unsqueeze_stride(
                    old(self).spec_shape(),
                    old(self).spec_strides(),
                    dim as int,
                ) as isize,
            ),
    {
        let (new_shape, new_strides) = crate::meta::compute_unsqueezed_parameters(
            &self.meta.shape,
            &self.meta.strides,
            dim,
        )?;
        proof {
            crate::fits::lemma_fits_unsqueezed(
                self.meta.shape@,
                self.meta.strides@,
                self.meta.offset as int,
                self.buf@.len() as int,
                dim as int,
                new_strides@[dim as int],
            );
        }
        self.meta = MetaTensor::new(new_shape, new_strides, self.meta.offset);
        Ok(())
    }

    /// Inserts a dimension of size 1 in front, without copying.
    pub fn unsqueeze_inplace(&mut self)
        requires
            old(self).wf(),
            old(self).spec_shape().len() > 0 ==> old(self).spec_shape()[0] <= isize::MAX
                && isize::MIN <= (old(self).spec_strides()[0] as int) * (old(
                self,
            ).spec_shape()[0] as int) <= isize::MAX,
        ensures
            final(self).wf(),
            final(self).data() == old(self).data(),
            final(self).spec_offset() == old(self).spec_offset(),
            final(self).spec_shape() == old(self).spec_shape().insert(0, 1),
            final(self).spec_strides() == old(self).spec_strides().insert(
                0,
                crate::meta::unsqueeze_stride(old(self).spec_shape(), old(self).spec_strides(), 0)
                    as isize,
            ),
    {
        let r = self.unsqueeze_at_inplace(0);
    }
}

/// A one-dimensional shape `[n]` with `n <= isize::MAX` has fitting sizes.
pub proof fn lemma_size_from_1d(shape: Seq<usize>)
    requires
        shape.len() == 1,
        shape[0] <= isize::MAX,
    ensures
        sizes_fit(shape),
        shape_size(shape) == shape[0],
{
    assert(size_from(shape, 1) == 1);
    assert(size_from(shape, 0) == (shape[0] as nat) * 1);
}

/// A shape `[1, n]` with `n <= isize::MAX` has fitting sizes.
pub proof fn lemma_size_from_2d_unit(shape: Seq<usize>)
    requires
        shape.len() == 2,
        shape[0] == 1,
        shape[1] <= isize::MAX,
    ensures
        sizes_fit(shape),
        shape_size(shape) == shape[1],
{
    assert(size_from(shape, 2) == 1);
    assert(size_from(shape, 1) == (shape[1] as nat) * 1);
    assert(size_from(shape, 0) == 1 * (shape[1] as nat));
}

impl<'a, T> TensorView<'a, T> {
    #[verifier::type_invariant]
    pub(crate) open spec fn inv(&self) -> bool {
        self.meta.fits(self.buf@.len() as int)
    }

    /// The buffer positions of the elements, in row-major order.
    pub open spec fn spec_positions(&self) -> Seq<int> {
        layout_positions(self.spec_shape(), self.spec_strides(), self.spec_offset())
    }

    /// The logical elements, in row-major order.
    pub open spec fn elems(&self) -> Seq<T> {
        gather(self.data(), self.spec_positions())
    }

    /// A row-major tensor holding the elements of the view.
    pub fn to_contiguous(&self) -> (t: TensorBase<T>)
        where T: Copy,
        requires
            sizes_fit(self.spec_shape()),
        ensures
            t.wf(),
            t.data() == self.elems(),
            t.elems() == self.elems(),
            t.spec_shape() == self.spec_shape(),
            is_row_major(t.spec_shape(), t.spec_strides()),
            t.spec_offset() == 0,
    {
        proof {
            use_type_invariant(self);
        }
        let ps = positions_of(&self.meta, self.buf.len());
        let data = gather_vec(self.buf, &ps);
        let shape = self.meta.shape.clone();
        let strides = shape_to_stride(&shape);
        proof {
            crate::layout::lemma_positions_len(shape@, self.meta.strides@, 0, self.meta.offset as int);
            lemma_row_major_fits(shape@, strides@, data@.len() as int);
            lemma_row_major_positions(shape@, strides@, 0, 0);
        }
        let t = TensorBase { buf: data, meta: MetaTensor::new(shape, strides, 0) };
        assert(t.elems() =~= t.data());
        t
    }

    /// The layout of the view.
    pub fn meta(&self) -> (m: &MetaTensor)
        ensures
            m.shape@ == self.spec_shape(),
            m.strides@ == self.spec_strides(),
            m.offset == self.spec_offset(),
    {
        &self.meta
    }

    /// The shared buffer.
    pub closed spec fn data(&self) -> Seq<T> {
        self.buf@
    }

    pub closed spec fn spec_shape(&self) -> Seq<usize> {
        self.meta.shape@
    }

    pub closed spec fn spec_strides(&self) -> Seq<isize> {
        self.meta.strides@
    }

    pub closed spec fn spec_offset(&self) -> int {
        self.meta.offset as int
    }

    /// Builds a view from a buffer and a layout that lies inside it.
    pub fn from_parts(buf: &'a Vec<T>, meta: MetaTensor) -> (v: Self)
        requires
            meta.fits(buf@.len() as int),
        ensures
            v.data() == buf@,
            v.spec_shape() == meta.shape@,
            v.spec_strides() == meta.strides@,
            v.spec_offset() == meta.offset,
    {
        TensorView { buf, meta }
    }

    /// Inserts a dimension of size 1 at `dim`.
    ///
    /// Errors: `InvalidDim` when `dim` is greater than the rank (the view is
    /// then unchanged).
    pub fn unsqueeze_at_inplace(&mut self, dim: usize) -> (r: Result<(), TensorError>)
        requires
            dim < old(self).spec_shape().len() ==> old(self).spec_shape()[dim as int] <= isize::MAX
                && isize::MIN <= crate::meta::unsqueeze_stride(
                old(self).spec_shape(),
                old(self).spec_strides(),
                dim as int,
            ) <= isize::MAX,
        ensures
            final(self).data() == old(self).data(),
            final(self).spec_offset() == old(self).spec_offset(),
            dim > old(self).spec_shape().len() ==> (r matches Err(e) && e is InvalidDim)
                && final(self).spec_shape() == old(self).spec_shape() && final(self).spec_strides()
                == old(self).spec_strides(),
            dim <= old(self).spec_shape().len() ==> r is Ok && final(self).spec_shape() == old(
                self,
            ).spec_shape().insert(dim as int, 1) && final(self).spec_strides() == old(
                self,
            ).spec_strides().insert(
                dim as int,
                crate::meta::unsqueeze_stride(
                    old(self).spec_shape(),
                    old(self).spec_strides(),
                    dim as int,
                ) as isize,
            ),
    {
        proof {
            use_type_invariant(&*self);
        }
        let (new_shape, new_strides) = crate::meta::compute_unsqueezed_parameters(
            &self.meta.shape,
            &self.meta.strides,
            dim,
        )?;
        proof {
            crate::fits::lemma_fits_unsqueezed(
                self.meta.shape@,
                self.meta.strides@,
                self.meta.offset as int,
                self.buf@.len() as int,
                dim as int,
                new_strides@[dim as int],
            );
        }
        self.meta = MetaTensor::new(new_shape, new_strides, self.meta.offset);
        Ok(())
    }

    /// Inserts a dimension of size 1 in front.
    pub fn unsqueeze_inplace(&mut self)
        requires
            old(self).spec_shape().len() > 0 ==> old(self).spec_shape()[0] <= isize::MAX
                && isize::MIN <= (old(self).spec_strides()[0] as int) * (old(
                self,
            ).spec_shape()[0] as int) <= isize::MAX,
        ensures
            final(self).data() == old(self).data(),
            final(self).spec_offset() == old(self).spec_offset(),
            final(self).spec_shape() == old(self).spec_shape().insert(0, 1),
            final(self).spec_strides() == old(self).spec_strides().insert(
                0,
                crate::meta::unsqueeze_stride(old(self).spec_shape(), old(self).spec_strides(), 0)
                    as isize,
            ),
    {
        let r = self.unsqueeze_at_inplace(0);
    }
}

impl<'a, T> TensorViewMut<'a, T> {
    /// The layout lies inside the buffer.
    pub open spec fn wf(&self) -> bool {
        layout_fits(self.spec_shape(), self.spec_strides(), self.spec_offset(), self.data().len() as int)
    }

    /// The buffer positions of the elements, in row-major order.
    pub open spec fn spec_positions(&self) -> Seq<int> {
        layout_positions(self.spec_shape(), self.spec_strides(), self.spec_offset())
    }

    /// The logical elements, in row-major order.
    pub open spec fn elems(&self) -> Seq<T> {
        gather(self.data(), self.spec_positions())
    }

    /// Applies `f` to every element of the view in place; the rest of the
    /// buffer is unchanged.
    pub fn map_inplace<F: Fn(T) -> T>(&mut self, f: &F)
        where T: Copy,
        requires
            old(self).wf(),
            forall|x: T| call_requires(*f, (x,)),
        ensures
            final(self).wf(),
            final(self).spec_shape() == old(self).spec_shape(),
            final(self).spec_strides() == old(self).spec_strides(),
            final(self).spec_offset() == old(self).spec_offset(),
            mapped_at(old(self).data(), final(self).data(), old(self).spec_positions(), *f),
    {
        let ps = positions_of(&self.meta, self.buf.len());
        apply_at(&mut *self.buf, &ps, f);
    }

    /// A read-only view of the same buffer and layout.
    pub fn view_ref(&self) -> (v: TensorView<'_, T>)
        requires
            self.wf(),
        ensures
            v.data() == self.data(),
            v.spec_shape() == self.spec_shape(),
            v.spec_strides() == self.spec_strides(),
            v.spec_offset() == self.spec_offset(),
    {
        TensorView::from_parts(&*self.buf, self.meta.clone_meta())
    }

    /// Writes `value` at `idx`.
    ///
    /// Errors: `WrongDims` when the index rank differs from the view rank,
    /// `IdxOutOfBounds` when it denotes no element of the buffer; the buffer
    /// is then unchanged.
    pub fn set_value(&mut self, idx: &Idx, value: T) -> (r: Result<(), TensorError>)
        where T: Copy,
        requires
            old(self).wf(),
            index_computable(old(self).spec_strides(), old(self).spec_offset(), *idx),
        ensures
            final(self).wf(),
            final(self).spec_shape() == old(self).spec_shape(),
            final(self).spec_strides() == old(self).spec_strides(),
            final(self).spec_offset() == old(self).spec_offset(),
            write_result(
                old(self).data(),
                final(self).data(),
                old(self).spec_strides(),
                old(self).spec_offset(),
                *idx,
                value,
                r,
            ),
    {
        write_at(&mut *self.buf, &self.meta, idx, value)
    }

    /// The same buffer through another layout that lies inside it.
    pub fn relayout(self, meta: MetaTensor) -> (v: TensorViewMut<'a, T>)
        requires
            meta.fits(self.data().len() as int),
        ensures
            v.wf(),
            v.data() == self.data(),
            v.spec_shape() == meta.shape@,
            v.spec_strides() == meta.strides@,
            v.spec_offset() == meta.offset,
    {
        TensorViewMut { buf: self.buf, meta }
    }

    /// The layout of the view.
    pub fn meta(&self) -> (m: &MetaTensor)
        ensures
            m.shape@ == self.spec_shape(),
            m.strides@ == self.spec_strides(),
            m.offset == self.spec_offset(),
    {
        &self.meta
    }

    /// Length of the shared buffer.
    pub fn buffer_len(&self) -> (n: usize)
        ensures
            n == self.data().len(),
    {
        self.buf.len()
    }

    /// A mutable view of the same buffer and layout, borrowed from this one.
    pub fn reborrow(&mut self) -> (v: TensorViewMut<'_, T>)
        requires
            old(self).wf(),
        ensures
            v.wf(),
            v.data() == old(self).data(),
            v.spec_shape() == old(self).spec_shape(),
            v.spec_strides() == old(self).spec_strides(),
            v.spec_offset() == old(self).spec_offset(),
    {
        let m = self.meta.clone_meta();
        TensorViewMut::from_parts(&mut *self.buf, m)
    }

    /// Writes `vals`, in row-major order of the layout, at the positions of
    /// the view; the rest of the buffer is unchanged. When no position
    /// repeats, the view's elements are then `vals`.
    pub fn write_elems(&mut self, vals: &Vec<T>)
        where T: Copy,
        requires
            old(self).wf(),
            vals@.len() == shape_size(old(self).spec_shape()),
        ensures
            final(self).wf(),
            final(self).spec_shape() == old(self).spec_shape(),
            final(self).spec_strides() == old(self).spec_strides(),
            final(self).spec_offset() == old(self).spec_offset(),
            final(self).data().len() == old(self).data().len(),
            forall|i: int|
                0 <= i < old(self).data().len() && !old(self).spec_positions().contains(i)
                    ==> final(self).data()[i] == old(self).data()[i],
            distinct(old(self).spec_positions()) ==> final(self).elems() == vals@,
    {
        proof {
            crate::layout::lemma_positions_len(
                self.meta.shape@,
                self.meta.strides@,
                0,
                self.meta.offset as int,
            );
        }
        let ps = positions_of(&self.meta, self.buf.len());
        scatter_at(&mut *self.buf, &ps, vals);
    }

    /// Writes `vals`, in row-major order, over the elements of a row-major
    /// view; the rest of the buffer is unchanged.
    pub fn write_row_major(&mut self, vals: &Vec<T>)
        where T: Copy,
        requires
            old(self).wf(),
            is_row_major(old(self).spec_shape(), old(self).spec_strides()),
            vals@.len() == shape_size(old(self).spec_shape()),
        ensures
            final(self).wf(),
            final(self).spec_shape() == old(self).spec_shape(),
            final(self).spec_strides() == old(self).spec_strides(),
            final(self).spec_offset() == old(self).spec_offset(),
            final(self).data() == spliced(old(self).data(), old(self).spec_offset(), vals@),
            vals@.len() > 0 ==> old(self).spec_offset() + vals@.len() <= old(self).data().len(),
    {
        let off = self.meta.offset;
        let n = vals.len();
        proof {
            lemma_row_major_positions(self.meta.shape@, self.meta.strides@, 0, off as int);
            lemma_fits_positions(self.meta.shape@, self.meta.strides@, off as int, self.buf@.len() as int);
            if n > 0 {
                assert(layout_positions(self.meta.shape@, self.meta.strides@, off as int)[n - 1] == off + n - 1);
            }
        }
        let ghost old_buf = self.buf@;
        let blen = self.buf.len();
        let mut i: usize = 0;
        while i < n
            invariant
                blen == self.buf@.len(),
                i <= n,
                n == vals@.len(),
                n > 0 ==> off + n <= self.buf@.len(),
                self.buf@.len() == old_buf.len(),
                self.meta == old(self).meta,
                old_buf == old(self).buf@,
                forall|j: int| 0 <= j < self.buf@.len() ==> self.buf@[j] == (if off <= j < off + i {
                    vals@[j - off]
                } else {
                    old_buf[j]
                }),
            decreases n - i,
        {
            let at = off + i;
            self.buf.set(at, vals[i]);
            i = i + 1;
        }
        assert(self.buf@ =~= spliced(old_buf, off as int, vals@));
    }

    /// The shared buffer, as it is now.
    pub closed spec fn data(&self) -> Seq<T> {
        self.buf@
    }

    pub closed spec fn spec_shape(&self) -> Seq<usize> {
        self.meta.shape@
    }

    pub closed spec fn spec_strides(&self) -> Seq<isize> {
        self.meta.strides@
    }

    pub closed spec fn spec_offset(&self) -> int {
        self.meta.offset as int
    }

    /// Builds a mutable view from a buffer and a layout that lies inside it.
    pub fn from_parts(buf: &'a mut Vec<T>, meta: MetaTensor) -> (v: Self)
        requires
            meta.fits(old(buf)@.len() as int),
        ensures
            v.data() == old(buf)@,
            v.spec_shape() == meta.shape@,
            v.spec_strides() == meta.strides@,
            v.spec_offset() == meta.offset,
            v.wf(),
    {
        TensorViewMut { buf, meta }
    }

    /// Inserts a dimension of size 1 at `dim`.
    ///
    /// Errors: `InvalidDim` when `dim` is greater than the rank (the view is
    /// then unchanged).
    pub fn unsqueeze_at_inplace(&mut self, dim: usize) -> (r: Result<(), TensorError>)
        requires
            old(self).wf(),
            dim < old(self).spec_shape().len() ==> old(self).spec_shape()[dim as int] <= isize::MAX
                && isize::MIN <= crate::meta::unsqueeze_stride(
                old(self).spec_shape(),
                old(self).spec_strides(),
                dim as int,
            ) <= isize::MAX,
        ensures
            final(self).wf(),
            final(self).data() == old(self).data(),
            final(self).spec_offset() == old(self).spec_offset(),
            dim > old(self).spec_shape().len() ==> (r matches Err(e) && e is InvalidDim)
                && final(self).spec_shape() == old(self).spec_shape() && final(self).spec_strides()
                == old(self).spec_strides(),
            dim <= old(self).spec_shape().len() ==> r is Ok && final(self).spec_shape() == old(
                self,
            ).spec_shape().insert(dim as int, 1) && final(self).spec_strides() == old(
                self,
            ).spec_strides().insert(
                dim as int,
                crate::meta::unsqueeze_stride(
                    old(self).spec_shape(),
                    old(self).spec_strides(),
                    dim as int,
                ) as isize,
            ),
    {
        let (new_shape, new_strides) = crate::meta::compute_unsqueezed_parameters(
            &self.meta.shape,
            &self.meta.strides,
            dim,
        )?;
        proof {
            crate::fits::lemma_fits_unsqueezed(
                self.meta.shape@,
                self.meta.strides@,
                self.meta.offset as int,
                self.buf@.len() as int,
                dim as int,
                new_strides@[dim as int],
            );
        }
        self.meta = MetaTensor::new(new_shape, new_strides, self.meta.offset);
        Ok(())
    }

    /// Inserts a dimension of size 1 in front.
    pub fn unsqueeze_inplace(&mut self)
        requires
            old(self).wf(),
            old(self).spec_shape().len() > 0 ==> old(self).spec_shape()[0] <= isize::MAX
                && isize::MIN <= (old(self).spec_strides()[0] as int) * (old(
                self,
            ).spec_shape()[0] as int) <= isize::MAX,
        ensures
            final(self).wf(),
            final(self).data() == old(self).data(),
            final(self).spec_offset() == old(self).spec_offset(),
            final(self).spec_shape() == old(self).spec_shape().insert(0, 1),
            final(self).spec_strides() == old(self).spec_strides().insert(
                0,
                crate::meta::unsqueeze_stride(old(self).spec_shape(), old(self).spec_strides(), 0)
                    as isize,
            ),
    {
        let r = self.unsqueeze_at_inplace(0);
    }
}


pub(crate) broadcast proof fn lemma_base_data<T>(v: TensorBase<T>)
    ensures
        #[trigger] v.data() == v.buf@,
{
}

pub(crate) broadcast proof fn lemma_base_spec_shape<T>(v: TensorBase<T>)
    ensures
        #[trigger] v.spec_shape() == v.meta.shape@,
{
}

pub(crate) broadcast proof fn lemma_base_spec_strides<T>(v: TensorBase<T>)
    ensures
        #[trigger] v.spec_strides() == v.meta.strides@,
{
}

pub(crate) broadcast proof fn lemma_base_spec_offset<T>(v: TensorBase<T>)
    ensures
        #[trigger] v.spec_offset() == v.meta.offset as int,
{
}

pub(crate) broadcast proof fn lemma_view_data<'a, T>(v: TensorView<'a, T>)
    ensures
        #[trigger] v.data() == v.buf@,
{
}

pub(crate) broadcast proof fn lemma_view_spec_shape<'a, T>(v: TensorView<'a, T>)
    ensures
        #[trigger] v.spec_shape() == v.meta.shape@,
{
}

pub(crate) broadcast proof fn lemma_view_spec_strides<'a, T>(v: TensorView<'a, T>)
    ensures
        #[trigger] v.spec_strides() == v.meta.strides@,
{
}

pub(crate) broadcast proof fn lemma_view_spec_offset<'a, T>(v: TensorView<'a, T>)
    ensures
        #[trigger] v.spec_offset() == v.meta.offset as int,
{
}

pub(crate) broadcast proof fn lemma_view_mut_spec_shape<'a, T>(v: TensorViewMut<'a, T>)
    ensures
        #[trigger] v.spec_shape() == v.meta.shape@,
{
}

pub(crate) broadcast proof fn lemma_view_mut_spec_strides<'a, T>(v: TensorViewMut<'a, T>)
    ensures
        #[trigger] v.spec_strides() == v.meta.strides@,
{
}

pub(crate) broadcast proof fn lemma_view_mut_spec_offset<'a, T>(v: TensorViewMut<'a, T>)
    ensures
        #[trigger] v.spec_offset() == v.meta.offset as int,
{
}

pub(crate) broadcast group group_tensor_parts {
    lemma_base_data,
    lemma_base_spec_shape,
    lemma_base_spec_strides,
    lemma_base_spec_offset,
    lemma_view_data,
    lemma_view_spec_shape,
    lemma_view_spec_strides,
    lemma_view_spec_offset,
    lemma_view_mut_spec_shape,
    lemma_view_mut_spec_strides,
    lemma_view_mut_spec_offset,
}

impl<T: TensorValue> TensorBase<T> {
    /// A row-major tensor with every element equal to `value`.
    fn filled(shape: Vec<usize>, value: T) -> (t: Self)
        requires
            sizes_fit(shape@),
            shape@.len() <= 128,
        ensures
            t.wf(),
            t.data() == Seq::new(shape_size(shape@), |i: int| value),
            t.spec_shape() == shape@,
            t.spec_offset() == 0,
            is_row_major(t.spec_shape(), t.spec_strides()),
    {
        let n = shape_size_of(&shape);
        let mut buf: Vec<T> = Vec::new();
        let mut i: usize = 0;
        while i < n
            invariant
                i <= n,
                buf@ == Seq::new(i as nat, |k: int| value),
            decreases n - i,
        {
            buf.push(value);
            i = i + 1;
            assert(buf@ =~= Seq::new(i as nat, |k: int| value));
        }
        match Self::from_buf(buf, shape) {
            Ok(t) => t,
            Err(_) => {
                assert(false);
                Self::from_buf(Vec::new(), Vec::new()).unwrap()
            },
        }
    }

    /// A tensor filled with zeros.
    pub fn zeros(shape: Vec<usize>) -> (t: Self)
        requires
            sizes_fit(shape@),
            shape@.len() <= 128,
        ensures
            t.wf(),
            t.data() == Seq::new(shape_size(shape@), |i: int| T::spec_zero()),
            t.spec_shape() == shape@,
            t.spec_offset() == 0,
            is_row_major(t.spec_shape(), t.spec_strides()),
    {
        Self::filled(shape, T::zero())
    }

    /// A tensor filled with ones.
    pub fn ones(shape: Vec<usize>) -> (t: Self)
        requires
            sizes_fit(shape@),
            shape@.len() <= 128,
        ensures
            t.wf(),
            t.data() == Seq::new(shape_size(shape@), |i: int| T::spec_one()),
            t.spec_shape() == shape@,
            t.spec_offset() == 0,
            is_row_major(t.spec_shape(), t.spec_strides()),
    {
        Self::filled(shape, T::one())
    }

    /// A tensor filled with the largest value of the element type.
    pub fn max(shape: Vec<usize>) -> (t: Self)
        requires
            sizes_fit(shape@),
            shape@.len() <= 128,
        ensures
            t.wf(),
            t.data() == Seq::new(shape_size(shape@), |i: int| T::spec_max()),
            t.spec_shape() == shape@,
            t.spec_offset() == 0,
            is_row_major(t.spec_shape(), t.spec_strides()),
    {
        Self::filled(shape, T::max_value())
    }

    /// A tensor filled with the smallest value of the element type.
    pub fn min(shape: Vec<usize>) -> (t: Self)
        requires
            sizes_fit(shape@),
            shape@.len() <= 128,
        ensures
            t.wf(),
            t.data() == Seq::new(shape_size(shape@), |i: int| T::spec_min()),
            t.spec_shape() == shape@,
            t.spec_offset() == 0,
            is_row_major(t.spec_shape(), t.spec_strides()),
    {
        Self::filled(shape, T::min_value())
    }
}

} // verus!

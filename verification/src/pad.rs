//! Padding every dimension of a tensor on both sides.
use vstd::prelude::*;
use crate::access::{view_elems, AsView};
use crate::conv::PaddingType;
use crate::error::{msg, TensorError};
use crate::fits::lemma_row_major_fits;
use crate::layout::{layout_positions, lemma_positions_len, lemma_row_major_positions, shape_size, size_from};
use crate::meta::{is_row_major, shape_to_stride, sizes_fit, MetaTensor};
use crate::tensor::{TensorBase, TensorView, TensorViewMut};
use crate::value::TensorValue;

verus! {

broadcast use crate::tensor::group_tensor_parts;

/// The shape after adding `pad[i]` indices on both sides of dimension `i`.
pub open spec fn padded_shape(shape: Seq<usize>, pad: Seq<usize>) -> Seq<usize> {
    Seq::new(shape.len(), |i: int| (shape[i] + 2 * pad[i]) as usize)
}

/// The padded sizes fit in a `usize`.
pub open spec fn padding_fits(shape: Seq<usize>, pad: Seq<usize>) -> bool {
    forall|i: int| 0 <= i < shape.len() ==> #[trigger] shape[i] + 2 * pad[i] <= usize::MAX
}

/// A run of `n` zeros.
pub open spec fn zeros_of<T: TensorValue>(n: int) -> Seq<T> {
    Seq::new(n as nat, |k: int| T::spec_zero())
}

/// The padded block of dimensions `d..`, in row-major order, given the
/// row-major elements `e` of the block before padding: along dimension `d`,
/// `pad[d]` padded sub-blocks of zeros, then the padded sub-block of each
/// index, then `pad[d]` padded sub-blocks of zeros again.
pub open spec fn padded_block<T: TensorValue>(e: Seq<T>, shape: Seq<usize>, pad: Seq<usize>, d: int) -> Seq<T>
    decreases shape.len() - d, 1int, 0int,
{
    if d < 0 || d >= shape.len() {
        e
    } else {
        let edge = zeros_of::<T>(pad[d] * size_from(padded_shape(shape, pad), d + 1));
        edge + padded_rows(e, shape, pad, d, shape[d] as int) + edge
    }
}

/// The padded sub-blocks of the first `n` indices of dimension `d`.
pub open spec fn padded_rows<T: TensorValue>(e: Seq<T>, shape: Seq<usize>, pad: Seq<usize>, d: int, n: int) -> Seq<T>
    decreases shape.len() - d, 0int, n,
{
    if n <= 0 || d < 0 || d >= shape.len() {
        seq![]
    } else {
        let w = size_from(shape, d + 1) as int;
        padded_rows(e, shape, pad, d, n - 1) + padded_block(e.subrange((n - 1) * w, n * w), shape, pad, d + 1)
    }
}

proof fn lemma_padded_block_len<T: TensorValue>(e: Seq<T>, shape: Seq<usize>, pad: Seq<usize>, d: int)
    requires
        0 <= d <= shape.len(),
        pad.len() == shape.len(),
        padding_fits(shape, pad),
        e.len() == size_from(shape, d),
    ensures
        padded_block(e, shape, pad, d).len() == size_from(padded_shape(shape, pad), d),
    decreases shape.len() - d, 1int, 0int,
{
    if d < shape.len() {
        let ps = padded_shape(shape, pad);
        let x = size_from(ps, d + 1);
        let p = pad[d] as int;
        let n = shape[d] as int;
        lemma_padded_rows_len(e, shape, pad, d, n);
        assert(ps[d] == n + 2 * p);
        assert(size_from(ps, d) == (n + 2 * p) * x);
        assert(p * x + n * x + p * x == (n + 2 * p) * x) by (nonlinear_arith);
    }
}

proof fn lemma_padded_rows_len<T: TensorValue>(e: Seq<T>, shape: Seq<usize>, pad: Seq<usize>, d: int, n: int)
    requires
        0 <= d < shape.len(),
        0 <= n <= shape[d],
        pad.len() == shape.len(),
        padding_fits(shape, pad),
        e.len() == size_from(shape, d),
    ensures
        padded_rows(e, shape, pad, d, n).len() == n * size_from(padded_shape(shape, pad), d + 1),
    decreases shape.len() - d, 0int, n,
{
    let x = size_from(padded_shape(shape, pad), d + 1) as int;
    if n <= 0 {
        assert(n * x == 0) by (nonlinear_arith)
            requires
                n == 0,
        ;
    } else {
        let w = size_from(shape, d + 1) as int;
        lemma_padded_rows_len(e, shape, pad, d, n - 1);
        assert(n * w <= (shape[d] as int) * w) by (nonlinear_arith)
            requires
                n <= shape[d],
                0 <= w,
        ;
        assert((n - 1) * w + w == n * w) by (nonlinear_arith);
        let sub = e.subrange((n - 1) * w, n * w);
        lemma_padded_block_len(sub, shape, pad, d + 1);
        assert(padded_rows(e, shape, pad, d, n) == padded_rows(e, shape, pad, d, n - 1) + padded_block(
            sub,
            shape,
            pad,
            d + 1,
        ));
        assert((n - 1) * x + x == n * x) by (nonlinear_arith);
        assert(padded_rows(e, shape, pad, d, n).len() == (n - 1) * x + x);
    }
}

/// No padding: `pad` is all zeros.
pub open spec fn no_padding(pad: Seq<usize>) -> bool {
    forall|i: int| 0 <= i < pad.len() ==> pad[i] == 0
}

/// Padding by zero indices keeps the block as it is.
pub proof fn lemma_zero_padding_block<T: TensorValue>(e: Seq<T>, shape: Seq<usize>, pad: Seq<usize>, d: int)
    requires
        0 <= d <= shape.len(),
        pad.len() == shape.len(),
        no_padding(pad),
        e.len() == size_from(shape, d),
    ensures
        padded_block(e, shape, pad, d) == e,
    decreases shape.len() - d, 1int, 0int,
{
    if d < shape.len() {
        let n = shape[d] as int;
        let edge = zeros_of::<T>(pad[d] * size_from(padded_shape(shape, pad), d + 1));
        assert(edge =~= Seq::<T>::empty());
        lemma_zero_padding_rows(e, shape, pad, d, n);
        assert(e.subrange(0, n * (size_from(shape, d + 1) as int)) =~= e);
        assert(padded_block(e, shape, pad, d) =~= e);
    }
}

/// Padding by zero indices keeps the rows of a block as they are.
pub proof fn lemma_zero_padding_rows<T: TensorValue>(e: Seq<T>, shape: Seq<usize>, pad: Seq<usize>, d: int, n: int)
    requires
        0 <= d < shape.len(),
        0 <= n <= shape[d],
        pad.len() == shape.len(),
        no_padding(pad),
        e.len() == size_from(shape, d),
    ensures
        padded_rows(e, shape, pad, d, n) == e.subrange(0, n * (size_from(shape, d + 1) as int)),
    decreases shape.len() - d, 0int, n,
{
    let w = size_from(shape, d + 1) as int;
    if n <= 0 {
        assert(n * w == 0) by (nonlinear_arith)
            requires
                n == 0,
        ;
        assert(e.subrange(0, 0) =~= Seq::<T>::empty());
    } else {
        lemma_zero_padding_rows(e, shape, pad, d, n - 1);
        assert(n * w <= (shape[d] as int) * w) by (nonlinear_arith)
            requires
                n <= shape[d],
                0 <= w,
        ;
        assert((n - 1) * w + w == n * w) by (nonlinear_arith);
        let sub = e.subrange((n - 1) * w, n * w);
        lemma_zero_padding_block(sub, shape, pad, d + 1);
        assert(e.subrange(0, (n - 1) * w) + sub =~= e.subrange(0, n * w));
    }
}

/// Appends `n` zeros to `out`.
fn push_zeros<T: TensorValue>(out: &mut Vec<T>, n: usize)
    ensures
        final(out)@ == old(out)@ + zeros_of::<T>(n as int),
{
    let z = T::zero();
    let mut k: usize = 0;
    while k < n
        invariant
            k <= n,
            z == T::spec_zero(),
            out@ == old(out)@ + zeros_of::<T>(k as int),
        decreases n - k,
    {
        proof {
            assert(old(out)@ + zeros_of::<T>(k as int + 1) =~= (old(out)@ + zeros_of::<T>(k as int)).push(z));
        }
        out.push(z);
        k = k + 1;
    }
}

/// Appends to `out` the padded block of dimensions `d..` whose row-major
/// elements before padding are `e[start..]`.
fn push_padded<T: TensorValue>(
    e: &Vec<T>,
    shape: &Vec<usize>,
    pad: &Vec<usize>,
    in_strides: &Vec<isize>,
    out_strides: &Vec<isize>,
    d: usize,
    start: usize,
    out: &mut Vec<T>,
)
    requires
        d <= shape@.len(),
        pad@.len() == shape@.len(),
        padding_fits(shape@, pad@),
        is_row_major(shape@, in_strides@),
        is_row_major(padded_shape(shape@, pad@), out_strides@),
        sizes_fit(padded_shape(shape@, pad@)),
        start + size_from(shape@, d as int) <= e@.len(),
    ensures
        final(out)@ == old(out)@ + padded_block(
            e@.subrange(start as int, start + size_from(shape@, d as int)),
            shape@,
            pad@,
            d as int,
        ),
    decreases shape@.len() - d,
{
    let ghost blk = e@.subrange(start as int, start + size_from(shape@, d as int));
    if d == shape.len() {
        assert(blk =~= seq![e@[start as int]]);
        out.push(e[start]);
        return;
    }
    let ghost ps = padded_shape(shape@, pad@);
    let n = shape[d];
    let w = in_strides[d] as usize;
    let ow = out_strides[d] as usize;
    let p = pad[d];
    proof {
        let x = size_from(ps, d as int + 1);
        assert(in_strides@[d as int] as int == size_from(shape@, d as int + 1));
        assert(out_strides@[d as int] as int == size_from(ps, d as int + 1));
        assert(ps[d as int] == n + 2 * p);
        assert(size_from(ps, d as int) == (n + 2 * p) * x);
        assert(size_from(ps, d as int) <= isize::MAX);
        assert(p * x <= (n + 2 * p) * x) by (nonlinear_arith)
            requires
                0 <= x,
                0 <= p,
                0 <= n,
        ;
        assert(size_from(shape@, d as int) == n * w);
    }
    let edge = p * ow;
    let elen = e.len();
    let ghost base = old(out)@;
    push_zeros(out, edge);
    let mut i: usize = 0;
    while i < n
        invariant
            d < shape@.len(),
            pad@.len() == shape@.len(),
            padding_fits(shape@, pad@),
            is_row_major(shape@, in_strides@),
            is_row_major(padded_shape(shape@, pad@), out_strides@),
            sizes_fit(padded_shape(shape@, pad@)),
            n == shape@[d as int],
            w == size_from(shape@, d as int + 1),
            size_from(shape@, d as int) == n * w,
            start + n * w <= e@.len(),
            elen == e@.len(),
            shape@.len() <= usize::MAX,
            blk == e@.subrange(start as int, start + n * w),
            i <= n,
            out@ == base + zeros_of::<T>(edge as int) + padded_rows(blk, shape@, pad@, d as int, i as int),
        decreases n - i,
    {
        proof {
            assert((i + 1) * w <= n * w) by (nonlinear_arith)
                requires
                    i < n,
            ;
            assert(i * w + w == (i + 1) * w) by (nonlinear_arith);
            assert(blk.subrange(i * w, (i + 1) * w) =~= e@.subrange(start + i * w, start + i * w + w));
            assert(size_from(shape@, d as int + 1) == w);
        }
        let s = start + i * w;
        let ghost mid = out@;
        push_padded(e, shape, pad, in_strides, out_strides, d + 1, s, out);
        proof {
            assert(padded_rows(blk, shape@, pad@, d as int, i as int + 1) == padded_rows(
                blk,
                shape@,
                pad@,
                d as int,
                i as int,
            ) + padded_block(blk.subrange(i * w, (i + 1) * w), shape@, pad@, d as int + 1));
            assert(out@ =~= base + zeros_of::<T>(edge as int) + padded_rows(
                blk,
                shape@,
                pad@,
                d as int,
                i as int + 1,
            ));
        }
        i = i + 1;
    }
    let ghost before = out@;
    push_zeros(out, edge);
    proof {
        assert(edge == p * size_from(ps, d as int + 1));
        assert(padded_block(blk, shape@, pad@, d as int) == zeros_of::<T>(edge as int) + padded_rows(
            blk,
            shape@,
            pad@,
            d as int,
            n as int,
        ) + zeros_of::<T>(edge as int));
        assert(out@ =~= base + padded_block(blk, shape@, pad@, d as int));
    }
}

/// A row-major tensor holding the elements of `tensor` with `padding[i]`
/// indices added on both sides of dimension `i`, filled as `padding_type`
/// says.
///
/// Errors: `WrongDims` when `padding` does not have one entry per dimension.
pub fn pad_inner<T: TensorValue, V: AsView<T>>(tensor: &V, padding: &Vec<usize>, padding_type: &PaddingType) -> (r:
    Result<TensorBase<T>, TensorError>)
    requires
        tensor.view_wf(),
        sizes_fit(tensor.view_shape()),
        padding@.len() == tensor.view_shape().len() ==> padding_fits(tensor.view_shape(), padding@)
            && sizes_fit(padded_shape(tensor.view_shape(), padding@)),
    ensures
        padding@.len() != tensor.view_shape().len() ==> (r matches Err(e) && e is WrongDims),
        padding@.len() == tensor.view_shape().len() ==> (r matches Ok(t) && t.wf() && t.spec_shape()
            == padded_shape(tensor.view_shape(), padding@) && is_row_major(t.spec_shape(), t.spec_strides())
            && t.elems() == padded_block(
            view_elems(tensor.view_data(), tensor.view_shape(), tensor.view_strides(), tensor.view_offset()),
            tensor.view_shape(),
            padding@,
            0,
        )),
{
    let v = tensor.view();
    let rank = v.meta().shape().len();
    if padding.len() != rank {
        return Err(TensorError::WrongDims(msg("padding rank must match tensor rank")));
    }
    let c = v.to_contiguous();
    let shape = c.shape();
    let ghost sh = shape@;
    let ghost ps = padded_shape(sh, padding@);
    let mut out_shape: Vec<usize> = Vec::new();
    let mut k: usize = 0;
    while k < rank
        invariant
            rank == sh.len(),
            padding@.len() == sh.len(),
            shape@ == sh,
            padding_fits(sh, padding@),
            k <= rank,
            out_shape@ =~= padded_shape(sh, padding@).subrange(0, k as int),
        decreases rank - k,
    {
        let x = shape[k] + 2 * padding[k];
        out_shape.push(x);
        k = k + 1;
    }
    assert(out_shape@ =~= ps);
    let in_strides = shape_to_stride(shape);
    let out_strides = shape_to_stride(&out_shape);
    let data = c.buffer();
    proof {
        lemma_positions_len(v.spec_shape(), v.spec_strides(), 0, v.spec_offset());
        assert(data@.len() == shape_size(sh));
        assert(data@.subrange(0, size_from(sh, 0) as int) =~= data@);
        lemma_padded_block_len(data@, sh, padding@, 0);
    }
    let mut out: Vec<T> = Vec::new();
    push_padded(data, shape, padding, &in_strides, &out_strides, 0, 0, &mut out);
    match padding_type {
        PaddingType::Zeros => {},
    }
    proof {
        assert(out@ =~= padded_block(data@, sh, padding@, 0));
        lemma_row_major_fits(ps, out_strides@, out@.len() as int);
        lemma_row_major_positions(ps, out_strides@, 0, 0);
    }
    let t = TensorBase::from_parts(out, MetaTensor::new(out_shape, out_strides, 0));
    assert(t.elems() =~= t.data());
    Ok(t)
}

impl<T: TensorValue> TensorBase<T> {
    /// A copy with `padding[i]` indices added on both sides of dimension
    /// `i` (see `pad_inner`).
    pub fn pad(&self, padding: Vec<usize>, padding_type: &PaddingType) -> (r: Result<TensorBase<T>, TensorError>)
        requires
            self.wf(),
            sizes_fit(self.spec_shape()),
            padding@.len() == self.spec_shape().len() ==> padding_fits(self.spec_shape(), padding@)
                && sizes_fit(padded_shape(self.spec_shape(), padding@)),
        ensures
            padding@.len() != self.spec_shape().len() ==> (r matches Err(e) && e is WrongDims),
            padding@.len() == self.spec_shape().len() ==> (r matches Ok(t) && t.wf() && t.spec_shape()
                == padded_shape(self.spec_shape(), padding@) && is_row_major(t.spec_shape(), t.spec_strides())
                && t.elems() == padded_block(self.elems(), self.spec_shape(), padding@, 0)),
    {
        pad_inner(self, &padding, padding_type)
    }
}

impl<'a, T: TensorValue> TensorView<'a, T> {
    /// A copy with `padding[i]` indices added on both sides of dimension
    /// `i` (see `pad_inner`).
    pub fn pad(&self, padding: Vec<usize>, padding_type: &PaddingType) -> (r: Result<TensorBase<T>, TensorError>)
        requires
            sizes_fit(self.spec_shape()),
            padding@.len() == self.spec_shape().len() ==> padding_fits(self.spec_shape(), padding@)
                && sizes_fit(padded_shape(self.spec_shape(), padding@)),
        ensures
            padding@.len() != self.spec_shape().len() ==> (r matches Err(e) && e is WrongDims),
            padding@.len() == self.spec_shape().len() ==> (r matches Ok(t) && t.wf() && t.spec_shape()
                == padded_shape(self.spec_shape(), padding@) && is_row_major(t.spec_shape(), t.spec_strides())
                && t.elems() == padded_block(self.elems(), self.spec_shape(), padding@, 0)),
    {
        proof {
            use_type_invariant(self);
        }
        pad_inner(self, &padding, padding_type)
    }
}

impl<'a, T: TensorValue> TensorViewMut<'a, T> {
    /// A copy with `padding[i]` indices added on both sides of dimension
    /// `i` (see `pad_inner`).
    pub fn pad(&self, padding: Vec<usize>, padding_type: &PaddingType) -> (r: Result<TensorBase<T>, TensorError>)
        requires
            self.wf(),
            sizes_fit(self.spec_shape()),
            padding@.len() == self.spec_shape().len() ==> padding_fits(self.spec_shape(), padding@)
                && sizes_fit(padded_shape(self.spec_shape(), padding@)),
        ensures
            padding@.len() != self.spec_shape().len() ==> (r matches Err(e) && e is WrongDims),
            padding@.len() == self.spec_shape().len() ==> (r matches Ok(t) && t.wf() && t.spec_shape()
                == padded_shape(self.spec_shape(), padding@) && is_row_major(t.spec_shape(), t.spec_strides())
                && t.elems() == padded_block(
                view_elems(self.data(), self.spec_shape(), self.spec_strides(), self.spec_offset()),
                self.spec_shape(),
                padding@,
                0,
            )),
    {
        pad_inner(self, &padding, padding_type)
    }
}

} // verus!

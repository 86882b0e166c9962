//! Tensor metadata (shape, strides, offset), logical indices, and the shape
//! computations behind the view operations.
use vstd::prelude::*;
use crate::error::{msg, TensorError};
use crate::layout::{layout_fits, lin, lin_prefix, lin_fits, size_from, shape_size, lemma_size_from_zero};
use crate::sums::{is_perm, perm_hits, permuted};

verus! {

/// Shape, strides and offset of a tensor or view into a buffer.
pub struct MetaTensor {
    pub shape: Vec<usize>,
    pub strides: Vec<isize>,
    pub offset: usize,
}

/// Every trailing product of the shape fits in an `isize`.
pub open spec fn sizes_fit(shape: Seq<usize>) -> bool {
    forall|i: int| 0 <= i <= shape.len() ==> #[trigger] size_from(shape, i) <= isize::MAX
}

/// `strides` are the row-major strides of `shape`.
pub open spec fn is_row_major(shape: Seq<usize>, strides: Seq<isize>) -> bool {
    &&& strides.len() == shape.len()
    &&& forall|i: int| 0 <= i < shape.len() ==> strides[i] as int == #[trigger] size_from(shape, i + 1)
}

impl MetaTensor {
    /// The layout addresses only positions of a buffer of length `len`.
    pub open spec fn fits(&self, len: int) -> bool {
        layout_fits(self.shape@, self.strides@, self.offset as int, len)
    }

    pub fn new(shape: Vec<usize>, strides: Vec<isize>, offset: usize) -> (m: Self)
        ensures
            m.shape == shape,
            m.strides == strides,
            m.offset == offset,
    {
        MetaTensor { shape, strides, offset }
    }

    /// Number of dimensions.
    pub fn rank(&self) -> (r: usize)
        ensures
            r == self.shape@.len(),
    {
        self.shape.len()
    }

    pub fn shape(&self) -> (r: &Vec<usize>)
        ensures
            r@ == self.shape@,
    {
        &self.shape
    }

    pub fn strides(&self) -> (r: &Vec<isize>)
        ensures
            r@ == self.strides@,
    {
        &self.strides
    }

    pub fn offset(&self) -> (r: usize)
        ensures
            r == self.offset,
    {
        self.offset
    }

    /// Number of logical elements.
    pub fn size(&self) -> (n: usize)
        requires
            sizes_fit(self.shape@),
        ensures
            n == shape_size(self.shape@),
    {
        shape_size_of(&self.shape)
    }

    /// Whether the strides are the row-major strides of the shape.
    pub fn is_contiguous(&self) -> (b: bool)
        ensures
            b == is_row_major(self.shape@, self.strides@),
    {
        strides_are_row_major(&self.shape, &self.strides)
    }

    pub fn clone_meta(&self) -> (m: Self)
        ensures
            m.shape@ == self.shape@,
            m.strides@ == self.strides@,
            m.offset == self.offset,
    {
        MetaTensor { shape: self.shape.clone(), strides: self.strides.clone(), offset: self.offset }
    }
}

/// Product of the dimensions of a shape.
pub fn shape_size_of(shape: &Vec<usize>) -> (n: usize)
    requires
        sizes_fit(shape@),
    ensures
        n == shape_size(shape@),
{
    let mut acc: usize = 1;
    let mut i = shape.len();
    while i > 0
        invariant
            i <= shape@.len(),
            sizes_fit(shape@),
            acc == size_from(shape@, i as int),
        decreases i,
    {
        i = i - 1;
        assert(size_from(shape@, i as int) == (shape@[i as int] as nat) * size_from(
            shape@,
            i + 1,
        ));
        assert(size_from(shape@, i as int) <= isize::MAX);
        acc = shape[i] * acc;
    }
    acc
}

/// Row-major strides of a shape.
pub fn shape_to_stride(shape: &Vec<usize>) -> (st: Vec<isize>)
    requires
        sizes_fit(shape@),
    ensures
        is_row_major(shape@, st@),
{
    let n = shape.len();
    let mut st: Vec<isize> = Vec::new();
    let mut k: usize = 0;
    while k < n
        invariant
            k <= n,
            n == shape@.len(),
            st@.len() == k,
        decreases n - k,
    {
        st.push(0);
        k = k + 1;
    }
    let mut acc: usize = 1;
    let mut i = n;
    while i > 0
        invariant
            i <= n,
            n == shape@.len(),
            st@.len() == n,
            sizes_fit(shape@),
            acc == size_from(shape@, i as int),
            forall|j: int| i <= j < n ==> st@[j] as int == #[trigger] size_from(shape@, j + 1),
        decreases i,
    {
        i = i - 1;
        assert(size_from(shape@, i + 1) <= isize::MAX);
        st.set(i, acc as isize);
        assert(size_from(shape@, i as int) == (shape@[i as int] as nat) * size_from(
            shape@,
            i + 1,
        ));
        assert(size_from(shape@, i as int) <= isize::MAX);
        acc = shape[i] * acc;
    }
    st
}

/// Whether `strides` are the row-major strides of `shape`.
pub fn strides_are_row_major(shape: &Vec<usize>, strides: &Vec<isize>) -> (b: bool)
    ensures
        b == is_row_major(shape@, strides@),
{
    if shape.len() != strides.len() {
        return false;
    }
    let n = shape.len();
    // expected stride of dimension i - 1 is tracked in `acc` (as an unbounded check)
    let mut acc: u128 = 1;
    let mut i = n;
    while i > 0
        invariant
            i <= n,
            n == shape@.len(),
            n == strides@.len(),
            acc == size_from(shape@, i as int),
            acc <= isize::MAX,
            forall|j: int| i <= j < n ==> strides@[j] as int == #[trigger] size_from(shape@, j + 1),
        decreases i,
    {
        i = i - 1;
        if strides[i] < 0 || strides[i] as u128 != acc {
            assert(strides@[i as int] as int != size_from(shape@, i + 1));
            return false;
        }
        assert(size_from(shape@, i as int) == (shape@[i as int] as nat) * size_from(
            shape@,
            i + 1,
        ));
        assert((shape[i as int] as u128) * acc <= u128::MAX) by (nonlinear_arith)
            requires
                shape[i as int] <= usize::MAX,
                acc <= isize::MAX,
        ;
        let next: u128 = (shape[i] as u128) * acc;
        if i > 0 && next > isize::MAX as u128 {
            // strides[i - 1] cannot equal a value this large
            assert(next == size_from(shape@, i as int));
            assert(strides@[i - 1] as int != size_from(shape@, (i - 1) + 1));
            return false;
        }
        if i == 0 {
            return true;
        }
        acc = next;
    }
    true
}

/// A logical index into a tensor.
pub enum Idx {
    /// One index per dimension.
    Coord(Vec<usize>),
    /// A single index, for one-dimensional tensors.
    At(usize),
    /// The element of a rank-0 tensor.
    Item,
}

impl Idx {
    /// The coordinate this index denotes.
    pub open spec fn coord(&self) -> Seq<usize> {
        match self {
            Idx::Coord(v) => v@,
            Idx::At(i) => seq![*i],
            Idx::Item => Seq::empty(),
        }
    }

    /// The coordinate as a vector.
    pub fn to_vec(&self) -> (v: Vec<usize>)
        ensures
            v@ == self.coord(),
    {
        match self {
            Idx::Coord(v) => v.clone(),
            Idx::At(i) => {
                let mut v = Vec::new();
                v.push(*i);
                assert(v@ =~= seq![*i]);
                v
            },
            Idx::Item => Vec::new(),
        }
    }
}

/// Converts a logical index into a buffer index: `offset + sum(c[i] * stride[i])`.
///
/// Errors: `WrongDims` when the index rank differs from the number of strides
/// (and for `Item` on a tensor of rank > 0), `IdxOutOfBounds` when the
/// computed index is negative. Whether the index lies inside the buffer is
/// left to the caller.
pub fn logical_to_buffer_idx(idx: &Idx, stride: &Vec<isize>, offset: usize) -> (r: Result<
    usize,
    TensorError,
>)
    requires
        idx.coord().len() == stride@.len() ==> lin_fits(idx.coord(), stride@, offset as int),
    ensures
        idx.coord().len() != stride@.len() ==> (r matches Err(e) && e is WrongDims),
        idx.coord().len() == stride@.len() && lin(idx.coord(), stride@, offset as int) < 0 ==> (
        r matches Err(e) && e is IdxOutOfBounds),
        idx.coord().len() == stride@.len() && lin(idx.coord(), stride@, offset as int) >= 0 ==> r
            == Ok::<usize, TensorError>(lin(idx.coord(), stride@, offset as int) as usize),
{
    let c = idx.to_vec();
    if c.len() != stride.len() {
        return Err(TensorError::WrongDims(msg("index rank does not match tensor rank")));
    }
    let ghost cs = c@;
    let mut acc: isize = offset as isize;
    let mut i: usize = 0;
    while i < c.len()
        invariant
            cs == c@,
            cs == idx.coord(),
            c@.len() == stride@.len(),
            i <= c@.len(),
            lin_fits(cs, stride@, offset as int),
            acc == lin_prefix(cs, stride@, offset as int, i as int),
        decreases c@.len() - i,
    {
        assert(lin_prefix(cs, stride@, offset as int, i + 1) <= isize::MAX);
        assert(isize::MIN <= lin_prefix(cs, stride@, offset as int, i + 1));
        assert(isize::MIN <= (cs[i as int] as int) * (stride@[i as int] as int) <= isize::MAX);
        let term: isize = (c[i] as isize) * stride[i];
        acc = acc + term;
        i = i + 1;
    }
    if acc < 0 {
        return Err(TensorError::IdxOutOfBounds(msg("buffer index is negative")));
    }
    Ok(acc as usize)
}

/// Shape and strides after reordering the dimensions by `dims`.
///
/// Errors: `WrongDims` when `dims` does not list one entry per dimension,
/// `InvalidDim` when an entry is not a dimension of the tensor.
pub fn compute_permuted_parameters(shape: &Vec<usize>, stride: &Vec<isize>, dims: &Idx) -> (r: Result<
    (Vec<usize>, Vec<isize>),
    TensorError,
>)
    requires
        shape@.len() == stride@.len(),
    ensures
        dims.coord().len() != shape@.len() ==> (r matches Err(e) && e is WrongDims),
        dims.coord().len() == shape@.len() && (exists|k: int|
            0 <= k < shape@.len() && #[trigger] dims.coord()[k] >= shape@.len()) ==> (r matches Err(
            e,
        ) && e is InvalidDim),
        dims.coord().len() == shape@.len() && (forall|k: int|
            0 <= k < shape@.len() ==> #[trigger] dims.coord()[k] < shape@.len()) ==> (r matches Ok(
            (s, t),
        ) && s@ == permuted(shape@, dims.coord()) && t@ == permuted(stride@, dims.coord())),
{
    let rank = shape.len();
    let p = dims.to_vec();
    if p.len() != rank {
        return Err(TensorError::WrongDims(msg("permutation length does not match tensor rank")));
    }
    let mut new_shape: Vec<usize> = Vec::new();
    let mut new_stride: Vec<isize> = Vec::new();
    let mut k: usize = 0;
    while k < rank
        invariant
            rank == shape@.len(),
            rank == stride@.len(),
            p@ == dims.coord(),
            p@.len() == rank,
            k <= rank,
            new_shape@.len() == k,
            new_stride@.len() == k,
            forall|j: int| 0 <= j < k ==> p@[j] < rank,
            forall|j: int| 0 <= j < k ==> new_shape@[j] == shape@[p@[j] as int],
            forall|j: int| 0 <= j < k ==> new_stride@[j] == stride@[p@[j] as int],
        decreases rank - k,
    {
        let d = p[k];
        if d >= rank {
            return Err(TensorError::InvalidDim(msg("permutation dim is out of bounds")));
        }
        new_shape.push(shape[d]);
        new_stride.push(stride[d]);
        k = k + 1;
    }
    assert(new_shape@ =~= permuted(shape@, p@));
    assert(new_stride@ =~= permuted(stride@, p@));
    Ok((new_shape, new_stride))
}

/// Stride given to a new unit dimension inserted at `dim`.
pub open spec fn unsqueeze_stride(shape: Seq<usize>, stride: Seq<isize>, dim: int) -> int {
    if dim < stride.len() {
        (stride[dim] as int) * (shape[dim] as int)
    } else {
        1
    }
}

/// Shape and strides after inserting a dimension of size 1 at `dim`.
///
/// Errors: `InvalidDim` when `dim` is greater than the rank.
pub fn compute_unsqueezed_parameters(shape: &Vec<usize>, stride: &Vec<isize>, dim: usize) -> (r: Result<
    (Vec<usize>, Vec<isize>),
    TensorError,
>)
    requires
        shape@.len() == stride@.len(),
        dim < shape@.len() ==> shape@[dim as int] <= isize::MAX && isize::MIN <= unsqueeze_stride(
            shape@,
            stride@,
            dim as int,
        ) <= isize::MAX,
    ensures
        dim > shape@.len() ==> (r matches Err(e) && e is InvalidDim),
        dim <= shape@.len() ==> (r matches Ok((s, t)) && s@ == shape@.insert(dim as int, 1) && t@
            == stride@.insert(dim as int, unsqueeze_stride(shape@, stride@, dim as int) as isize)),
{
    if dim > shape.len() {
        return Err(TensorError::InvalidDim(msg("unsqueeze dim is out of bounds")));
    }
    let mut new_strides = stride.clone();
    let mut new_shape = shape.clone();
    let lstr: isize = if dim < stride.len() { stride[dim] } else { 1 };
    let lsh: isize = if dim < shape.len() { shape[dim] as isize } else { 1 };
    new_strides.insert(dim, lstr * lsh);
    new_shape.insert(dim, 1);
    Ok((new_shape, new_strides))
}

/// Shape and strides with every dimension of size 1 removed.
pub open spec fn squeeze_all(shape: Seq<usize>, stride: Seq<isize>) -> (Seq<usize>, Seq<isize>)
    decreases shape.len(),
{
    if shape.len() == 0 {
        (Seq::empty(), Seq::empty())
    } else {
        let rest = squeeze_all(shape.drop_first(), stride.drop_first());
        if shape[0] == 1 {
            rest
        } else {
            (seq![shape[0]] + rest.0, seq![stride[0]] + rest.1)
        }
    }
}

/// Shape and strides after removing the dimension `dim` (when given, and of
/// size 1) or every dimension of size 1 (when `dim` is `None`).
///
/// Errors: `InvalidDim` when `dim` is not a dimension or its size is not 1.
pub fn compute_squeezed_parameters(shape: &Vec<usize>, stride: &Vec<isize>, dim: Option<usize>) -> (r:
    Result<(Vec<usize>, Vec<isize>), TensorError>)
    requires
        shape@.len() == stride@.len(),
    ensures
        dim is Some && dim.unwrap() >= shape@.len() ==> (r matches Err(e) && e is InvalidDim),
        dim is Some && dim.unwrap() < shape@.len() && shape@[dim.unwrap() as int] != 1 ==> (r matches Err(e)
            && e is InvalidDim),
        dim is Some && dim.unwrap() < shape@.len() && shape@[dim.unwrap() as int] == 1 ==> (r matches Ok((s, u))
            && s@ == shape@.remove(dim.unwrap() as int) && u@ == stride@.remove(dim.unwrap() as int)),
        dim is None ==> (r matches Ok((s, u)) && s@ == squeeze_all(shape@, stride@).0 && u@
            == squeeze_all(shape@, stride@).1),
{
    match dim {
        Some(t) => {
            if t >= shape.len() {
                return Err(TensorError::InvalidDim(msg("squeeze dim is out of bounds")));
            }
            if shape[t] != 1 {
                return Err(TensorError::InvalidDim(msg("cannot squeeze a dimension whose size is not 1")));
            }
            let mut s = shape.clone();
            let mut u = stride.clone();
            s.remove(t);
            u.remove(t);
            Ok((s, u))
        },
        None => {
            let n = shape.len();
            let mut s = shape.clone();
            let mut u = stride.clone();
            let mut i = n;
            let ghost sh = shape@;
            let ghost st = stride@;
            proof {
                assert(sh.subrange(n as int, n as int) =~= Seq::<usize>::empty());
                assert(st.subrange(n as int, n as int) =~= Seq::<isize>::empty());
                assert(s@ =~= sh.subrange(0, n as int) + squeeze_all(
                    sh.subrange(n as int, n as int),
                    st.subrange(n as int, n as int),
                ).0);
                assert(u@ =~= st.subrange(0, n as int) + squeeze_all(
                    sh.subrange(n as int, n as int),
                    st.subrange(n as int, n as int),
                ).1);
            }
            while i > 0
                invariant
                    i <= n,
                    n == sh.len(),
                    n == st.len(),
                    sh == shape@,
                    st == stride@,
                    s@ == sh.subrange(0, i as int) + squeeze_all(
                        sh.subrange(i as int, n as int),
                        st.subrange(i as int, n as int),
                    ).0,
                    u@ == st.subrange(0, i as int) + squeeze_all(
                        sh.subrange(i as int, n as int),
                        st.subrange(i as int, n as int),
                    ).1,
                decreases i,
            {
                i = i - 1;
                let ghost rest = squeeze_all(
                    sh.subrange(i + 1, n as int),
                    st.subrange(i + 1, n as int),
                );
                proof {
                    assert(sh.subrange(i as int, n as int).drop_first() =~= sh.subrange(
                        i + 1,
                        n as int,
                    ));
                    assert(st.subrange(i as int, n as int).drop_first() =~= st.subrange(
                        i + 1,
                        n as int,
                    ));
                }
                if shape[i] == 1 {
                    s.remove(i);
                    u.remove(i);
                    assert(s@ =~= sh.subrange(0, i as int) + rest.0);
                    assert(u@ =~= st.subrange(0, i as int) + rest.1);
                } else {
                    assert(s@ =~= sh.subrange(0, i as int) + (seq![sh[i as int]] + rest.0));
                    assert(u@ =~= st.subrange(0, i as int) + (seq![st[i as int]] + rest.1));
                }
            }
            assert(sh.subrange(0, n as int) =~= sh);
            assert(st.subrange(0, n as int) =~= st);
            assert(s@ =~= squeeze_all(sh, st).0);
            assert(u@ =~= squeeze_all(sh, st).1);
            Ok((s, u))
        },
    }
}

/// A selection of indices along one dimension.
pub enum Slice {
    /// A single index; the dimension is removed.
    Index(usize),
    /// `start`, `start + step`, ... stopping before `stop`. Missing bounds
    /// default to the first (or, for a negative step, the last) index and to
    /// one past the end (or one before the beginning).
    Range { start: Option<usize>, stop: Option<usize>, step: isize },
}

impl Slice {
    /// The slice `start..stop` with the given step.
    pub fn new(start: Option<usize>, stop: Option<usize>, step: isize) -> (s: Slice)
        ensures
            s == (Slice::Range { start, stop, step }),
    {
        Slice::Range { start, stop, step }
    }

    /// Every index, in order.
    pub fn full() -> (s: Slice)
        ensures
            s == (Slice::Range { start: None, stop: None, step: 1 }),
    {
        Slice::Range { start: None, stop: None, step: 1 }
    }

    /// A single index.
    pub fn at(i: usize) -> (s: Slice)
        ensures
            s == Slice::Index(i),
    {
        Slice::Index(i)
    }

    /// `a..b`; when `a > b` the indices run downwards from `a` to `b + 1`.
    pub fn range(a: usize, b: usize) -> (s: Slice)
        ensures
            a <= b ==> s == (Slice::Range { start: Some(a), stop: Some(b), step: 1 }),
            a > b ==> s == (Slice::Range { start: Some(a), stop: Some(b), step: -1isize }),
    {
        if a <= b {
            Slice::Range { start: Some(a), stop: Some(b), step: 1 }
        } else {
            Slice::Range { start: Some(a), stop: Some(b), step: -1 }
        }
    }

    /// `a..=b`; when `a > b` the indices run downwards from `a` to `b`.
    pub fn range_inclusive(a: usize, b: usize) -> (s: Slice)
        requires
            b < usize::MAX,
        ensures
            a <= b ==> s == (Slice::Range { start: Some(a), stop: Some((b + 1) as usize), step: 1 }),
            a > b && b > 0 ==> s == (Slice::Range { start: Some(a), stop: Some((b - 1) as usize), step: -1isize }),
            a > b && b == 0 ==> s == (Slice::Range { start: Some(a), stop: None, step: -1isize }),
    {
        if a <= b {
            Slice::Range { start: Some(a), stop: Some(b + 1), step: 1 }
        } else if b > 0 {
            Slice::Range { start: Some(a), stop: Some(b - 1), step: -1 }
        } else {
            Slice::Range { start: Some(a), stop: None, step: -1 }
        }
    }

    /// `a..`
    pub fn range_from(a: usize) -> (s: Slice)
        ensures
            s == (Slice::Range { start: Some(a), stop: None, step: 1 }),
    {
        Slice::Range { start: Some(a), stop: None, step: 1 }
    }

    /// `..b`
    pub fn range_to(b: usize) -> (s: Slice)
        ensures
            s == (Slice::Range { start: None, stop: Some(b), step: 1 }),
    {
        Slice::Range { start: None, stop: Some(b), step: 1 }
    }

    /// The same bounds with another step.
    pub fn step(self, step: isize) -> (s: Slice)
        ensures
            self matches Slice::Range { start, stop, .. } ==> s == (Slice::Range { start, stop, step }),
            self is Index ==> s == self,
    {
        match self {
            Slice::Range { start, stop, .. } => Slice::Range { start, stop, step },
            Slice::Index(i) => Slice::Index(i),
        }
    }
}

/// First index selected by a range over a dimension of size `n`.
pub open spec fn range_first(n: int, start: Option<usize>, step: int) -> int {
    match start {
        Some(s) => s as int,
        None => if step > 0 { 0 } else { n - 1 },
    }
}

/// The bounds of a range are acceptable for a dimension of size `n`.
pub open spec fn range_valid(n: int, start: Option<usize>, stop: Option<usize>, step: int) -> bool {
    &&& step != 0
    &&& (step > 0 ==> (start matches Some(s) ==> s <= n))
    &&& (step < 0 ==> (start matches Some(s) ==> s < n))
    &&& (stop matches Some(e) ==> e <= n)
}

/// Number of indices selected by a valid range over a dimension of size `n`.
pub open spec fn range_len(n: int, start: Option<usize>, stop: Option<usize>, step: int) -> int {
    let first = range_first(n, start, step);
    if step > 0 {
        let end: int = match stop {
            Some(e) => e as int,
            None => n,
        };
        if end > first {
            (end - first + step - 1) / step
        } else {
            0
        }
    } else {
        let m = -step;
        match stop {
            Some(e) => if first > e {
                (first - e + m - 1) / m
            } else {
                0
            },
            None => if first >= 0 {
                first / m + 1
            } else {
                0
            },
        }
    }
}

/// `idx` selects indices of dimension `dim`.
pub open spec fn slice_valid(shape: Seq<usize>, dim: int, idx: Slice) -> bool {
    &&& 0 <= dim < shape.len()
    &&& match idx {
        Slice::Index(i) => i < shape[dim],
        Slice::Range { start, stop, step } => range_valid(shape[dim] as int, start, stop, step as int),
    }
}

/// The error reported for a slice that is not valid.
pub open spec fn slice_error(shape: Seq<usize>, dim: int, idx: Slice, e: TensorError) -> bool {
    if !(0 <= dim < shape.len()) {
        e is InvalidDim
    } else {
        match idx {
            Slice::Index(_) => e is IdxOutOfBounds,
            Slice::Range { step, .. } => if step == 0 {
                e is InvalidShape
            } else {
                e is IdxOutOfBounds
            },
        }
    }
}

/// Shape after slicing.
pub open spec fn slice_shape(shape: Seq<usize>, dim: int, idx: Slice) -> Seq<usize> {
    match idx {
        Slice::Index(_) => shape.remove(dim),
        Slice::Range { start, stop, step } => shape.update(
            dim,
            range_len(shape[dim] as int, start, stop, step as int) as usize,
        ),
    }
}

/// Strides after slicing.
pub open spec fn slice_strides(strides: Seq<isize>, dim: int, idx: Slice) -> Seq<isize> {
    match idx {
        Slice::Index(_) => strides.remove(dim),
        Slice::Range { step, .. } => strides.update(
            dim,
            ((strides[dim] as int) * (step as int)) as isize,
        ),
    }
}

/// Offset after slicing.
pub open spec fn slice_offset(
    shape: Seq<usize>,
    strides: Seq<isize>,
    offset: int,
    dim: int,
    idx: Slice,
) -> int {
    match idx {
        Slice::Index(i) => sliced_offset(offset, i as int, strides[dim] as int, 1),
        Slice::Range { start, stop, step } => sliced_offset(
            offset,
            range_first(shape[dim] as int, start, step as int),
            strides[dim] as int,
            range_len(shape[dim] as int, start, stop, step as int),
        ),
    }
}

/// Slicing with a step multiplies a stride; the product must be an `isize`.
pub open spec fn slice_computable(strides: Seq<isize>, dim: int, idx: Slice) -> bool {
    0 <= dim < strides.len() ==> (idx matches Slice::Range { step, .. } ==> isize::MIN <= (
    strides[dim] as int) * (step as int) <= isize::MAX)
}

/// Offset of a sliced layout: the position of its first element, or the
/// old offset when the slice selects nothing (or the position is not a
/// buffer index).
pub open spec fn sliced_offset(offset: int, first: int, stride: int, len: int) -> int {
    let o = offset + first * stride;
    if len > 0 && 0 <= o <= usize::MAX {
        o
    } else {
        offset
    }
}

/// Offset after moving `first` steps of `stride` from `offset`, when that is a
/// buffer index.
fn shifted_offset(offset: usize, first: usize, stride: isize, len: usize) -> (o: usize)
    ensures
        o == sliced_offset(offset as int, first as int, stride as int, len as int),
{
    if len == 0 {
        return offset;
    }
    let prod = (first as i128).checked_mul(stride as i128);
    match prod {
        Some(p) => {
            let sum = (offset as i128).checked_add(p);
            match sum {
                Some(v) => {
                    if 0 <= v && v <= usize::MAX as i128 {
                        v as usize
                    } else {
                        offset
                    }
                },
                None => {
                    assert(false) by (nonlinear_arith)
                        requires
                            offset >= 0,
                            offset <= usize::MAX,
                            p == (first as int) * (stride as int),
                            first <= usize::MAX,
                            isize::MIN <= stride <= isize::MAX,
                            (offset as int) + p > i128::MAX || (offset as int) + p < i128::MIN,
                    ;
                    offset
                },
            }
        },
        None => {
            assert(false) by (nonlinear_arith)
                requires
                    first <= usize::MAX,
                    isize::MIN <= stride <= isize::MAX,
                    (first as int) * (stride as int) > i128::MAX || (first as int) * (stride as int)
                        < i128::MIN,
            ;
            offset
        },
    }
}

/// Shape, strides and offset after slicing dimension `dim`.
///
/// Errors: `InvalidDim` when `dim` is not a dimension, `IdxOutOfBounds` when
/// an index or bound lies outside the dimension, `InvalidShape` for a zero
/// step.
pub fn compute_sliced_parameters(
    shape: &Vec<usize>,
    strides: &Vec<isize>,
    offset: usize,
    dim: usize,
    idx: Slice,
) -> (r: Result<(Vec<usize>, Vec<isize>, usize), TensorError>)
    requires
        shape@.len() == strides@.len(),
        dim < shape@.len() ==> (idx matches Slice::Range { step, .. } ==> isize::MIN <= (
        strides@[dim as int] as int) * (step as int) <= isize::MAX),
    ensures
        !slice_valid(shape@, dim as int, idx) ==> (r matches Err(e) && slice_error(
            shape@,
            dim as int,
            idx,
            e,
        )),
        slice_valid(shape@, dim as int, idx) ==> (r matches Ok((s, t, o)) && s@ == slice_shape(
            shape@,
            dim as int,
            idx,
        ) && t@ == slice_strides(strides@, dim as int, idx) && o == slice_offset(
            shape@,
            strides@,
            offset as int,
            dim as int,
            idx,
        )),
{
    if dim >= shape.len() {
        return Err(TensorError::InvalidDim(msg("slice dim is out of bounds")));
    }
    let n = shape[dim];
    let stride = strides[dim];
    match idx {
        Slice::Index(i) => {
            if i >= n {
                return Err(TensorError::IdxOutOfBounds(msg("slice index is out of bounds")));
            }
            let mut s = shape.clone();
            let mut t = strides.clone();
            s.remove(dim);
            t.remove(dim);
            let o = shifted_offset(offset, i, stride, 1);
            Ok((s, t, o))
        },
        Slice::Range { start, stop, step } => {
            if step == 0 {
                return Err(TensorError::InvalidShape(msg("slice step must be non-zero")));
            }
            let len: usize;
            let first: usize;
            if step > 0 {
                first = match start {
                    Some(a) => a,
                    None => 0,
                };
                let end = match stop {
                    Some(e) => e,
                    None => n,
                };
                if first > n || end > n {
                    return Err(TensorError::IdxOutOfBounds(msg("slice bound is out of bounds")));
                }
                let st = step as usize;
                len = if end > first {
                    ((end - first) - 1) / st + 1
                } else {
                    0
                };
                proof {
                    if end > first {
                        let a = (end - first) as int;
                        let b = st as int;
                        assert((a - 1) / b + 1 == (a + b - 1) / b) by (nonlinear_arith)
                            requires
                                a >= 1,
                                b >= 1,
                        ;
                    }
                }
            } else {
                if let Some(a) = start {
                    if a >= n {
                        return Err(TensorError::IdxOutOfBounds(msg("slice start is out of bounds")));
                    }
                }
                if let Some(e) = stop {
                    if e > n {
                        return Err(TensorError::IdxOutOfBounds(msg("slice stop is out of bounds")));
                    }
                }
                let m: usize = if step == isize::MIN { (isize::MAX as usize) + 1 } else { (-step) as usize };
                assert(m as int == -(step as int));
                match start {
                    Some(a) => {
                        first = a;
                    },
                    None => {
                        if n == 0 {
                            // nothing is selected
                            let mut s = shape.clone();
                            let mut t = strides.clone();
                            s.set(dim, 0);
                            t.set(dim, stride * step);
                            assert(range_len(n as int, start, stop, step as int) == 0);
                            assert(s@ =~= shape@.update(dim as int, 0));
                            return Ok((s, t, offset));
                        }
                        first = n - 1;
                    },
                }
                len = match stop {
                    Some(e) => if first > e {
                        ((first - e) - 1) / m + 1
                    } else {
                        0
                    },
                    None => first / m + 1,
                };
                proof {
                    match stop {
                        Some(e) => {
                            if first > e {
                                let a = (first - e) as int;
                                let b = m as int;
                                assert((a - 1) / b + 1 == (a + b - 1) / b) by (nonlinear_arith)
                                    requires
                                        a >= 1,
                                        b >= 1,
                                ;
                            }
                        },
                        None => {},
                    }
                }
            }
            let mut s = shape.clone();
            let mut t = strides.clone();
            s.set(dim, len);
            t.set(dim, stride * step);
            let o = shifted_offset(offset, first, stride, len);
            Ok((s, t, o))
        },
    }
}

/// Whether `p` lists each of `0..n` exactly once.
pub fn check_perm(p: &Vec<usize>, n: usize) -> (b: bool)
    ensures
        b == is_perm(p@, n as int),
{
    if p.len() != n {
        return false;
    }
    let mut k: usize = 0;
    while k < n
        invariant
            p@.len() == n,
            k <= n,
            forall|j: int| 0 <= j < k ==> p@[j] < n,
        decreases n - k,
    {
        if p[k] >= n {
            return false;
        }
        k = k + 1;
    }
    let mut a: usize = 0;
    while a < n
        invariant
            p@.len() == n,
            a <= n,
            forall|j: int| 0 <= j < n ==> p@[j] < n,
            forall|k1: int, k2: int| 0 <= k1 < a && 0 <= k2 < n && k1 != k2 ==> p@[k1] != p@[k2],
        decreases n - a,
    {
        let mut c: usize = 0;
        while c < n
            invariant
                p@.len() == n,
                a < n,
                c <= n,
                forall|k2: int| 0 <= k2 < c && k2 != a ==> p@[a as int] != p@[k2],
            decreases n - c,
        {
            if c != a && p[a] == p[c] {
                return false;
            }
            c = c + 1;
        }
        a = a + 1;
    }
    let mut i: usize = 0;
    while i < n
        invariant
            p@.len() == n,
            i <= n,
            forall|j: int| 0 <= j < n ==> p@[j] < n,
            forall|k1: int, k2: int| 0 <= k1 < n && 0 <= k2 < n && k1 != k2 ==> p@[k1] != p@[k2],
            forall|x: int| 0 <= x < i ==> #[trigger] perm_hits(p@, n as int, x),
        decreases n - i,
    {
        let mut found = false;
        let mut k: usize = 0;
        while k < n
            invariant
                p@.len() == n,
                i < n,
                k <= n,
                found ==> perm_hits(p@, n as int, i as int),
                !found ==> forall|j: int| 0 <= j < k ==> p@[j] != i,
            decreases n - k,
        {
            if p[k] == i {
                found = true;
            }
            k = k + 1;
        }
        if !found {
            assert(!perm_hits(p@, n as int, i as int));
            return false;
        }
        i = i + 1;
    }
    true
}

} // verus!

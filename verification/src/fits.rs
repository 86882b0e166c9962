//! The view operations keep a layout inside its buffer.
use vstd::prelude::*;
use crate::layout::{coord_index, layout_fits, lin_from, size_from, valid_coord, valid_from};
use crate::meta::{is_row_major, range_first, range_len, range_valid, sliced_offset, squeeze_all};
use crate::sums::{
    is_perm, lemma_coord_index_sum, lemma_sum_concat, lemma_sum_insert_zero, lemma_sum_permuted,
    perm_hits, permuted, seq_sum, terms,
};

verus! {

/// Replacing one term changes a sum by the difference.
pub proof fn lemma_sum_update(t: Seq<int>, d: int, x: int)
    requires
        0 <= d < t.len(),
    ensures
        seq_sum(t.update(d, x)) == seq_sum(t) - t[d] + x,
{
    let a = t.subrange(0, d);
    let b = t.subrange(d + 1, t.len() as int);
    assert(t =~= a + (seq![t[d]] + b));
    assert(t.update(d, x) =~= a + (seq![x] + b));
    lemma_sum_concat(a, seq![t[d]] + b);
    lemma_sum_concat(a, seq![x] + b);
    lemma_sum_concat(seq![t[d]], b);
    lemma_sum_concat(seq![x], b);
    crate::sums::lemma_sum_single(t[d]);
    crate::sums::lemma_sum_single(x);
}

/// Reordering the dimensions by a permutation keeps a layout in its buffer.
pub proof fn lemma_fits_permuted(
    shape: Seq<usize>,
    strides: Seq<isize>,
    offset: int,
    len: int,
    p: Seq<usize>,
)
    requires
        layout_fits(shape, strides, offset, len),
        is_perm(p, shape.len() as int),
    ensures
        layout_fits(permuted(shape, p), permuted(strides, p), offset, len),
{
    let n = shape.len() as int;
    let sh2 = permuted(shape, p);
    let st2 = permuted(strides, p);
    assert forall|c2: Seq<usize>| #[trigger] valid_coord(sh2, c2) implies 0 <= coord_index(
        c2,
        st2,
        offset,
    ) < len by {
        let c = Seq::new(
            n as nat,
            |i: int| c2[choose|k: int| 0 <= k < n && #[trigger] p[k] == i],
        );
        assert forall|i: int| 0 <= i < n implies c[i] < shape[i] by {
            assert(perm_hits(p, n, i));
            let k = choose|k: int| 0 <= k < n && #[trigger] p[k] == i;
            assert(c2[k] < sh2[k]);
        }
        assert(valid_coord(shape, c));
        let t = terms(c, strides);
        assert(terms(c2, st2) =~= permuted(t, p)) by {
            assert forall|k: int| 0 <= k < n implies terms(c2, st2)[k] == permuted(t, p)[k] by {
                let i = p[k] as int;
                assert(perm_hits(p, n, i));
                let k2 = choose|k2: int| 0 <= k2 < n && #[trigger] p[k2] == i;
                assert(k2 == k);
                assert(c[i] == c2[k]);
            }
        }
        lemma_sum_permuted(t, p);
        lemma_coord_index_sum(c, strides, offset);
        lemma_coord_index_sum(c2, st2, offset);
    }
}

/// Inserting a dimension of size 1 keeps a layout in its buffer.
pub proof fn lemma_fits_unsqueezed(
    shape: Seq<usize>,
    strides: Seq<isize>,
    offset: int,
    len: int,
    dim: int,
    x: isize,
)
    requires
        layout_fits(shape, strides, offset, len),
        0 <= dim <= shape.len(),
    ensures
        layout_fits(shape.insert(dim, 1), strides.insert(dim, x), offset, len),
{
    let sh2 = shape.insert(dim, 1);
    let st2 = strides.insert(dim, x);
    assert forall|c2: Seq<usize>| #[trigger] valid_coord(sh2, c2) implies 0 <= coord_index(
        c2,
        st2,
        offset,
    ) < len by {
        let c = c2.remove(dim);
        assert(c2[dim] < 1);
        assert forall|i: int| 0 <= i < shape.len() implies c[i] < shape[i] by {
            if i < dim {
                assert(c2[i] < sh2[i]);
            } else {
                assert(c2[i + 1] < sh2[i + 1]);
            }
        }
        assert(valid_coord(shape, c));
        assert((c2[dim] as int) * (x as int) == 0) by (nonlinear_arith)
            requires
                c2[dim] == 0,
        ;
        assert(terms(c2, st2) =~= terms(c, strides).insert(dim, 0));
        lemma_sum_insert_zero(terms(c, strides), dim);
        lemma_coord_index_sum(c, strides, offset);
        lemma_coord_index_sum(c2, st2, offset);
    }
}

/// Removing a dimension of size 1 keeps a layout in its buffer.
pub proof fn lemma_fits_remove_unit(
    shape: Seq<usize>,
    strides: Seq<isize>,
    offset: int,
    len: int,
    dim: int,
)
    requires
        layout_fits(shape, strides, offset, len),
        0 <= dim < shape.len(),
        shape[dim] == 1,
    ensures
        layout_fits(shape.remove(dim), strides.remove(dim), offset, len),
{
    let sh2 = shape.remove(dim);
    let st2 = strides.remove(dim);
    assert forall|c2: Seq<usize>| #[trigger] valid_coord(sh2, c2) implies 0 <= coord_index(
        c2,
        st2,
        offset,
    ) < len by {
        let c = c2.insert(dim, 0);
        assert forall|i: int| 0 <= i < shape.len() implies c[i] < shape[i] by {
            if i < dim {
                assert(c2[i] < sh2[i]);
            } else if i > dim {
                assert(c2[i - 1] < sh2[i - 1]);
            }
        }
        assert(valid_coord(shape, c));
        assert((c[dim] as int) * (strides[dim] as int) == 0) by (nonlinear_arith)
            requires
                c[dim] == 0,
        ;
        assert(terms(c, strides) =~= terms(c2, st2).insert(dim, 0));
        lemma_sum_insert_zero(terms(c2, st2), dim);
        lemma_coord_index_sum(c, strides, offset);
        lemma_coord_index_sum(c2, st2, offset);
    }
}

/// A coordinate of the squeezed shape, spread back over all the
/// dimensions of `shape` (unit dimensions get index 0).
pub open spec fn unsqueeze_coord(shape: Seq<usize>, c: Seq<usize>) -> Seq<usize>
    decreases shape.len(),
{
    if shape.len() == 0 {
        Seq::empty()
    } else if shape[0] == 1 {
        seq![0usize] + unsqueeze_coord(shape.drop_first(), c)
    } else {
        seq![c[0]] + unsqueeze_coord(shape.drop_first(), c.drop_first())
    }
}

pub proof fn lemma_unsqueeze_coord(shape: Seq<usize>, strides: Seq<isize>, c: Seq<usize>)
    requires
        shape.len() == strides.len(),
        valid_coord(squeeze_all(shape, strides).0, c),
    ensures
        squeeze_all(shape, strides).0.len() == squeeze_all(shape, strides).1.len(),
        valid_coord(shape, unsqueeze_coord(shape, c)),
        seq_sum(terms(unsqueeze_coord(shape, c), strides)) == seq_sum(
            terms(c, squeeze_all(shape, strides).1),
        ),
    decreases shape.len(),
{
    let u = unsqueeze_coord(shape, c);
    if shape.len() == 0 {
        assert(terms(u, strides) =~= Seq::<int>::empty());
        assert(terms(c, squeeze_all(shape, strides).1) =~= Seq::<int>::empty());
    } else {
        let rs = shape.drop_first();
        let rt = strides.drop_first();
        let rest = squeeze_all(rs, rt);
        if shape[0] == 1 {
            lemma_unsqueeze_coord(rs, rt, c);
            let ur = unsqueeze_coord(rs, c);
            assert(u =~= seq![0usize] + ur);
            assert forall|i: int| 0 <= i < shape.len() implies u[i] < shape[i] by {
                if i > 0 {
                    assert(u[i] == ur[i - 1]);
                }
            }
            assert((u[0] as int) * (strides[0] as int) == 0) by (nonlinear_arith)
                requires
                    u[0] == 0,
            ;
            assert(terms(u, strides) =~= seq![0int] + terms(ur, rt));
            lemma_sum_concat(seq![0int], terms(ur, rt));
            crate::sums::lemma_sum_single(0);
        } else {
            let c0 = c.drop_first();
            assert(squeeze_all(shape, strides).0 == seq![shape[0]] + rest.0);
            assert forall|i: int| 0 <= i < rest.0.len() implies c0[i] < rest.0[i] by {
                assert(c[i + 1] < squeeze_all(shape, strides).0[i + 1]);
            }
            assert(valid_coord(rest.0, c0));
            lemma_unsqueeze_coord(rs, rt, c0);
            let ur = unsqueeze_coord(rs, c0);
            assert(u =~= seq![c[0]] + ur);
            assert(c[0] < squeeze_all(shape, strides).0[0]);
            assert forall|i: int| 0 <= i < shape.len() implies u[i] < shape[i] by {
                if i > 0 {
                    assert(u[i] == ur[i - 1]);
                }
            }
            let x = (c[0] as int) * (strides[0] as int);
            assert(terms(u, strides) =~= seq![x] + terms(ur, rt));
            assert(terms(c, squeeze_all(shape, strides).1) =~= seq![x] + terms(c0, rest.1));
            lemma_sum_concat(seq![x], terms(ur, rt));
            lemma_sum_concat(seq![x], terms(c0, rest.1));
        }
    }
}

/// Removing every dimension of size 1 keeps a layout in its buffer.
pub proof fn lemma_fits_squeeze_all(shape: Seq<usize>, strides: Seq<isize>, offset: int, len: int)
    requires
        layout_fits(shape, strides, offset, len),
    ensures
        layout_fits(squeeze_all(shape, strides).0, squeeze_all(shape, strides).1, offset, len),
{
    lemma_squeeze_all_len(shape, strides);
    let sq = squeeze_all(shape, strides);
    assert forall|c2: Seq<usize>| #[trigger] valid_coord(sq.0, c2) implies 0 <= coord_index(
        c2,
        sq.1,
        offset,
    ) < len by {
        lemma_unsqueeze_coord(shape, strides, c2);
        let c = unsqueeze_coord(shape, c2);
        lemma_coord_index_sum(c, strides, offset);
        lemma_coord_index_sum(c2, sq.1, offset);
    }
}

pub proof fn lemma_squeeze_all_len(shape: Seq<usize>, strides: Seq<isize>)
    requires
        shape.len() == strides.len(),
    ensures
        squeeze_all(shape, strides).0.len() == squeeze_all(shape, strides).1.len(),
        squeeze_all(shape, strides).0.len() <= shape.len(),
    decreases shape.len(),
{
    if shape.len() > 0 {
        lemma_squeeze_all_len(shape.drop_first(), strides.drop_first());
    }
}

/// The index `first + j * step` selected by a valid range lies inside the
/// dimension.
pub proof fn lemma_range_index(n: int, start: Option<usize>, stop: Option<usize>, step: int, j: int)
    requires
        range_valid(n, start, stop, step),
        0 <= j < range_len(n, start, stop, step),
    ensures
        0 <= range_first(n, start, step) + j * step < n,
{
    let first = range_first(n, start, step);
    if step > 0 {
        let end: int = match stop {
            Some(e) => e as int,
            None => n,
        };
        assert(end > first);
        assert(j * step < end - first) by (nonlinear_arith)
            requires
                0 <= j < (end - first + step - 1) / step,
                step > 0,
                end > first,
        ;
        assert(j * step >= 0) by (nonlinear_arith)
            requires
                j >= 0,
                step > 0,
        ;
    } else {
        let m = -step;
        assert(j * step == -(j * m)) by (nonlinear_arith)
            requires
                m == -step,
        ;
        assert(j * m >= 0) by (nonlinear_arith)
            requires
                j >= 0,
                m > 0,
        ;
        match stop {
            Some(e) => {
                assert(first > e);
                assert(j * m < first - e) by (nonlinear_arith)
                    requires
                        0 <= j < (first - e + m - 1) / m,
                        m > 0,
                        first > e,
                ;
            },
            None => {
                assert(first >= 0);
                assert(j * m <= first) by (nonlinear_arith)
                    requires
                        0 <= j < first / m + 1,
                        m > 0,
                        first >= 0,
                ;
            },
        }
    }
}

/// A zero coordinate with `i` at dimension `dim`.
pub open spec fn axis_coord(n: nat, dim: int, i: usize) -> Seq<usize> {
    Seq::new(n, |k: int| if k == dim { i } else { 0usize })
}

/// When some in-range coordinate exists, every dimension is non-empty, so the
/// coordinate with index `i` at `dim` (and 0 elsewhere) is in range.
pub proof fn lemma_axis_coord_valid(shape: Seq<usize>, c: Seq<usize>, dim: int, i: usize)
    requires
        valid_coord(shape, c),
        0 <= dim < shape.len(),
        i < shape[dim],
    ensures
        valid_coord(shape, axis_coord(shape.len(), dim, i)),
{
    assert forall|k: int| 0 <= k < shape.len() implies axis_coord(shape.len(), dim, i)[k]
        < shape[k] by {
        assert(c[k] < shape[k]);
    }
}

/// Terms of the axis coordinate: only dimension `dim` contributes.
pub proof fn lemma_axis_coord_index(strides: Seq<isize>, offset: int, dim: int, i: usize)
    requires
        0 <= dim < strides.len(),
    ensures
        coord_index(axis_coord(strides.len(), dim, i), strides, offset) == offset + (i as int) * (
        strides[dim] as int),
{
    let a = axis_coord(strides.len(), dim, i);
    let z = Seq::new(strides.len(), |k: int| 0int);
    lemma_coord_index_sum(a, strides, offset);
    assert(terms(a, strides) =~= z.update(dim, (i as int) * (strides[dim] as int))) by {
        assert forall|k: int| 0 <= k < strides.len() && k != dim implies terms(a, strides)[k]
            == 0 by {
            assert((0int) * (strides[k] as int) == 0);
        }
    }
    lemma_sum_update(z, dim, (i as int) * (strides[dim] as int));
    lemma_sum_zeros(strides.len());
}

pub proof fn lemma_sum_zeros(n: nat)
    ensures
        seq_sum(Seq::new(n, |k: int| 0int)) == 0,
    decreases n,
{
    if n > 0 {
        lemma_sum_zeros((n - 1) as nat);
        assert(Seq::new(n, |k: int| 0int).drop_first() =~= Seq::new((n - 1) as nat, |k: int| 0int));
    }
}

/// Fixing one index of a dimension keeps a layout in its buffer.
pub proof fn lemma_fits_index_slice(
    shape: Seq<usize>,
    strides: Seq<isize>,
    offset: int,
    len: int,
    dim: int,
    i: usize,
)
    requires
        layout_fits(shape, strides, offset, len),
        0 <= dim < shape.len(),
        i < shape[dim],
        len <= usize::MAX,
    ensures
        layout_fits(
            shape.remove(dim),
            strides.remove(dim),
            sliced_offset(offset, i as int, strides[dim] as int, 1),
            len,
        ),
{
    let sh2 = shape.remove(dim);
    let st2 = strides.remove(dim);
    let o2 = sliced_offset(offset, i as int, strides[dim] as int, 1);
    assert forall|c2: Seq<usize>| #[trigger] valid_coord(sh2, c2) implies 0 <= coord_index(
        c2,
        st2,
        o2,
    ) < len by {
        let c = c2.insert(dim, i);
        assert forall|k: int| 0 <= k < shape.len() implies c[k] < shape[k] by {
            if k < dim {
                assert(c2[k] < sh2[k]);
            } else if k > dim {
                assert(c2[k - 1] < sh2[k - 1]);
            }
        }
        assert(valid_coord(shape, c));
        lemma_axis_coord_valid(shape, c, dim, i);
        lemma_axis_coord_index(strides, offset, dim, i);
        assert(valid_coord(shape, axis_coord(shape.len(), dim, i)));
        // the first element of the slice is a buffer index
        assert(o2 == offset + (i as int) * (strides[dim] as int));
        let x = (i as int) * (strides[dim] as int);
        assert(terms(c, strides) =~= terms(c2, st2).insert(dim, 0).update(dim, x));
        lemma_sum_insert_zero(terms(c2, st2), dim);
        lemma_sum_update(terms(c2, st2).insert(dim, 0), dim, x);
        lemma_coord_index_sum(c, strides, offset);
        lemma_coord_index_sum(c2, st2, o2);
    }
}

/// Selecting a range of indices with a step keeps a layout in its buffer.
pub proof fn lemma_fits_range_slice(
    shape: Seq<usize>,
    strides: Seq<isize>,
    offset: int,
    len: int,
    dim: int,
    start: Option<usize>,
    stop: Option<usize>,
    step: isize,
)
    requires
        layout_fits(shape, strides, offset, len),
        0 <= dim < shape.len(),
        range_valid(shape[dim] as int, start, stop, step as int),
        isize::MIN <= (strides[dim] as int) * (step as int) <= isize::MAX,
        range_len(shape[dim] as int, start, stop, step as int) <= usize::MAX,
        len <= usize::MAX,
    ensures
        layout_fits(
            shape.update(dim, range_len(shape[dim] as int, start, stop, step as int) as usize),
            strides.update(dim, ((strides[dim] as int) * (step as int)) as isize),
            sliced_offset(
                offset,
                range_first(shape[dim] as int, start, step as int),
                strides[dim] as int,
                range_len(shape[dim] as int, start, stop, step as int),
            ),
            len,
        ),
{
    let n = shape[dim] as int;
    let rl = range_len(n, start, stop, step as int);
    let first = range_first(n, start, step as int);
    let sh2 = shape.update(dim, rl as usize);
    let st2 = strides.update(dim, ((strides[dim] as int) * (step as int)) as isize);
    let o2 = sliced_offset(offset, first, strides[dim] as int, rl);
    assert forall|c2: Seq<usize>| #[trigger] valid_coord(sh2, c2) implies 0 <= coord_index(
        c2,
        st2,
        o2,
    ) < len by {
        let j = c2[dim] as int;
        assert(j < rl);
        lemma_range_index(n, start, stop, step as int, j);
        let ci = (first + j * (step as int)) as usize;
        let c = c2.update(dim, ci);
        assert forall|k: int| 0 <= k < shape.len() implies c[k] < shape[k] by {
            if k != dim {
                assert(c2[k] < sh2[k]);
            }
        }
        assert(valid_coord(shape, c));
        assert(0 <= first < n) by {
            lemma_range_index(n, start, stop, step as int, 0);
        }
        lemma_axis_coord_valid(shape, c, dim, first as usize);
        lemma_axis_coord_index(strides, offset, dim, first as usize);
        assert(valid_coord(shape, axis_coord(shape.len(), dim, first as usize)));
        assert(o2 == offset + first * (strides[dim] as int));
        let s = strides[dim] as int;
        let y = j * (s * (step as int));
        let x = (ci as int) * s;
        assert(x == first * s + y) by (nonlinear_arith)
            requires
                ci == first + j * (step as int),
                x == (ci as int) * s,
                y == j * (s * (step as int)),
        ;
        assert(terms(c, strides) =~= terms(c2, st2).update(dim, x));
        lemma_sum_update(terms(c2, st2), dim, x);
        lemma_coord_index_sum(c, strides, offset);
        lemma_coord_index_sum(c2, st2, o2);
    }
}

/// With row-major strides, the dimensions `d..` of an in-range coordinate
/// address an index below the number of elements they span.
pub proof fn lemma_row_major_index(shape: Seq<usize>, strides: Seq<isize>, c: Seq<usize>, d: int)
    requires
        is_row_major(shape, strides),
        valid_from(shape, c, d),
        0 <= d <= shape.len(),
    ensures
        0 <= lin_from(c, strides, d) < size_from(shape, d),
    decreases shape.len() - d,
{
    if d < shape.len() {
        lemma_row_major_index(shape, strides, c, d + 1);
        let s = size_from(shape, d + 1) as int;
        let r = lin_from(c, strides, d + 1);
        let cd = c[d] as int;
        let nd = shape[d] as int;
        assert(strides[d] as int == s);
        assert(0 <= cd * s + r < nd * s) by (nonlinear_arith)
            requires
                0 <= r < s,
                0 <= cd < nd,
        ;
    }
}

/// A row-major layout at offset 0 fits a buffer holding all its elements.
pub proof fn lemma_row_major_fits(shape: Seq<usize>, strides: Seq<isize>, len: int)
    requires
        is_row_major(shape, strides),
        size_from(shape, 0) <= len,
    ensures
        layout_fits(shape, strides, 0, len),
{
    assert forall|c: Seq<usize>| #[trigger] valid_coord(shape, c) implies 0 <= coord_index(
        c,
        strides,
        0,
    ) < len by {
        lemma_row_major_index(shape, strides, c, 0);
    }
}

/// A valid range selects at most as many indices as the dimension has.
pub proof fn lemma_range_len_bound(n: int, start: Option<usize>, stop: Option<usize>, step: int)
    requires
        range_valid(n, start, stop, step),
        n >= 0,
    ensures
        0 <= range_len(n, start, stop, step) <= n,
{
    let first = range_first(n, start, step);
    if step > 0 {
        let end: int = match stop {
            Some(e) => e as int,
            None => n,
        };
        if end > first {
            assert(0 <= (end - first + step - 1) / step <= end - first) by (nonlinear_arith)
                requires
                    end > first,
                    step >= 1,
            ;
        }
    } else {
        let m = -step;
        match stop {
            Some(e) => {
                if first > e {
                    assert(0 <= (first - e + m - 1) / m <= first - e) by (nonlinear_arith)
                        requires
                            first > e,
                            m >= 1,
                    ;
                }
            },
            None => {
                if first >= 0 {
                    assert(0 <= first / m <= first) by (nonlinear_arith)
                        requires
                            first >= 0,
                            m >= 1,
                    ;
                }
            },
        }
    }
}

/// A row-major layout at `offset` fits a buffer that another row-major
/// layout of the same size at the same offset fits.
pub proof fn lemma_row_major_offset_fits(
    shape: Seq<usize>,
    strides: Seq<isize>,
    offset: int,
    shape0: Seq<usize>,
    strides0: Seq<isize>,
    len: int,
)
    requires
        is_row_major(shape, strides),
        is_row_major(shape0, strides0),
        size_from(shape, 0) == size_from(shape0, 0),
        layout_fits(shape0, strides0, offset, len),
        offset >= 0,
    ensures
        layout_fits(shape, strides, offset, len),
{
    assert forall|c: Seq<usize>| #[trigger] valid_coord(shape, c) implies 0 <= coord_index(
        c,
        strides,
        offset,
    ) < len by {
        lemma_row_major_index(shape, strides, c, 0);
        // the last element of the other layout lies at `offset + size - 1`
        let last = Seq::new(shape0.len(), |i: int| (shape0[i] - 1) as usize);
        assert forall|i: int| 0 <= i < shape0.len() implies shape0[i] >= 1 by {
            if shape0[i] == 0 {
                crate::layout::lemma_size_from_zero(shape0, 0, i);
                assert(c[0] < shape[0]);
                crate::layout::lemma_size_from_zero(shape0, 0, i);
                lemma_size_positive_of_coord(shape, c);
            }
        }
        assert(valid_coord(shape0, last));
        assert forall|i: int| 0 <= i < shape0.len() implies #[trigger] last[i] == shape0[i] - 1 by {
            assert(shape0[i] >= 1);
        }
        lemma_row_major_last(shape0, strides0, last, 0);
    }
}

/// A shape with an in-range coordinate spans at least one element.
pub proof fn lemma_size_positive_of_coord(shape: Seq<usize>, c: Seq<usize>)
    requires
        valid_coord(shape, c),
    ensures
        size_from(shape, 0) >= 1,
{
    assert forall|j: int| 0 <= j < shape.len() implies shape[j] > 0 by {
        assert(c[j] < shape[j]);
    }
    crate::layout::lemma_size_from_pos(shape, 0);
}

/// With row-major strides, the coordinate of the last element addresses
/// `size - 1`.
pub proof fn lemma_row_major_last(shape: Seq<usize>, strides: Seq<isize>, c: Seq<usize>, d: int)
    requires
        is_row_major(shape, strides),
        c.len() == shape.len(),
        forall|i: int| 0 <= i < shape.len() ==> #[trigger] shape[i] >= 1,
        forall|i: int| 0 <= i < shape.len() ==> #[trigger] c[i] == shape[i] - 1,
        0 <= d <= shape.len(),
    ensures
        lin_from(c, strides, d) == size_from(shape, d) - 1,
    decreases shape.len() - d,
{
    if d < shape.len() {
        lemma_row_major_last(shape, strides, c, d + 1);
        let s = size_from(shape, d + 1) as int;
        let nd = shape[d] as int;
        assert(strides[d] as int == s);
        assert((nd - 1) * s + (s - 1) == nd * s - 1) by (nonlinear_arith);
    }
}

} // verus!

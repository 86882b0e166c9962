//! Strided memory layouts: shapes, strides, offsets, and the order in which
//! the elements of a layout are visited.
use vstd::prelude::*;

verus! {

/// Number of elements spanned by the dimensions `d..` of `shape`.
pub open spec fn size_from(shape: Seq<usize>, d: int) -> nat
    decreases shape.len() - d,
{
    if d < 0 || d >= shape.len() {
        1
    } else {
        (shape[d] as nat) * size_from(shape, d + 1)
    }
}

/// Number of elements of a tensor with the given shape (1 for a scalar).
pub open spec fn shape_size(shape: Seq<usize>) -> nat {
    size_from(shape, 0)
}

/// Buffer positions visited by a layout, in row-major (last index fastest)
/// order, starting at dimension `d` with base offset `off`.
pub open spec fn positions(shape: Seq<usize>, strides: Seq<isize>, d: int, off: int) -> Seq<int>
    decreases shape.len() - d, 1int, 0int,
{
    if d < 0 || d >= shape.len() {
        seq![off]
    } else {
        block(shape, strides, d, off, shape[d] as int)
    }
}

/// Positions of the first `n` sub-layouts along dimension `d`.
pub open spec fn block(shape: Seq<usize>, strides: Seq<isize>, d: int, off: int, n: int) -> Seq<int>
    decreases shape.len() - d, 0int, n,
{
    if n <= 0 || d < 0 || d >= shape.len() {
        seq![]
    } else {
        block(shape, strides, d, off, n - 1) + positions(
            shape,
            strides,
            d + 1,
            off + (n - 1) * strides[d],
        )
    }
}

/// All buffer positions of the layout `(shape, strides, offset)`.
pub open spec fn layout_positions(shape: Seq<usize>, strides: Seq<isize>, offset: int) -> Seq<int> {
    positions(shape, strides, 0, offset)
}

/// `c` has one index per dimension and each index from dimension `d` on is
/// in range.
pub open spec fn valid_from(shape: Seq<usize>, c: Seq<usize>, d: int) -> bool {
    &&& c.len() == shape.len()
    &&& forall|i: int| d <= i < shape.len() ==> c[i] < shape[i]
}

/// `c` is an in-range coordinate of `shape`.
pub open spec fn valid_coord(shape: Seq<usize>, c: Seq<usize>) -> bool {
    valid_from(shape, c, 0)
}

/// `sum(c[i] * strides[i])` over the dimensions `d..`.
pub open spec fn lin_from(c: Seq<usize>, strides: Seq<isize>, d: int) -> int
    decreases c.len() - d,
{
    if d < 0 || d >= c.len() {
        0
    } else {
        (c[d] as int) * (strides[d] as int) + lin_from(c, strides, d + 1)
    }
}

/// Buffer index of the coordinate `c` in the layout `(strides, offset)`.
pub open spec fn coord_index(c: Seq<usize>, strides: Seq<isize>, offset: int) -> int {
    offset + lin_from(c, strides, 0)
}

/// A layout addresses only positions inside a buffer of length `len`: every
/// in-range coordinate maps to an index in `0..len`.
pub open spec fn layout_fits(shape: Seq<usize>, strides: Seq<isize>, offset: int, len: int) -> bool {
    &&& shape.len() == strides.len()
    &&& forall|c: Seq<usize>|
        #[trigger] valid_coord(shape, c) ==> 0 <= coord_index(c, strides, offset) < len
}

/// Every dimension from `d` on has at least one index.
pub open spec fn nonempty_from(shape: Seq<usize>, d: int) -> bool {
    forall|j: int| d <= j < shape.len() ==> shape[j] > 0
}

/// The elements of `buf` visited by a layout, in row-major order.
pub open spec fn gather<T>(buf: Seq<T>, ps: Seq<int>) -> Seq<T> {
    Seq::new(ps.len(), |k: int| buf[ps[k]])
}

/// Index `0 ..` of a coordinate into a buffer: `offset + sum(c[i] * strides[i])`
/// over the first `k` entries.
pub open spec fn lin_prefix(c: Seq<usize>, strides: Seq<isize>, offset: int, k: int) -> int
    decreases k,
{
    if k <= 0 {
        offset
    } else {
        lin_prefix(c, strides, offset, k - 1) + (c[k - 1] as int) * (strides[k - 1] as int)
    }
}

/// Linear buffer index of the coordinate `c`.
pub open spec fn lin(c: Seq<usize>, strides: Seq<isize>, offset: int) -> int {
    lin_prefix(c, strides, offset, c.len() as int)
}

/// Each partial sum of the buffer-index computation, and each coordinate,
/// fits in an `isize`.
pub open spec fn lin_fits(c: Seq<usize>, strides: Seq<isize>, offset: int) -> bool {
    &&& forall|i: int| 0 <= i < c.len() ==> c[i] <= isize::MAX
    &&& forall|i: int|
        0 <= i < c.len() ==> isize::MIN <= #[trigger] ((c[i] as int) * (strides[i] as int))
            <= isize::MAX
    &&& forall|k: int|
        0 <= k <= c.len() ==> isize::MIN <= #[trigger] lin_prefix(c, strides, offset, k)
            <= isize::MAX
    &&& offset <= isize::MAX
}

// ---------------------------------------------------------------------------
// Lemmas about sizes and position sequences
// ---------------------------------------------------------------------------

pub proof fn lemma_size_from_pos(shape: Seq<usize>, d: int)
    requires
        nonempty_from(shape, d),
    ensures
        size_from(shape, d) >= 1,
    decreases shape.len() - d,
{
    if 0 <= d < shape.len() {
        lemma_size_from_pos(shape, d + 1);
        assert((shape[d] as nat) * size_from(shape, d + 1) >= 1) by (nonlinear_arith)
            requires
                shape[d] >= 1,
                size_from(shape, d + 1) >= 1,
        ;
    } else if d < 0 {
        lemma_size_from_pos(shape, 0);
    }
}

pub proof fn lemma_positions_len(shape: Seq<usize>, strides: Seq<isize>, d: int, off: int)
    requires
        0 <= d,
    ensures
        positions(shape, strides, d, off).len() == size_from(shape, d),
    decreases shape.len() - d, 1int,
{
    if d < shape.len() {
        lemma_block_len(shape, strides, d, off, shape[d] as int);
    }
}

pub proof fn lemma_block_len(shape: Seq<usize>, strides: Seq<isize>, d: int, off: int, n: int)
    requires
        0 <= d < shape.len(),
        0 <= n,
    ensures
        block(shape, strides, d, off, n).len() == n * size_from(shape, d + 1),
    decreases shape.len() - d, 0int, n,
{
    if n > 0 {
        lemma_block_len(shape, strides, d, off, n - 1);
        lemma_positions_len(shape, strides, d + 1, off + (n - 1) * strides[d]);
        assert(block(shape, strides, d, off, n) == block(shape, strides, d, off, n - 1) + positions(
            shape,
            strides,
            d + 1,
            off + (n - 1) * strides[d],
        ));
        assert((n - 1) * size_from(shape, d + 1) + size_from(shape, d + 1) == n * size_from(
            shape,
            d + 1,
        )) by (nonlinear_arith);
    } else {
        assert(n * size_from(shape, d + 1) == 0) by (nonlinear_arith)
            requires
                n == 0,
        ;
    }
}

/// A shorter block is a prefix of a longer one.
pub proof fn lemma_block_prefix(
    shape: Seq<usize>,
    strides: Seq<isize>,
    d: int,
    off: int,
    m: int,
    n: int,
)
    requires
        0 <= d < shape.len(),
        0 <= m <= n,
    ensures
        block(shape, strides, d, off, m).len() <= block(shape, strides, d, off, n).len(),
        forall|k: int|
            0 <= k < block(shape, strides, d, off, m).len() ==> block(shape, strides, d, off, m)[k]
                == block(shape, strides, d, off, n)[k],
    decreases n - m,
{
    if m < n {
        lemma_block_prefix(shape, strides, d, off, m, n - 1);
    }
}

/// With no empty dimension, a layout starts at its base offset.
pub proof fn lemma_positions_first(shape: Seq<usize>, strides: Seq<isize>, d: int, off: int)
    requires
        0 <= d,
        nonempty_from(shape, d),
    ensures
        positions(shape, strides, d, off).len() >= 1,
        positions(shape, strides, d, off)[0] == off,
    decreases shape.len() - d, 1int,
{
    if d < shape.len() {
        lemma_block_first(shape, strides, d, off, shape[d] as int);
    }
}

pub proof fn lemma_block_first(shape: Seq<usize>, strides: Seq<isize>, d: int, off: int, n: int)
    requires
        0 <= d < shape.len(),
        1 <= n,
        nonempty_from(shape, d + 1),
    ensures
        block(shape, strides, d, off, n).len() >= 1,
        block(shape, strides, d, off, n)[0] == off,
    decreases shape.len() - d, 0int, n,
{
    if n == 1 {
        lemma_positions_first(shape, strides, d + 1, off);
        assert((n - 1) * strides[d] == 0) by (nonlinear_arith)
            requires
                n == 1,
        ;
        assert(block(shape, strides, d, off, 0) =~= seq![]);
        assert(block(shape, strides, d, off, 1) =~= positions(shape, strides, d + 1, off));
    } else {
        lemma_block_first(shape, strides, d, off, n - 1);
    }
}

/// Row-major strides with offset `off` visit `off, off + 1, ...` in order.
pub proof fn lemma_row_major_positions(shape: Seq<usize>, strides: Seq<isize>, d: int, off: int)
    requires
        0 <= d,
        strides.len() == shape.len(),
        forall|i: int| d <= i < shape.len() ==> strides[i] as int == size_from(shape, i + 1),
    ensures
        positions(shape, strides, d, off) =~= Seq::new(size_from(shape, d), |k: int| off + k),
    decreases shape.len() - d, 1int,
{
    if d < shape.len() {
        lemma_row_major_block(shape, strides, d, off, shape[d] as int);
    }
}

pub proof fn lemma_row_major_block(
    shape: Seq<usize>,
    strides: Seq<isize>,
    d: int,
    off: int,
    n: int,
)
    requires
        0 <= d < shape.len(),
        0 <= n,
        strides.len() == shape.len(),
        forall|i: int| d <= i < shape.len() ==> strides[i] as int == size_from(shape, i + 1),
    ensures
        block(shape, strides, d, off, n) =~= Seq::new(
            (n * size_from(shape, d + 1)) as nat,
            |k: int| off + k,
        ),
    decreases shape.len() - d, 0int, n,
{
    let s = size_from(shape, d + 1) as int;
    assert(n * s >= 0) by (nonlinear_arith)
        requires
            n >= 0,
            s >= 0,
    ;
    if n > 0 {
        lemma_row_major_block(shape, strides, d, off, n - 1);
        let base = off + (n - 1) * strides[d];
        lemma_row_major_positions(shape, strides, d + 1, base);
        assert((n - 1) * s + s == n * s) by (nonlinear_arith);
        assert((n - 1) * s >= 0) by (nonlinear_arith)
            requires
                n >= 1,
                s >= 0,
        ;
        assert(strides[d] as int == s);
        assert((n - 1) * strides[d] == (n - 1) * s);
    } else {
        assert(n * s == 0) by (nonlinear_arith)
            requires
                n == 0,
        ;
    }
}

/// `lin_from` only reads the coordinates from dimension `d` on.
pub proof fn lemma_lin_from_agree(c1: Seq<usize>, c2: Seq<usize>, strides: Seq<isize>, d: int)
    requires
        c1.len() == c2.len(),
        0 <= d,
        forall|i: int| d <= i < c1.len() ==> c1[i] == c2[i],
    ensures
        lin_from(c1, strides, d) == lin_from(c2, strides, d),
    decreases c1.len() - d,
{
    if d < c1.len() {
        lemma_lin_from_agree(c1, c2, strides, d + 1);
    }
}

/// `x` is `off` plus the linear index of some coordinate that is in range
/// from dimension `d` on.
pub open spec fn reachable(shape: Seq<usize>, strides: Seq<isize>, d: int, off: int, x: int) -> bool {
    exists|c: Seq<usize>| #[trigger] valid_from(shape, c, d) && x == off + lin_from(c, strides, d)
}

/// Every position visited from dimension `d` is the index of a coordinate
/// that is in range from dimension `d` on.
pub proof fn lemma_positions_coords(shape: Seq<usize>, strides: Seq<isize>, d: int, off: int)
    requires
        0 <= d <= shape.len(),
    ensures
        forall|k: int|
            0 <= k < positions(shape, strides, d, off).len() ==> reachable(
                shape,
                strides,
                d,
                off,
                #[trigger] positions(shape, strides, d, off)[k],
            ),
    decreases shape.len() - d, 1int,
{
    if d == shape.len() {
        let c = Seq::new(shape.len(), |i: int| 0usize);
        assert(valid_from(shape, c, d));
        assert(positions(shape, strides, d, off)[0] == off + lin_from(c, strides, d));
    } else {
        lemma_block_coords(shape, strides, d, off, shape[d] as int);
        assert(positions(shape, strides, d, off) == block(shape, strides, d, off, shape[d] as int));
    }
}

pub proof fn lemma_block_coords(shape: Seq<usize>, strides: Seq<isize>, d: int, off: int, n: int)
    requires
        0 <= d < shape.len(),
        0 <= n <= shape[d],
    ensures
        forall|k: int|
            0 <= k < block(shape, strides, d, off, n).len() ==> reachable(
                shape,
                strides,
                d,
                off,
                #[trigger] block(shape, strides, d, off, n)[k],
            ),
    decreases shape.len() - d, 0int, n,
{
    if n > 0 {
        let pre = block(shape, strides, d, off, n - 1);
        let base = off + (n - 1) * strides[d];
        let sub = positions(shape, strides, d + 1, base);
        lemma_block_coords(shape, strides, d, off, n - 1);
        lemma_positions_coords(shape, strides, d + 1, base);
        assert(block(shape, strides, d, off, n) == pre + sub);
        assert forall|k: int| 0 <= k < block(shape, strides, d, off, n).len() implies reachable(
            shape,
            strides,
            d,
            off,
            #[trigger] block(shape, strides, d, off, n)[k],
        ) by {
            if k < pre.len() {
                assert(block(shape, strides, d, off, n)[k] == pre[k]);
                assert(reachable(shape, strides, d, off, pre[k]));
            } else {
                let kk = k - pre.len();
                assert(block(shape, strides, d, off, n)[k] == sub[kk]);
                assert(reachable(shape, strides, d + 1, base, sub[kk]));
                let c1 = choose|c1: Seq<usize>|
                    #[trigger] valid_from(shape, c1, d + 1) && sub[kk] == base + lin_from(
                        c1,
                        strides,
                        d + 1,
                    );
                let c = c1.update(d, (n - 1) as usize);
                lemma_lin_from_agree(c, c1, strides, d + 1);
                assert(valid_from(shape, c, d));
                assert(lin_from(c, strides, d) == (n - 1) * strides[d] + lin_from(c1, strides, d + 1));
                assert(block(shape, strides, d, off, n)[k] == off + lin_from(c, strides, d));
            }
        }
    }
}

/// A fitting layout visits only positions inside the buffer.
pub proof fn lemma_fits_positions(shape: Seq<usize>, strides: Seq<isize>, offset: int, len: int)
    requires
        layout_fits(shape, strides, offset, len),
    ensures
        forall|k: int|
            0 <= k < layout_positions(shape, strides, offset).len() ==> 0 <= #[trigger] layout_positions(
                shape,
                strides,
                offset,
            )[k] < len,
{
    lemma_positions_coords(shape, strides, 0, offset);
    assert forall|k: int|
        0 <= k < layout_positions(shape, strides, offset).len() implies 0 <= #[trigger] layout_positions(
            shape,
            strides,
            offset,
        )[k] < len by {
        assert(reachable(shape, strides, 0, offset, positions(shape, strides, 0, offset)[k]));
        let c = choose|c: Seq<usize>|
            #[trigger] valid_from(shape, c, 0) && positions(shape, strides, 0, offset)[k] == offset
                + lin_from(c, strides, 0);
        assert(valid_coord(shape, c));
    }
}

// ---------------------------------------------------------------------------
// Executable enumeration of a layout
// ---------------------------------------------------------------------------

/// Whether every dimension from `d` on is non-empty.
pub fn all_nonempty_from(shape: &Vec<usize>, d: usize) -> (b: bool)
    ensures
        b == nonempty_from(shape@, d as int),
{
    let mut j = d;
    while j < shape.len()
        invariant
            d <= j || j >= shape.len(),
            forall|x: int| d <= x < j && x < shape.len() ==> shape@[x] > 0,
        decreases shape.len() - j,
    {
        if shape[j] == 0 {
            return false;
        }
        j = j + 1;
    }
    true
}

/// Appends to `out` the positions of the sub-layout starting at dimension `d`.
fn push_positions(
    shape: &Vec<usize>,
    strides: &Vec<isize>,
    d: usize,
    off: usize,
    len: usize,
    out: &mut Vec<usize>,
)
    requires
        d <= shape.len(),
        shape.len() == strides.len(),
        nonempty_from(shape@, d as int),
        forall|k: int|
            0 <= k < positions(shape@, strides@, d as int, off as int).len() ==> 0 <= #[trigger] positions(
                shape@,
                strides@,
                d as int,
                off as int,
            )[k] < len,
    ensures
        final(out)@.len() == old(out)@.len() + positions(shape@, strides@, d as int, off as int).len(),
        forall|k: int| 0 <= k < old(out)@.len() ==> final(out)@[k] == old(out)@[k],
        forall|k: int|
            0 <= k < positions(shape@, strides@, d as int, off as int).len() ==> final(out)@[old(
                out,
            )@.len() + k] as int == positions(shape@, strides@, d as int, off as int)[k],
    decreases shape.len() - d,
{
    if d == shape.len() {
        out.push(off);
        return;
    }
    let ghost sh = shape@;
    let ghost st = strides@;
    let ghost start = old(out)@.len();
    let n = shape[d];
    let stride = strides[d];
    let mut i: usize = 0;
    while i < n
        invariant
            sh == shape@,
            st == strides@,
            d < shape.len(),
            shape.len() == strides.len(),
            n == shape@[d as int],
            stride == strides@[d as int],
            i <= n,
            nonempty_from(sh, d as int),
            start == old(out)@.len(),
            forall|k: int|
                0 <= k < positions(sh, st, d as int, off as int).len() ==> 0 <= #[trigger] positions(
                    sh,
                    st,
                    d as int,
                    off as int,
                )[k] < len,
            out@.len() == start + block(sh, st, d as int, off as int, i as int).len(),
            forall|k: int| 0 <= k < start ==> out@[k] == old(out)@[k],
            forall|k: int|
                0 <= k < block(sh, st, d as int, off as int, i as int).len() ==> out@[start + k] as int
                    == block(sh, st, d as int, off as int, i as int)[k],
        decreases n - i,
    {
        let ghost base: int = off + (i as int) * (stride as int);
        let ghost full = positions(sh, st, d as int, off as int);
        let ghost pre = block(sh, st, d as int, off as int, i as int);
        let ghost nxt = block(sh, st, d as int, off as int, i as int + 1);
        let ghost sub = positions(sh, st, d as int + 1, base);
        proof {
            lemma_block_prefix(sh, st, d as int, off as int, i as int + 1, n as int);
            lemma_positions_first(sh, st, d as int + 1, base);
            assert(nxt == pre + sub);
            assert(nxt[pre.len() as int] == base);
            assert(full == block(sh, st, d as int, off as int, n as int));
            assert(0 <= full[pre.len() as int] < len);
            assert forall|k: int| 0 <= k < sub.len() implies 0 <= #[trigger] sub[k] < len by {
                assert(nxt[pre.len() + k] == sub[k]);
                assert(full[pre.len() + k] == sub[k]);
            }
        }
        let prod: i128 = (i as i128) * (stride as i128);
        let b: i128 = (off as i128) + prod;
        let nb: usize = b as usize;
        let ghost mid = out@;
        push_positions(shape, strides, d + 1, nb, len, out);
        proof {
            assert forall|k: int| 0 <= k < nxt.len() implies out@[start + k] as int == #[trigger] nxt[k] by {
                if k < pre.len() {
                    assert(out@[start + k] == mid[start + k]);
                } else {
                    assert(nxt[k] == sub[k - pre.len()]);
                }
            }
        }
        i = i + 1;
    }
}

/// The buffer positions of a layout, in row-major order.
pub fn collect_positions(shape: &Vec<usize>, strides: &Vec<isize>, offset: usize, len: usize) -> (out: Vec<usize>)
    requires
        layout_fits(shape@, strides@, offset as int, len as int),
    ensures
        out@.len() == layout_positions(shape@, strides@, offset as int).len(),
        forall|k: int|
            0 <= k < out@.len() ==> out@[k] as int == layout_positions(shape@, strides@, offset as int)[k],
{
    let mut out: Vec<usize> = Vec::new();
    if !all_nonempty_from(shape, 0) {
        proof {
            let j = choose|j: int| 0 <= j < shape@.len() && shape@[j] == 0;
            lemma_size_from_zero(shape@, 0, j);
            lemma_positions_len(shape@, strides@, 0, offset as int);
        }
        return out;
    }
    proof {
        lemma_fits_positions(shape@, strides@, offset as int, len as int);
    }
    assert forall|k: int|
        0 <= k < positions(shape@, strides@, 0, offset as int).len() implies 0 <= #[trigger] positions(
            shape@,
            strides@,
            0,
            offset as int,
        )[k] < len by {
        assert(layout_positions(shape@, strides@, offset as int)[k] == positions(
            shape@,
            strides@,
            0,
            offset as int,
        )[k]);
    }
    push_positions(shape, strides, 0, offset, len, &mut out);
    out
}

/// An empty dimension makes the whole layout empty.
pub proof fn lemma_size_from_zero(shape: Seq<usize>, d: int, j: int)
    requires
        0 <= d <= j < shape.len(),
        shape[j] == 0,
    ensures
        size_from(shape, d) == 0,
    decreases j - d,
{
    if d < j {
        lemma_size_from_zero(shape, d + 1, j);
        assert((shape[d] as nat) * 0 == 0) by (nonlinear_arith);
    }
}

} // verus!

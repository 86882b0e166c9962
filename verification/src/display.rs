//! Text rendering of tensors in the style `tensor([[1, 2], [3, 4]], dtype=i32,
//! device=cpu)`: long rows and long dimensions are shortened to their first
//! and last five entries, and at most ten rows are shown.
use vstd::prelude::*;
use crate::grad::push_str;
use crate::layout::{coord_index, layout_fits, lin_from, size_from, valid_coord};
use crate::meta::MetaTensor;
use crate::tensor::{TensorBase, TensorView, TensorViewMut};

verus! {

broadcast use crate::tensor::group_tensor_parts;

/// Rows and row entries shown in full up to this count.
pub const MAX_DISPLAY_SIZE: usize = 10;

/// `n` spaces.
pub open spec fn spaces(n: nat) -> Seq<char> {
    Seq::new(n, |i: int| ' ')
}

/// The texts of entries `a..b` of a row whose entry `i` is at buffer index
/// `off + i * st`; each entry is preceded by `", "`, except entry 0 unless
/// `lead`.
pub open spec fn joined(texts: Seq<Seq<char>>, off: int, st: int, a: int, b: int, lead: bool) -> Seq<char>
    decreases b - a,
{
    if b <= a {
        seq![]
    } else {
        joined(texts, off, st, a, b - 1, lead) + (if lead || b - 1 > 0 {
            ", "@
        } else {
            seq![]
        }) + texts[off + (b - 1) * st]
    }
}

/// A row of `n` entries: all of them up to ten, else the first five, `...`
/// and the last five.
pub open spec fn row_text(texts: Seq<Seq<char>>, n: int, off: int, st: int) -> Seq<char> {
    "["@ + (if n <= 10 {
        joined(texts, off, st, 0, n, false)
    } else {
        joined(texts, off, st, 0, 5, false) + ", ..."@ + joined(texts, off, st, n - 5, n, true)
    }) + "]"@
}

/// Number of rows of the dimensions `d..` of `sh`: the product of all of
/// them but the last (none for a scalar).
pub open spec fn rows_of(sh: Seq<usize>, d: int) -> nat {
    if d >= sh.len() {
        0
    } else {
        size_from(sh.drop_last(), d)
    }
}

/// Some row to show lies in `a..b`.
pub open spec fn any_row(rows: Seq<usize>, a: int, b: int) -> bool {
    exists|k: int| 0 <= k < rows.len() && a <= #[trigger] rows[k] < b
}

/// Entry `i` of a dimension of length `n` is left out (shown as `...`).
pub open spec fn elided(n: int, i: int) -> bool {
    n > 10 && 5 <= i < n - 5
}

/// Sub-tensor `i` of dimension `d` takes part in the output: it is left out
/// (and stands behind the `...`) or holds a row to show.
pub open spec fn sub_visible(sh: Seq<usize>, d: int, rows: Seq<usize>, start: int, i: int) -> bool {
    elided(sh[d] as int, i) || any_row(rows, start + i * rows_of(sh, d + 1), start + (i + 1) * rows_of(sh, d + 1))
}

/// Some sub-tensor before `i` took part in the output.
pub open spec fn printed_before(sh: Seq<usize>, d: int, rows: Seq<usize>, start: int, i: int) -> bool {
    exists|j: int| 0 <= j < i && #[trigger] sub_visible(sh, d, rows, start, j)
}

/// The text of the dimensions `d..` of a layout at offset `off`, whose first
/// row is row `start`; `indent` is the column of its opening bracket.
pub open spec fn render(
    texts: Seq<Seq<char>>,
    sh: Seq<usize>,
    st: Seq<isize>,
    d: int,
    off: int,
    indent: nat,
    rows: Seq<usize>,
    start: int,
) -> Seq<char>
    decreases sh.len() - d, 1int, 0int,
{
    if d < 0 || d >= sh.len() {
        texts[off]
    } else if d == sh.len() - 1 {
        if any_row(rows, start, start + 1) {
            row_text(texts, sh[d] as int, off, st[d] as int)
        } else {
            seq![]
        }
    } else {
        "["@ + render_items(texts, sh, st, d, off, indent, rows, start, sh[d] as int) + "]"@
    }
}

/// The text of the first `n` sub-tensors of dimension `d`.
pub open spec fn render_items(
    texts: Seq<Seq<char>>,
    sh: Seq<usize>,
    st: Seq<isize>,
    d: int,
    off: int,
    indent: nat,
    rows: Seq<usize>,
    start: int,
    n: int,
) -> Seq<char>
    decreases sh.len() - d, 0int, n,
{
    if n <= 0 || d < 0 || d >= sh.len() - 1 {
        seq![]
    } else {
        let i = n - 1;
        let rps = rows_of(sh, d + 1);
        let s = start + i * rps;
        let piece = if elided(sh[d] as int, i) {
            if i == 5 {
                (if printed_before(sh, d, rows, start, i) {
                    ",\n"@ + spaces(indent + 1)
                } else {
                    seq![]
                }) + "..."@
            } else {
                seq![]
            }
        } else if !any_row(rows, s, s + rps) {
            seq![]
        } else {
            (if printed_before(sh, d, rows, start, i) {
                ",\n"@ + spaces(indent + 1) + (if sh.len() - d >= 3 {
                    "\n"@ + spaces(indent + 1)
                } else {
                    seq![]
                })
            } else {
                seq![]
            }) + render(texts, sh, st, d + 1, off + i * st[d], (indent + 1) as nat, rows, s)
        };
        render_items(texts, sh, st, d, off, indent, rows, start, n - 1) + piece
    }
}

/// Number of rows of a shape as counted for choosing the rows to show: the
/// product of all dimensions but the last, and 1 for ranks 0 and 1.
pub open spec fn total_rows(shape: Seq<usize>) -> nat {
    if shape.len() <= 1 {
        1
    } else {
        size_from(shape.drop_last(), 0)
    }
}

/// The rows shown: all of them up to ten, else the first five and the last five.
pub open spec fn shown_rows(total: nat) -> Seq<usize> {
    if total <= 10 {
        Seq::new(total, |i: int| i as usize)
    } else {
        Seq::new(5, |i: int| i as usize) + Seq::new(5, |i: int| (total - 5 + i) as usize)
    }
}

/// The whole text of a tensor whose entries have the given texts.
pub open spec fn tensor_text(
    texts: Seq<Seq<char>>,
    shape: Seq<usize>,
    strides: Seq<isize>,
    offset: int,
    dtype: Seq<char>,
) -> Seq<char> {
    "tensor("@ + render(texts, shape, strides, 0, offset, 6, shown_rows(total_rows(shape)), 0) + ", dtype="@
        + dtype + ", device=cpu)"@
}

/// Two layouts of the shape `sh` read the same text at every coordinate of
/// the dimensions `d..`.
pub open spec fn same_reads(
    t1: Seq<Seq<char>>,
    st1: Seq<isize>,
    off1: int,
    t2: Seq<Seq<char>>,
    st2: Seq<isize>,
    off2: int,
    sh: Seq<usize>,
    d: int,
) -> bool {
    forall|c: Seq<usize>|
        #[trigger] crate::layout::valid_from(sh, c, d) ==> t1[off1 + lin_from(c, st1, d)] == t2[off2 + lin_from(c, st2, d)]
}

/// The text of entry `j` of a row starting at `off` with stride `s`.
spec fn row_entry(t: Seq<Seq<char>>, off: int, s: int, j: int) -> Seq<char> {
    t[off + j * s]
}

proof fn lemma_joined_same(t1: Seq<Seq<char>>, off1: int, s1: int, t2: Seq<Seq<char>>, off2: int, s2: int, a: int, b: int, lead: bool)
    requires
        forall|j: int| a <= j < b ==> #[trigger] row_entry(t1, off1, s1, j) == row_entry(t2, off2, s2, j),
    ensures
        joined(t1, off1, s1, a, b, lead) == joined(t2, off2, s2, a, b, lead),
    decreases b - a,
{
    if b > a {
        lemma_joined_same(t1, off1, s1, t2, off2, s2, a, b - 1, lead);
        assert(row_entry(t1, off1, s1, b - 1) == row_entry(t2, off2, s2, b - 1));
    }
}

proof fn lemma_render_same(
    t1: Seq<Seq<char>>,
    st1: Seq<isize>,
    off1: int,
    t2: Seq<Seq<char>>,
    st2: Seq<isize>,
    off2: int,
    sh: Seq<usize>,
    d: int,
    indent: nat,
    rows: Seq<usize>,
    start: int,
)
    requires
        0 <= d,
        st1.len() == sh.len(),
        st2.len() == sh.len(),
        same_reads(t1, st1, off1, t2, st2, off2, sh, d),
    ensures
        render(t1, sh, st1, d, off1, indent, rows, start) == render(t2, sh, st2, d, off2, indent, rows, start),
    decreases sh.len() - d, 1int, 0int,
{
    if d >= sh.len() {
        let c = Seq::new(sh.len(), |k: int| 0usize);
        assert(crate::layout::valid_from(sh, c, d));
    } else if d == sh.len() - 1 {
        assert forall|j: int| 0 <= j < sh[d] implies #[trigger] row_entry(t1, off1, st1[d] as int, j) == row_entry(t2, off2, st2[d] as int, j) by {
            let c = point(sh.len(), d, j);
            assert(crate::layout::valid_from(sh, c, d));
            lemma_lin_point(st1, sh.len(), d, j, d + 1);
            lemma_lin_point(st2, sh.len(), d, j, d + 1);
            assert(lin_from(c, st1, d) == (j as int) * (st1[d] as int) + lin_from(c, st1, d + 1));
            assert(lin_from(c, st2, d) == (j as int) * (st2[d] as int) + lin_from(c, st2, d + 1));
        }
        let n = sh[d] as int;
        if n <= 10 {
            lemma_joined_same(t1, off1, st1[d] as int, t2, off2, st2[d] as int, 0, n, false);
        } else {
            lemma_joined_same(t1, off1, st1[d] as int, t2, off2, st2[d] as int, 0, 5, false);
            lemma_joined_same(t1, off1, st1[d] as int, t2, off2, st2[d] as int, n - 5, n, true);
        }
    } else {
        lemma_render_items_same(t1, st1, off1, t2, st2, off2, sh, d, indent, rows, start, sh[d] as int);
    }
}

proof fn lemma_render_items_same(
    t1: Seq<Seq<char>>,
    st1: Seq<isize>,
    off1: int,
    t2: Seq<Seq<char>>,
    st2: Seq<isize>,
    off2: int,
    sh: Seq<usize>,
    d: int,
    indent: nat,
    rows: Seq<usize>,
    start: int,
    n: int,
)
    requires
        0 <= d < sh.len() - 1,
        n <= sh[d],
        st1.len() == sh.len(),
        st2.len() == sh.len(),
        same_reads(t1, st1, off1, t2, st2, off2, sh, d),
    ensures
        render_items(t1, sh, st1, d, off1, indent, rows, start, n) == render_items(t2, sh, st2, d, off2, indent, rows, start, n),
    decreases sh.len() - d, 0int, n,
{
    if n > 0 {
        lemma_render_items_same(t1, st1, off1, t2, st2, off2, sh, d, indent, rows, start, n - 1);
        let i = n - 1;
        let o1 = off1 + i * st1[d];
        let o2 = off2 + i * st2[d];
        assert forall|c: Seq<usize>| #[trigger] crate::layout::valid_from(sh, c, d + 1) implies t1[o1 + lin_from(c, st1, d + 1)]
            == t2[o2 + lin_from(c, st2, d + 1)] by {
            let c2 = c.update(d, i as usize);
            assert(crate::layout::valid_from(sh, c2, d));
            crate::layout::lemma_lin_from_agree(c2, c, st1, d + 1);
            crate::layout::lemma_lin_from_agree(c2, c, st2, d + 1);
            assert(lin_from(c2, st1, d) == (i as int) * (st1[d] as int) + lin_from(c2, st1, d + 1));
            assert(lin_from(c2, st2, d) == (i as int) * (st2[d] as int) + lin_from(c2, st2, d + 1));
        }
        let rps = rows_of(sh, d + 1);
        let s = start + i * rps;
        lemma_render_same(t1, st1, o1, t2, st2, o2, sh, d + 1, (indent + 1) as nat, rows, s);
    }
}

/// The recursive rendering depends on the elements only: for any first row,
/// indentation and shown rows, two layouts of one shape that read the same
/// entry text at every coordinate render the same text.
pub proof fn law_render_layout_independent(
    t1: Seq<Seq<char>>,
    st1: Seq<isize>,
    off1: int,
    t2: Seq<Seq<char>>,
    st2: Seq<isize>,
    off2: int,
    sh: Seq<usize>,
    indent: nat,
    rows: Seq<usize>,
    start: int,
)
    requires
        st1.len() == sh.len(),
        st2.len() == sh.len(),
        forall|c: Seq<usize>| #[trigger] valid_coord(sh, c) ==> t1[coord_index(c, st1, off1)] == t2[coord_index(c, st2, off2)],
    ensures
        render(t1, sh, st1, 0, off1, indent, rows, start) == render(t2, sh, st2, 0, off2, indent, rows, start),
{
    assert forall|c: Seq<usize>| #[trigger] crate::layout::valid_from(sh, c, 0) implies t1[off1 + lin_from(c, st1, 0)]
        == t2[off2 + lin_from(c, st2, 0)] by {
        assert(valid_coord(sh, c));
    }
    lemma_render_same(t1, st1, off1, t2, st2, off2, sh, 0, indent, rows, start);
}

/// Printing depends on the elements only, not on where the layout keeps
/// them: two layouts of one shape that read the same entry text at every
/// coordinate print the same text.
pub proof fn law_text_layout_independent(
    t1: Seq<Seq<char>>,
    st1: Seq<isize>,
    off1: int,
    t2: Seq<Seq<char>>,
    st2: Seq<isize>,
    off2: int,
    sh: Seq<usize>,
    dtype: Seq<char>,
)
    requires
        st1.len() == sh.len(),
        st2.len() == sh.len(),
        forall|c: Seq<usize>| #[trigger] valid_coord(sh, c) ==> t1[coord_index(c, st1, off1)] == t2[coord_index(c, st2, off2)],
    ensures
        tensor_text(t1, sh, st1, off1, dtype) == tensor_text(t2, sh, st2, off2, dtype),
{
    assert forall|c: Seq<usize>| #[trigger] crate::layout::valid_from(sh, c, 0) implies t1[off1 + lin_from(c, st1, 0)]
        == t2[off2 + lin_from(c, st2, 0)] by {
        assert(valid_coord(sh, c));
    }
    lemma_render_same(t1, st1, off1, t2, st2, off2, sh, 0, 6, shown_rows(total_rows(sh)), 0);
}

/// Every coordinate of the dimensions `d..` maps inside a buffer of length `len`.
pub open spec fn fits_from(sh: Seq<usize>, st: Seq<isize>, d: int, off: int, len: int) -> bool {
    &&& sh.len() == st.len()
    &&& forall|c: Seq<usize>| #[trigger] crate::layout::valid_from(sh, c, d) ==> 0 <= off + lin_from(c, st, d) < len
}

/// A whole fitting layout fits from dimension 0.
proof fn lemma_fits_from_top(sh: Seq<usize>, st: Seq<isize>, off: int, len: int)
    requires
        layout_fits(sh, st, off, len),
    ensures
        fits_from(sh, st, 0, off, len),
{
    assert forall|c: Seq<usize>| #[trigger] crate::layout::valid_from(sh, c, 0) implies 0 <= off + lin_from(c, st, 0) < len by {
        assert(valid_coord(sh, c));
        assert(coord_index(c, st, off) == off + lin_from(c, st, 0));
    }
}

/// Fixing the index of dimension `d` to `i` leaves a fitting layout of the
/// later dimensions.
proof fn lemma_fits_from_step(sh: Seq<usize>, st: Seq<isize>, d: int, off: int, len: int, i: int)
    requires
        fits_from(sh, st, d, off, len),
        0 <= d < sh.len(),
        0 <= i < sh[d],
    ensures
        fits_from(sh, st, d + 1, off + i * st[d], len),
{
    assert forall|c: Seq<usize>| #[trigger] crate::layout::valid_from(sh, c, d + 1) implies 0 <= off + i * st[d]
        + lin_from(c, st, d + 1) < len by {
        let c2 = c.update(d, i as usize);
        assert(crate::layout::valid_from(sh, c2, d));
        crate::layout::lemma_lin_from_agree(c2, c, st, d + 1);
        assert(lin_from(c2, st, d) == (i as int) * (st[d] as int) + lin_from(c2, st, d + 1));
    }
}

/// The all-zero coordinate with index `i` in dimension `d`.
pub open spec fn point(n: nat, d: int, i: int) -> Seq<usize> {
    Seq::new(n, |k: int| if k == d { i as usize } else { 0usize })
}

proof fn lemma_lin_point(st: Seq<isize>, n: nat, d: int, i: int, k: int)
    requires
        0 <= d < n,
        n == st.len(),
        0 <= i,
        d < k <= n,
    ensures
        lin_from(point(n, d, i), st, k) == 0,
    decreases n - k,
{
    if k < n {
        lemma_lin_point(st, n, d, i, k + 1);
        assert((point(n, d, i)[k] as int) * (st[k] as int) == 0);
    }
}

/// Where entry `i` of dimension `d` lies when all later dimensions are
/// non-empty (index 0 in each of them).
proof fn lemma_fits_from_entry(sh: Seq<usize>, st: Seq<isize>, d: int, off: int, len: int, i: int)
    requires
        fits_from(sh, st, d, off, len),
        0 <= d < sh.len(),
        0 <= i < sh[d],
        forall|k: int| d < k < sh.len() ==> sh[k] > 0,
    ensures
        0 <= off + i * st[d] < len,
{
    let c = point(sh.len(), d, i);
    assert(crate::layout::valid_from(sh, c, d));
    lemma_lin_point(st, sh.len(), d, i, d + 1);
    assert(lin_from(c, st, d) == (i as int) * (st[d] as int) + lin_from(c, st, d + 1));
}

/// A scalar layout's only entry lies in the buffer.
proof fn lemma_fits_from_scalar(sh: Seq<usize>, st: Seq<isize>, off: int, len: int)
    requires
        fits_from(sh, st, sh.len() as int, off, len),
    ensures
        0 <= off < len,
{
    let c = Seq::new(sh.len(), |k: int| 0usize);
    assert(crate::layout::valid_from(sh, c, sh.len() as int));
}

/// With an empty dimension from `d` on, no entry is read: the text does not
/// depend on the offset.
proof fn lemma_render_offset_free(
    texts: Seq<Seq<char>>,
    sh: Seq<usize>,
    st: Seq<isize>,
    d: int,
    off1: int,
    off2: int,
    indent: nat,
    rows: Seq<usize>,
    start: int,
    z: int,
)
    requires
        0 <= d <= z < sh.len(),
        sh[z] == 0,
    ensures
        render(texts, sh, st, d, off1, indent, rows, start) == render(texts, sh, st, d, off2, indent, rows, start),
    decreases sh.len() - d, 1int, 0int,
{
    if d == sh.len() - 1 {
        assert(z == d);
        assert(joined(texts, off1, st[d] as int, 0, 0, false) == joined(texts, off2, st[d] as int, 0, 0, false));
    } else {
        lemma_items_offset_free(texts, sh, st, d, off1, off2, indent, rows, start, sh[d] as int, z);
    }
}

proof fn lemma_items_offset_free(
    texts: Seq<Seq<char>>,
    sh: Seq<usize>,
    st: Seq<isize>,
    d: int,
    off1: int,
    off2: int,
    indent: nat,
    rows: Seq<usize>,
    start: int,
    n: int,
    z: int,
)
    requires
        0 <= d <= z < sh.len(),
        d < sh.len() - 1,
        sh[z] == 0,
        n <= sh[d],
    ensures
        render_items(texts, sh, st, d, off1, indent, rows, start, n) == render_items(
            texts,
            sh,
            st,
            d,
            off2,
            indent,
            rows,
            start,
            n,
        ),
    decreases sh.len() - d, 0int, n,
{
    if n > 0 {
        assert(z > d);
        lemma_items_offset_free(texts, sh, st, d, off1, off2, indent, rows, start, n - 1, z);
        let i = n - 1;
        let rps = rows_of(sh, d + 1);
        lemma_render_offset_free(
            texts,
            sh,
            st,
            d + 1,
            off1 + i * st[d],
            off2 + i * st[d],
            (indent + 1) as nat,
            rows,
            start + i * rps,
            z,
        );
    }
}

/// Rows of the dimensions `d..`: those of one sub-tensor times the length of `d`.
proof fn lemma_rows_of_step(sh: Seq<usize>, d: int)
    requires
        0 <= d < sh.len() - 1,
    ensures
        rows_of(sh, d) == (sh[d] as nat) * rows_of(sh, d + 1),
        rows_of(sh, sh.len() - 1) == 1,
{
    assert(sh.drop_last()[d] == sh[d]);
}

proof fn lemma_rows_of_last(sh: Seq<usize>)
    requires
        sh.len() >= 1,
    ensures
        rows_of(sh, sh.len() - 1) == 1,
{
}

/// The texts of a vector of strings.
pub open spec fn texts_of(v: Seq<String>) -> Seq<Seq<char>> {
    v.map_values(|t: String| t@)
}

/// Appends `n` spaces.
fn push_spaces(out: &mut String, n: usize)
    ensures
        final(out)@ == old(out)@ + spaces(n as nat),
{
    let mut i: usize = 0;
    while i < n
        invariant
            i <= n,
            out@ == old(out)@ + spaces(i as nat),
        decreases n - i,
    {
        push_str(out, " ");
        proof {
            reveal_strlit(" ");
        }
        i = i + 1;
        assert(out@ =~= old(out)@ + spaces(i as nat));
    }
}

/// Whether some row to show lies in `a..b`.
fn any_row_in(rows: &Vec<usize>, a: usize, b: usize) -> (r: bool)
    ensures
        r == any_row(rows@, a as int, b as int),
{
    let mut k: usize = 0;
    while k < rows.len()
        invariant
            k <= rows@.len(),
            forall|j: int| 0 <= j < k ==> !(a <= #[trigger] rows@[j] < b),
        decreases rows@.len() - k,
    {
        if a <= rows[k] && rows[k] < b {
            return true;
        }
        k = k + 1;
    }
    false
}

/// `off + i * st`, the buffer index of entry `i` along a dimension of stride `st`.
fn entry_index(off: usize, i: usize, st: isize, len: usize) -> (r: usize)
    requires
        0 <= off + i * st < len,
    ensures
        r == off + i * st,
{
    let prod: i128 = (i as i128) * (st as i128);
    let b: i128 = (off as i128) + prod;
    b as usize
}

/// Number of rows of the dimensions `d..` (product of all of them but the
/// last), computed from the innermost dimension outwards.
fn rows_from(shape: &Vec<usize>, d: usize) -> (r: usize)
    requires
        d < shape@.len(),
        forall|k: int| d <= k <= shape@.len() ==> #[trigger] rows_of(shape@, k) <= usize::MAX,
    ensures
        r == rows_of(shape@, d as int),
{
    let n = shape.len();
    let mut r: usize = 1;
    let mut k: usize = n - 1;
    proof {
        lemma_rows_of_last(shape@);
    }
    while k > d
        invariant
            d <= k < n,
            n == shape@.len(),
            r == rows_of(shape@, k as int),
            forall|j: int| d <= j <= shape@.len() ==> #[trigger] rows_of(shape@, j) <= usize::MAX,
        decreases k - d,
    {
        k = k - 1;
        proof {
            lemma_rows_of_step(shape@, k as int);
        }
        assert(rows_of(shape@, k as int) <= usize::MAX);
        r = shape[k] * r;
    }
    r
}

/// Appends entries `a..b` of a row, each preceded by `", "` except entry 0
/// unless `lead`.
fn push_entries(
    texts: &Vec<String>,
    shape: &Vec<usize>,
    strides: &Vec<isize>,
    d: usize,
    offset: usize,
    a: usize,
    b: usize,
    lead: bool,
    out: &mut String,
)
    requires
        d == shape@.len() - 1,
        fits_from(shape@, strides@, d as int, offset as int, texts@.len() as int),
        a <= b <= shape@[d as int],
    ensures
        final(out)@ == old(out)@ + joined(texts_of(texts@), offset as int, strides@[d as int] as int, a as int, b as int, lead),
{
    let ghost tx = texts_of(texts@);
    let mut i: usize = a;
    assert(joined(tx, offset as int, strides@[d as int] as int, a as int, a as int, lead) =~= Seq::<char>::empty());
    while i < b
        invariant
            a <= i <= b,
            b <= shape@[d as int],
            d == shape@.len() - 1,
            tx == texts_of(texts@),
            fits_from(shape@, strides@, d as int, offset as int, texts@.len() as int),
            out@ == old(out)@ + joined(tx, offset as int, strides@[d as int] as int, a as int, i as int, lead),
        decreases b - i,
    {
        let ghost before = out@;
        if lead || i > 0 {
            push_str(out, ", ");
        }
        proof {
            lemma_fits_from_entry(shape@, strides@, d as int, offset as int, texts@.len() as int, i as int);
        }
        let idx = entry_index(offset, i, strides[d], texts.len());
        push_str(out, texts[idx].as_str());
        i = i + 1;
        assert(out@ =~= old(out)@ + joined(tx, offset as int, strides@[d as int] as int, a as int, i as int, lead));
    }
}

proof fn lemma_counter_step(start: int, i: int, rps: int, size: int)
    by (nonlinear_arith)
    requires
        0 <= i < size,
        rps >= 0,
    ensures
        start + i * rps + rps == start + (i + 1) * rps,
        start + (i + 1) * rps <= start + size * rps,
        start + i * rps <= start + size * rps,
{
}

/// Appends the text of the dimensions `d..` of the layout at `offset` (see
/// `render`), counting its rows from `row_counter` on; only the rows listed
/// in `row_indices` are written.
#[verifier::rlimit(40)]
pub fn format_tensor_recursive(
    texts: &Vec<String>,
    shape: &Vec<usize>,
    strides: &Vec<isize>,
    d: usize,
    offset: usize,
    indent: usize,
    out: &mut String,
    row_indices: &Vec<usize>,
    row_counter: &mut usize,
)
    requires
        d <= shape@.len(),
        fits_from(shape@, strides@, d as int, offset as int, texts@.len() as int),
        forall|k: int| d <= k <= shape@.len() ==> #[trigger] rows_of(shape@, k) <= usize::MAX,
        *old(row_counter) + rows_of(shape@, d as int) <= usize::MAX,
        indent + (shape@.len() - d) <= usize::MAX,
    ensures
        final(out)@ == old(out)@ + render(
            texts_of(texts@),
            shape@,
            strides@,
            d as int,
            offset as int,
            indent as nat,
            row_indices@,
            *old(row_counter) as int,
        ),
        *final(row_counter) == *old(row_counter) + rows_of(shape@, d as int),
    decreases shape@.len() - d,
{
    let ghost tx = texts_of(texts@);
    let ghost start = *row_counter as int;
    let ghost base = out@;
    if d == shape.len() {
        proof {
            lemma_fits_from_scalar(shape@, strides@, offset as int, texts@.len() as int);
        }
        push_str(out, texts[offset].as_str());
        return;
    }
    if d == shape.len() - 1 {
        proof {
            lemma_rows_of_last(shape@);
        }
        let current = *row_counter;
        *row_counter = current + 1;
        if !any_row_in(row_indices, current, current + 1) {
            assert(out@ =~= base + render(tx, shape@, strides@, d as int, offset as int, indent as nat, row_indices@, start));
            return;
        }
        push_str(out, "[");
        let size = shape[d];
        if size <= 10 {
            push_entries(texts, shape, strides, d, offset, 0, size, false, out);
        } else {
            push_entries(texts, shape, strides, d, offset, 0, 5, false, out);
            push_str(out, ", ...");
            push_entries(texts, shape, strides, d, offset, size - 5, size, true, out);
        }
        push_str(out, "]");
        assert(out@ =~= base + render(tx, shape@, strides@, d as int, offset as int, indent as nat, row_indices@, start));
        return;
    }
    push_str(out, "[");
    let ghost base1 = out@;
    let size = shape[d];
    proof {
        lemma_rows_of_step(shape@, d as int);
    }
    let rps = rows_from(shape, d + 1);
    let mut items_printed: usize = 0;
    let mut ellipsis_printed = false;
    let mut i: usize = 0;
    assert(render_items(tx, shape@, strides@, d as int, offset as int, indent as nat, row_indices@, start, 0)
        =~= Seq::<char>::empty());
    while i < size
        invariant
            d < shape@.len() - 1,
            shape@.len() <= usize::MAX,
            size == shape@[d as int],
            rps == rows_of(shape@, d as int + 1),
            rows_of(shape@, d as int) == (size as nat) * rps,
            tx == texts_of(texts@),
            fits_from(shape@, strides@, d as int, offset as int, texts@.len() as int),
            forall|k: int| d <= k <= shape@.len() ==> #[trigger] rows_of(shape@, k) <= usize::MAX,
            start + rows_of(shape@, d as int) <= usize::MAX,
            indent + (shape@.len() - d) <= usize::MAX,
            i <= size,
            *row_counter == start + i * rps,
            out@ == base1 + render_items(tx, shape@, strides@, d as int, offset as int, indent as nat, row_indices@, start, i as int),
            (items_printed > 0) == printed_before(shape@, d as int, row_indices@, start, i as int),
            ellipsis_printed == (size > 10 && i > 5),
            items_printed <= i,
        decreases size - i,
    {
        proof {
            lemma_counter_step(start, i as int, rps as int, size as int);
        }
        let ghost before = out@;
        let start_row = *row_counter;
        let end_row = start_row + rps;
        let has_rows = any_row_in(row_indices, start_row, end_row);
        let ghost pb = printed_before(shape@, d as int, row_indices@, start, i as int);
        if size > 10 && i >= 5 && i < size - 5 {
            *row_counter = end_row;
            proof {
                if i > 5 {
                    assert(sub_visible(shape@, d as int, row_indices@, start, 5));
                }
            }
            if !ellipsis_printed {
                if items_printed > 0 {
                    push_str(out, ",\n");
                    push_spaces(out, indent + 1);
                }
                push_str(out, "...");
                ellipsis_printed = true;
                items_printed = items_printed + 1;
            }
        } else if !has_rows {
            *row_counter = end_row;
        } else {
            if items_printed > 0 {
                push_str(out, ",\n");
                push_spaces(out, indent + 1);
                if shape.len() - d >= 3 {
                    push_str(out, "\n");
                    push_spaces(out, indent + 1);
                }
            }
            let ghost sub_off = offset as int + (i as int) * (strides@[d as int] as int);
            proof {
                lemma_fits_from_step(shape@, strides@, d as int, offset as int, texts@.len() as int, i as int);
            }
            let new_off = if crate::layout::all_nonempty_from(shape, d + 1) {
                proof {
                    lemma_fits_from_entry(shape@, strides@, d as int, offset as int, texts@.len() as int, i as int);
                }
                entry_index(offset, i, strides[d], texts.len())
            } else {
                proof {
                    let z = choose|z: int| d + 1 <= z < shape@.len() && shape@[z] == 0;
                    assert forall|c: Seq<usize>| #[trigger] crate::layout::valid_from(shape@, c, d as int + 1) implies 0 <= offset
                        + lin_from(c, strides@, d as int + 1) < texts@.len() by {
                        assert(c[z] < shape@[z]);
                    }
                    lemma_render_offset_free(
                        tx,
                        shape@,
                        strides@,
                        d as int + 1,
                        offset as int,
                        sub_off,
                        (indent + 1) as nat,
                        row_indices@,
                        start_row as int,
                        z,
                    );
                }
                offset
            };
            let ghost mid = out@;
            format_tensor_recursive(texts, shape, strides, d + 1, new_off, indent + 1, out, row_indices, row_counter);
            items_printed = items_printed + 1;
        }
        proof {
            assert(sub_visible(shape@, d as int, row_indices@, start, i as int) ==> printed_before(
                shape@,
                d as int,
                row_indices@,
                start,
                i as int + 1,
            ));
            if printed_before(shape@, d as int, row_indices@, start, i as int + 1) {
                let j = choose|j: int| 0 <= j < i + 1 && #[trigger] sub_visible(shape@, d as int, row_indices@, start, j);
                if j < i {
                    assert(printed_before(shape@, d as int, row_indices@, start, i as int));
                }
            }
            if printed_before(shape@, d as int, row_indices@, start, i as int) {
                let j = choose|j: int| 0 <= j < i && #[trigger] sub_visible(shape@, d as int, row_indices@, start, j);
                assert(sub_visible(shape@, d as int, row_indices@, start, j));
            }
        }
        i = i + 1;
        assert(out@ =~= base1 + render_items(tx, shape@, strides@, d as int, offset as int, indent as nat, row_indices@, start, i as int));
    }
    push_str(out, "]");
    assert(out@ =~= base + render(tx, shape@, strides@, d as int, offset as int, indent as nat, row_indices@, start));
}

/// Every row count of the shape fits in a `usize`.
pub open spec fn rows_fit(shape: Seq<usize>) -> bool {
    forall|k: int| 0 <= k <= shape.len() ==> #[trigger] rows_of(shape, k) <= usize::MAX
}

/// Number of rows of a shape: the product of all dimensions but the last
/// (1 for ranks 0 and 1).
pub fn calculate_total_rows(shape: &Vec<usize>) -> (r: usize)
    requires
        rows_fit(shape@),
    ensures
        r == total_rows(shape@),
{
    if shape.len() <= 1 {
        return 1;
    }
    rows_from(shape, 0)
}

/// The rows to show: all of them up to ten, else the first five and the last five.
fn display_rows(total: usize) -> (r: Vec<usize>)
    ensures
        r@ == shown_rows(total as nat),
{
    let mut r: Vec<usize> = Vec::new();
    if total <= MAX_DISPLAY_SIZE {
        let mut i: usize = 0;
        while i < total
            invariant
                i <= total,
                r@ == Seq::new(i as nat, |j: int| j as usize),
            decreases total - i,
        {
            r.push(i);
            i = i + 1;
            assert(r@ =~= Seq::new(i as nat, |j: int| j as usize));
        }
    } else {
        let mut i: usize = 0;
        while i < 5
            invariant
                i <= 5,
                r@ == Seq::new(i as nat, |j: int| j as usize),
            decreases 5 - i,
        {
            r.push(i);
            i = i + 1;
            assert(r@ =~= Seq::new(i as nat, |j: int| j as usize));
        }
        let mut i: usize = total - 5;
        while i < total
            invariant
                total - 5 <= i <= total,
                total > 10,
                r@ == Seq::new(5, |j: int| j as usize) + Seq::new((i - (total - 5)) as nat, |j: int| (total - 5 + j) as usize),
            decreases total - i,
        {
            r.push(i);
            i = i + 1;
            assert(r@ =~= Seq::new(5, |j: int| j as usize) + Seq::new((i - (total - 5)) as nat, |j: int| (total - 5 + j) as usize));
        }
    }
    r
}

/// The text of a tensor whose entries have the texts `texts` (one per buffer
/// position), with element type named `dtype`.
pub fn format_tensor_text(texts: &Vec<String>, meta: &MetaTensor, dtype: &str) -> (r: String)
    requires
        meta.fits(texts@.len() as int),
        rows_fit(meta.shape@),
        meta.shape@.len() <= 128,
    ensures
        r@ == tensor_text(texts_of(texts@), meta.shape@, meta.strides@, meta.offset as int, dtype@),
{
    let mut out = crate::error::msg("tensor(");
    let total = calculate_total_rows(&meta.shape);
    let rows = display_rows(total);
    let mut counter: usize = 0;
    proof {
        lemma_fits_from_top(meta.shape@, meta.strides@, meta.offset as int, texts@.len() as int);
        if meta.shape@.len() > 0 {
            assert(rows_of(meta.shape@, 0) <= usize::MAX);
        }
    }
    format_tensor_recursive(texts, &meta.shape, &meta.strides, 0, meta.offset, 6, &mut out, &rows, &mut counter);
    push_str(&mut out, ", dtype=");
    push_str(&mut out, dtype);
    push_str(&mut out, ", device=cpu)");
    out
}

/// Calls `format!("{:?}", x)`: the `Debug` text of a value; nothing is
/// claimed of it.
#[verifier::external_body]
fn debug_text<T: std::fmt::Debug>(x: &T) -> String {
    format!("{:?}", x)
}

/// `s` is a `Debug` text that `format!("{:?}", ..)` gives for `x`.
pub closed spec fn debug_value<T: std::fmt::Debug>(x: T, s: Seq<char>) -> bool {
    exists|st: String| #[trigger] call_ensures(debug_text::<T>, (&x,), st) && st@ == s
}

/// `texts` are the `Debug` texts of the elements of `data`, in order.
pub open spec fn debug_texts<T: std::fmt::Debug>(data: Seq<T>, texts: Seq<Seq<char>>) -> bool {
    &&& texts.len() == data.len()
    &&& forall|i: int| 0 <= i < data.len() ==> #[trigger] debug_value(data[i], texts[i])
}

/// Calls `f` on the reference `a`.
fn apply_ref<A, B, F: Fn(&A) -> B>(f: F, a: &A) -> (b: B)
    requires
        call_requires(f, (a,)),
    ensures
        call_ensures(f, (a,), b),
{
    f(a)
}

/// The `Debug` text of every element of a buffer.
fn element_texts<T: std::fmt::Debug>(data: &Vec<T>) -> (r: Vec<String>)
    ensures
        r@.len() == data@.len(),
        debug_texts(data@, texts_of(r@)),
{
    let mut r: Vec<String> = Vec::new();
    let mut i: usize = 0;
    while i < data.len()
        invariant
            i <= data@.len(),
            r@.len() == i,
            forall|j: int| 0 <= j < i ==> #[trigger] debug_value(data@[j], r@[j]@),
        decreases data@.len() - i,
    {
        let t = apply_ref(debug_text::<T>, &data[i]);
        proof {
            assert(call_ensures(debug_text::<T>, (&data@[i as int],), t));
            assert(debug_value(data@[i as int], t@));
        }
        r.push(t);
        i = i + 1;
    }
    proof {
        assert forall|j: int| 0 <= j < data@.len() implies #[trigger] debug_value(data@[j], texts_of(r@)[j]) by {
            assert(texts_of(r@)[j] == r@[j]@);
        }
    }
    r
}

/// The text of a tensor over `data` with layout `meta`: the entries as
/// their `Debug` texts, in `tensor(...)` form with element type `dtype`.
pub fn format_tensor_data<T: std::fmt::Debug>(data: &Vec<T>, meta: &MetaTensor, dtype: &str) -> (r: String)
    requires
        meta.fits(data@.len() as int),
        rows_fit(meta.shape@),
        meta.shape@.len() <= 128,
    ensures
        exists|texts: Seq<Seq<char>>|
            debug_texts(data@, texts) && r@ == #[trigger] tensor_text(
                texts,
                meta.shape@,
                meta.strides@,
                meta.offset as int,
                dtype@,
            ),
{
    let texts = element_texts(data);
    let r = format_tensor_text(&texts, meta, dtype);
    assert(texts_of(texts@).len() == data@.len());
    r
}

impl<T> TensorBase<T> {
    /// The tensor as text, e.g. `tensor([1, 2, 3], dtype=i32, device=cpu)`,
    /// with `dtype` as the name of the element type.
    pub fn debug_string(&self, dtype: &str) -> (r: String)
        where T: std::fmt::Debug,
        requires
            self.wf(),
            rows_fit(self.spec_shape()),
            self.spec_shape().len() <= 128,
        ensures
            exists|texts: Seq<Seq<char>>|
                debug_texts(self.data(), texts) && r@ == #[trigger] tensor_text(
                    texts,
                    self.spec_shape(),
                    self.spec_strides(),
                    self.spec_offset(),
                    dtype@,
                ),
    {
        let r = format_tensor_data(&self.buf, &self.meta, dtype);
        r
    }
}

impl<'a, T> TensorView<'a, T> {
    /// The view as text, e.g. `tensor([1, 2, 3], dtype=i32, device=cpu)`,
    /// with `dtype` as the name of the element type.
    pub fn debug_string(&self, dtype: &str) -> (r: String)
        where T: std::fmt::Debug,
        requires
            rows_fit(self.spec_shape()),
            self.spec_shape().len() <= 128,
        ensures
            exists|texts: Seq<Seq<char>>|
                debug_texts(self.data(), texts) && r@ == #[trigger] tensor_text(
                    texts,
                    self.spec_shape(),
                    self.spec_strides(),
                    self.spec_offset(),
                    dtype@,
                ),
    {
        proof {
            use_type_invariant(self);
        }
        let r = format_tensor_data(self.buf, &self.meta, dtype);
        proof {
            let texts = choose|texts: Seq<Seq<char>>|
                debug_texts(self.buf@, texts) && r@ == #[trigger] tensor_text(
                    texts,
                    self.meta.shape@,
                    self.meta.strides@,
                    self.meta.offset as int,
                    dtype@,
                );
            assert(tensor_text(texts, self.spec_shape(), self.spec_strides(), self.spec_offset(), dtype@) == r@);
        }
        r
    }
}

impl<'a, T> TensorViewMut<'a, T> {
    /// The view as text, e.g. `tensor([1, 2, 3], dtype=i32, device=cpu)`,
    /// with `dtype` as the name of the element type.
    pub fn debug_string(&self, dtype: &str) -> (r: String)
        where T: std::fmt::Debug,
        requires
            self.wf(),
            rows_fit(self.spec_shape()),
            self.spec_shape().len() <= 128,
        ensures
            exists|texts: Seq<Seq<char>>|
                debug_texts(self.data(), texts) && r@ == #[trigger] tensor_text(
                    texts,
                    self.spec_shape(),
                    self.spec_strides(),
                    self.spec_offset(),
                    dtype@,
                ),
    {
        let v = self.view_ref();
        proof {
            use_type_invariant(&v);
        }
        let r = format_tensor_data(v.buf, &v.meta, dtype);
        r
    }
}

} // verus!

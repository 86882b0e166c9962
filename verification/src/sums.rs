//! Sums of integer sequences, and the fact that a buffer index does not
//! depend on the order in which the dimensions are listed.
use vstd::prelude::*;
use crate::layout::{coord_index, lin_from};

verus! {

/// Sum of a sequence of integers.
pub open spec fn seq_sum(t: Seq<int>) -> int
    decreases t.len(),
{
    if t.len() == 0 {
        0
    } else {
        t[0] + seq_sum(t.drop_first())
    }
}

/// The products `c[i] * strides[i]`.
pub open spec fn terms(c: Seq<usize>, strides: Seq<isize>) -> Seq<int> {
    Seq::new(c.len(), |i: int| (c[i] as int) * (strides[i] as int))
}

/// `p` lists each of `0..n` exactly once.
pub open spec fn is_perm(p: Seq<usize>, n: int) -> bool {
    &&& p.len() == n
    &&& forall|k: int| 0 <= k < n ==> p[k] < n
    &&& forall|k1: int, k2: int| 0 <= k1 < n && 0 <= k2 < n && k1 != k2 ==> p[k1] != p[k2]
    &&& forall|i: int| 0 <= i < n ==> #[trigger] perm_hits(p, n, i)
}

/// Some entry of `p[0..n]` equals `i`.
pub open spec fn perm_hits(p: Seq<usize>, n: int, i: int) -> bool {
    exists|k: int| 0 <= k < n && #[trigger] p[k] == i
}

/// `s` reordered by `p`: entry `k` of the result is `s[p[k]]`.
pub open spec fn permuted<A>(s: Seq<A>, p: Seq<usize>) -> Seq<A> {
    Seq::new(p.len(), |k: int| s[p[k] as int])
}

pub proof fn lemma_sum_concat(a: Seq<int>, b: Seq<int>)
    ensures
        seq_sum(a + b) == seq_sum(a) + seq_sum(b),
    decreases a.len(),
{
    if a.len() > 0 {
        lemma_sum_concat(a.drop_first(), b);
        assert((a + b).drop_first() =~= a.drop_first() + b);
    } else {
        assert(a + b =~= b);
    }
}

pub proof fn lemma_sum_drop_last(t: Seq<int>)
    requires
        t.len() > 0,
    ensures
        seq_sum(t) == seq_sum(t.drop_last()) + t.last(),
{
    lemma_sum_concat(t.drop_last(), seq![t.last()]);
    assert(t =~= t.drop_last() + seq![t.last()]);
    lemma_sum_single(t.last());
}

/// Inserting a zero does not change a sum.
pub proof fn lemma_sum_insert_zero(t: Seq<int>, d: int)
    requires
        0 <= d <= t.len(),
    ensures
        seq_sum(t.insert(d, 0)) == seq_sum(t),
{
    let a = t.subrange(0, d);
    let b = t.subrange(d, t.len() as int);
    assert(t =~= a + b);
    assert(t.insert(d, 0) =~= a + (seq![0int] + b));
    lemma_sum_concat(a, b);
    lemma_sum_concat(a, seq![0int] + b);
    lemma_sum_concat(seq![0int], b);
    lemma_sum_single(0);
}

pub proof fn lemma_sum_single(x: int)
    ensures
        seq_sum(seq![x]) == x,
{
    assert(seq![x].drop_first() =~= Seq::<int>::empty());
    assert(seq_sum(Seq::<int>::empty()) == 0);
}

/// A sum does not depend on the order of its terms.
pub proof fn lemma_sum_permuted(t: Seq<int>, p: Seq<usize>)
    requires
        is_perm(p, t.len() as int),
    ensures
        seq_sum(permuted(t, p)) == seq_sum(t),
    decreases t.len(),
{
    let n = t.len() as int;
    if n == 0 {
        assert(permuted(t, p) =~= Seq::<int>::empty());
    } else {
        assert(perm_hits(p, n, n - 1));
        let j = choose|k: int| 0 <= k < n && #[trigger] p[k] == n - 1;
        let tp = permuted(t, p);
        let a = tp.subrange(0, j);
        let b = tp.subrange(j + 1, n);
        assert(tp =~= a + (seq![t[n - 1]] + b));
        lemma_sum_concat(a, seq![t[n - 1]] + b);
        lemma_sum_concat(seq![t[n - 1]], b);
        lemma_sum_single(t[n - 1]);
        let p2 = p.remove(j);
        let t2 = t.drop_last();
        assert forall|k: int| 0 <= k < n - 1 implies p2[k] < n - 1 by {
            if k < j {
                assert(p2[k] == p[k]);
            } else {
                assert(p2[k] == p[k + 1]);
            }
        }
        assert forall|i: int| 0 <= i < n - 1 implies #[trigger] perm_hits(p2, n - 1, i) by {
            assert(perm_hits(p, n, i));
            let k0 = choose|k: int| 0 <= k < n && #[trigger] p[k] == i;
            if k0 < j {
                assert(p2[k0] == i);
            } else {
                assert(k0 != j);
                assert(p2[k0 - 1] == i);
            }
        }
        assert(is_perm(p2, n - 1));
        lemma_sum_permuted(t2, p2);
        assert(permuted(t2, p2) =~= a + b) by {
            assert forall|k: int| 0 <= k < n - 1 implies permuted(t2, p2)[k] == (a + b)[k] by {
                if k < j {
                    assert(p2[k] == p[k]);
                } else {
                    assert(p2[k] == p[k + 1]);
                }
            }
        }
        lemma_sum_concat(a, b);
        lemma_sum_drop_last(t);
    }
}

/// `lin_from` is the sum of the terms from dimension `d` on.
pub proof fn lemma_lin_from_sum(c: Seq<usize>, strides: Seq<isize>, d: int)
    requires
        0 <= d <= c.len(),
    ensures
        lin_from(c, strides, d) == seq_sum(terms(c, strides).subrange(d, c.len() as int)),
    decreases c.len() - d,
{
    let t = terms(c, strides);
    if d < c.len() {
        lemma_lin_from_sum(c, strides, d + 1);
        assert(t.subrange(d, c.len() as int).drop_first() =~= t.subrange(d + 1, c.len() as int));
    } else {
        assert(t.subrange(d, c.len() as int) =~= Seq::<int>::empty());
    }
}

/// The buffer index of a coordinate is the base offset plus the sum of its
/// terms.
pub proof fn lemma_coord_index_sum(c: Seq<usize>, strides: Seq<isize>, offset: int)
    ensures
        coord_index(c, strides, offset) == offset + seq_sum(terms(c, strides)),
{
    lemma_lin_from_sum(c, strides, 0);
    assert(terms(c, strides).subrange(0, c.len() as int) =~= terms(c, strides));
}

} // verus!

//! The backward pass over a gradient graph: the upstream gradients of each
//! node are summed in the order they arrive, the node's local gradients are
//! handed to its parents, parameters collect their gradients, and the
//! operations that were consumed leave the graph.
use vstd::prelude::*;
use crate::access::{AsView, TensorAccess};
use crate::error::{msg, TensorError};
use crate::meta::Idx;
use crate::sums::{is_perm, perm_hits, permuted};
use crate::tensor::TensorBase;
use crate::grad::{
    ffi_key_ok, has_cycle_from, has_missing_from, is_edge, is_path, key_values, lemma_reaches_self,
    lemma_reaches_step, node_parents, parent_keys, reaches, resolve, topo_order, GradContext, GradNode,
    MaybeNodeKey, NodeKey,
};

verus! {

broadcast use crate::tensor::group_tensor_parts;

/// A node that the backward pass consumes: an operation, neither a
/// parameter nor an untracked input.
pub open spec fn is_operation(n: GradNode) -> bool {
    !(n is Leaf) && !(n is Input)
}

/// The key `k` of `g` is an operation reached from `root`; the backward
/// pass from `root` removes it.
pub open spec fn consumed(g: Map<u64, GradNode>, nk: u64, root: u64, k: u64) -> bool {
    reaches(g, nk, root, k) && g.contains_key(k) && is_operation(g[k])
}

/// The keys of the gradients handed back, in order.
pub open spec fn grad_keys<G>(v: Seq<(NodeKey, G)>) -> Seq<u64> {
    v.map_values(|p: (NodeKey, G)| p.0.0)
}

/// Every key but the root has a child in the order, later than itself.
proof fn lemma_has_child(g: Map<u64, GradNode>, nk: u64, root: u64, ov: Seq<u64>, q: int)
    requires
        topo_order(g, nk, root, ov),
        0 <= q < ov.len(),
        ov[q] != root,
    ensures
        exists|p: int| q < p < ov.len() && #[trigger] is_edge(g, nk, ov[p], ov[q]),
{
    assert(ov.contains(ov[q]));
    let pth = choose|pth: Seq<u64>| #[trigger] is_path(g, nk, pth) && pth[0] == root && pth.last() == ov[q];
    let m = pth.len() - 1;
    assert(m >= 1);
    let pre = pth.subrange(0, m);
    assert forall|i: int| 0 <= i < pre.len() - 1 implies #[trigger] is_edge(g, nk, pre[i], pre[i + 1]) by {
        assert(pre[i] == pth[i] && pre[i + 1] == pth[i + 1]);
        assert(is_edge(g, nk, pth[i], pth[i + 1]));
    }
    assert(is_path(g, nk, pre));
    let c = pre.last();
    assert(reaches(g, nk, root, c));
    let j = m - 1;
    assert(is_edge(g, nk, pth[j], pth[j + 1]));
    assert(ov.contains(c));
    let p = ov.index_of(c);
    assert(is_edge(g, nk, ov[p], ov[q]));
}

/// A suffix of a sequence holds `x` when its first element is `x` or the
/// rest holds it.
proof fn lemma_suffix_contains(ov: Seq<u64>, idx: int, n: int, x: u64)
    requires
        0 <= idx < n <= ov.len(),
    ensures
        ov.subrange(idx, n).contains(x) <==> (ov[idx] == x || ov.subrange(idx + 1, n).contains(x)),
{
    let a = ov.subrange(idx, n);
    let b = ov.subrange(idx + 1, n);
    if a.contains(x) {
        let k = choose|k: int| 0 <= k < a.len() && a[k] == x;
        if k > 0 {
            assert(b[k - 1] == x);
        }
    }
    if b.contains(x) {
        let k = choose|k: int| 0 <= k < b.len() && b[k] == x;
        assert(a[k + 1] == x);
    }
    if ov[idx] == x {
        assert(a[0] == x);
    }
}

/// Appending a key to a sequence.
proof fn lemma_push_key(s: Seq<u64>, k: u64)
    ensures
        forall|x: u64| #[trigger] s.push(k).contains(x) <==> (s.contains(x) || x == k),
        s.no_duplicates() && !s.contains(k) ==> s.push(k).no_duplicates(),
{
    let t = s.push(k);
    assert forall|x: u64| #[trigger] t.contains(x) <==> (s.contains(x) || x == k) by {
        if t.contains(x) {
            let i = choose|i: int| 0 <= i < t.len() && t[i] == x;
            if i < s.len() {
                assert(s[i] == x);
            }
        }
        if s.contains(x) {
            let i = choose|i: int| 0 <= i < s.len() && s[i] == x;
            assert(t[i] == x);
        }
        if x == k {
            assert(t[s.len() as int] == x);
        }
    }
    if s.no_duplicates() && !s.contains(k) {
        assert forall|i: int, j: int| 0 <= i < t.len() && 0 <= j < t.len() && i != j implies t[i] != t[j] by {
            if i < s.len() && j < s.len() {
                assert(s[i] != s[j]);
            } else if i < s.len() {
                assert(s.contains(s[i]));
            } else if j < s.len() {
                assert(s.contains(s[j]));
            }
        }
    }
}

/// The position of a key in an order that lists it.
fn position_of(order: &Vec<NodeKey>, k: u64) -> (p: usize)
    requires
        key_values(order@).contains(k),
    ensures
        p < order@.len(),
        order@[p as int].0 == k,
{
    let mut i: usize = 0;
    while i < order.len()
        invariant
            i <= order@.len(),
            key_values(order@).contains(k),
            forall|j: int| 0 <= j < i ==> order@[j].0 != k,
        decreases order@.len() - i,
    {
        if order[i].0 == k {
            return i;
        }
        i = i + 1;
    }
    proof {
        let j = choose|j: int| 0 <= j < key_values(order@).len() && key_values(order@)[j] == k;
        assert(order@[j].0 == k);
    }
    0
}


/// `sums` are the running sums, by `plus` from left to right, of `parts`:
/// the first part, then each sum plus the next part.
pub open spec fn running_sums<G, A: Fn(G, G) -> G>(plus: A, parts: Seq<G>, sums: Seq<G>) -> bool {
    &&& sums.len() == parts.len()
    &&& parts.len() >= 1
    &&& sums[0] == parts[0]
    &&& forall|i: int| 1 <= i < parts.len() ==> call_ensures(plus, (sums[i - 1], parts[i]), #[trigger] sums[i])
}

/// `s` is the sum, by `plus` from left to right, of the gradients `parts`
/// (of which there is at least one).
pub open spec fn sum_by<G, A: Fn(G, G) -> G>(plus: A, parts: Seq<G>, s: G) -> bool {
    exists|sums: Seq<G>| #[trigger] running_sums(plus, parts, sums) && sums.last() == s
}

/// What is pending for a node that has received `parts`: nothing when no
/// gradient has arrived, else their sum.
pub open spec fn pending_ok<G, A: Fn(G, G) -> G>(plus: A, a: Option<G>, parts: Seq<G>) -> bool {
    match a {
        None => parts.len() == 0,
        Some(s) => sum_by(plus, parts, s),
    }
}

/// The entries `o[j]`, `j < k`, whose parent `ps[j]` is the node `x`, in
/// order.
pub open spec fn picks<G>(o: Seq<G>, ps: Seq<MaybeNodeKey>, x: u64, k: int) -> Seq<G>
    decreases k,
{
    if k <= 0 {
        seq![]
    } else if ps[k - 1] == Some(NodeKey(x)) {
        picks(o, ps, x, k - 1).push(o[k - 1])
    } else {
        picks(o, ps, x, k - 1)
    }
}

/// The gradients that the nodes at positions `p..` of `ov` hand to `x`, in
/// the order they arrive: the last position first and, within a node, in
/// the order of its parents; `outs[c]` are the gradients node `c` hands out.
pub open spec fn arrivals<G>(g: Map<u64, GradNode>, ov: Seq<u64>, outs: Map<u64, Vec<G>>, x: u64, p: int) -> Seq<G>
    decreases ov.len() - p,
{
    if p < 0 || p >= ov.len() {
        seq![]
    } else {
        arrivals(g, ov, outs, x, p + 1) + picks(
            outs[ov[p]]@,
            node_parents(g[ov[p]]),
            x,
            node_parents(g[ov[p]]).len() as int,
        )
    }
}

/// A backward pass from `root` with seed `loss` over the order `ov`: the
/// root's gradient is `loss`; every other node's gradient `ins[x]` is the
/// sum of what arrived at it; each operation handed out `outs[c]`, an
/// outcome of `local` on its gradient.
pub open spec fn backward_run<G, L, A>(
    g: Map<u64, GradNode>,
    nk: u64,
    root: u64,
    ov: Seq<u64>,
    loss: G,
    local: L,
    plus: A,
    outs: Map<u64, Vec<G>>,
    ins: Map<u64, G>,
) -> bool where
    L: Fn(NodeKey, &GradNode, &G) -> Result<Vec<G>, TensorError>,
    A: Fn(G, G) -> G,
 {
    &&& topo_order(g, nk, root, ov)
    &&& ins[root] == loss
    &&& forall|q: int|
        0 <= q < ov.len() && ov[q] != root && ov[q] != nk ==> sum_by(
            plus,
            arrivals(g, ov, outs, ov[q], q + 1),
            #[trigger] ins[ov[q]],
        )
    &&& forall|q: int|
        0 <= q < ov.len() && ov[q] != nk && is_operation(g[ov[q]]) ==> call_ensures(
            local,
            (NodeKey(ov[q]), &g[ov[q]], &ins[ov[q]]),
            Ok::<Vec<G>, TensorError>(#[trigger] outs[ov[q]]),
        )
}

/// Adding one more part to a sum.
proof fn lemma_sum_push<G, A: Fn(G, G) -> G>(plus: A, parts: Seq<G>, a: Option<G>, u: G, s: G)
    requires
        pending_ok(plus, a, parts),
        a is None ==> s == u,
        a matches Some(x) ==> call_ensures(plus, (x, u), s),
    ensures
        sum_by(plus, parts.push(u), s),
{
    let t = parts.push(u);
    if let Some(x) = a {
        let sums = choose|sums: Seq<G>| #[trigger] running_sums(plus, parts, sums) && sums.last() == x;
        let sums2 = sums.push(s);
        assert forall|i: int| 1 <= i < t.len() implies call_ensures(plus, (sums2[i - 1], t[i]), #[trigger] sums2[i]) by {
            if i < parts.len() {
                assert(sums2[i - 1] == sums[i - 1] && sums2[i] == sums[i] && t[i] == parts[i]);
            } else {
                assert(sums2[i - 1] == x && t[i] == u && sums2[i] == s);
            }
        }
        assert(running_sums(plus, t, sums2));
    } else {
        assert(t =~= seq![u]);
        let sums2 = seq![u];
        assert(running_sums(plus, t, sums2));
    }
}

/// Gradients handed out by nodes other than `c` do not depend on `outs[c]`.
proof fn lemma_arrivals_frame<G>(g: Map<u64, GradNode>, ov: Seq<u64>, outs: Map<u64, Vec<G>>, c: u64, v: Vec<G>, x: u64, p: int)
    requires
        forall|k: int| p <= k < ov.len() && 0 <= k ==> ov[k] != c,
    ensures
        arrivals(g, ov, outs.insert(c, v), x, p) == arrivals(g, ov, outs, x, p),
    decreases ov.len() - p,
{
    if 0 <= p < ov.len() {
        lemma_arrivals_frame(g, ov, outs, c, v, x, p + 1);
        assert(outs.insert(c, v)[ov[p]] == outs[ov[p]]);
    }
}

/// No node that `root` depends on has `root` as a parent (that would be a
/// cycle).
proof fn lemma_root_not_parent(g: Map<u64, GradNode>, nk: u64, root: u64, c: u64)
    requires
        reaches(g, nk, root, c),
        g.contains_key(c),
        !has_cycle_from(g, nk, root),
    ensures
        forall|j: int| 0 <= j < node_parents(g[c]).len() ==> node_parents(g[c])[j] != Some(NodeKey(root)),
{
    assert forall|j: int| 0 <= j < node_parents(g[c]).len() implies node_parents(g[c])[j] != Some(NodeKey(root)) by {
        if node_parents(g[c])[j] == Some(NodeKey(root)) {
            assert(parent_keys(g, nk, c)[j] == root);
            assert(is_edge(g, nk, c, root));
            let pth = choose|pth: Seq<u64>| #[trigger] is_path(g, nk, pth) && pth[0] == root && pth.last() == c;
            let q = pth.push(root);
            assert forall|i: int| 0 <= i < q.len() - 1 implies #[trigger] is_edge(g, nk, q[i], q[i + 1]) by {
                if i < pth.len() - 1 {
                    assert(q[i] == pth[i] && q[i + 1] == pth[i + 1]);
                    assert(is_edge(g, nk, pth[i], pth[i + 1]));
                }
            }
            assert(is_path(g, nk, q));
            lemma_reaches_self(g, nk, root);
            assert(has_cycle_from(g, nk, root));
        }
    }
}

/// The state of a backward pass over `ov` once the positions `i..` are
/// done: every pending gradient below `i` is the sum of what has arrived
/// (the root's is `loss`), and every node done has its gradient in `ins`,
/// the sum of what arrived at it (`loss` for the root), its outcome of
/// `local` in `outs` when it is an operation; `leaves` hold the gradients of
/// the parameters done.
#[verifier::opaque]
pub open spec fn run_inv<G, L, A>(
    g: Map<u64, GradNode>,
    nk: u64,
    root: u64,
    ov: Seq<u64>,
    loss: G,
    local: L,
    plus: A,
    outs: Map<u64, Vec<G>>,
    ins: Map<u64, G>,
    acc: Seq<Option<G>>,
    leaves: Seq<(NodeKey, G)>,
    rp: int,
    i: int,
) -> bool where
    L: Fn(NodeKey, &GradNode, &G) -> Result<Vec<G>, TensorError>,
    A: Fn(G, G) -> G,
 {
    &&& forall|q: int|
        0 <= q < i && ov[q] != nk && ov[q] != root ==> pending_ok(plus, #[trigger] acc[q], arrivals(g, ov, outs, ov[q], i))
    &&& rp < i ==> acc[rp] == Some(loss)
    &&& forall|q: int|
        i <= q < ov.len() && ov[q] != nk && ov[q] != root ==> sum_by(
            plus,
            arrivals(g, ov, outs, ov[q], q + 1),
            #[trigger] ins[ov[q]],
        )
    &&& ov.subrange(i, ov.len() as int).contains(root) ==> ins[root] == loss
    &&& forall|q: int|
        i <= q < ov.len() && ov[q] != nk && is_operation(g[ov[q]]) ==> call_ensures(
            local,
            (NodeKey(ov[q]), &g[ov[q]], &ins[ov[q]]),
            Ok::<Vec<G>, TensorError>(#[trigger] outs[ov[q]]),
        )
    &&& forall|t: int| 0 <= t < leaves.len() ==> #[trigger] leaves[t].1 == ins[leaves[t].0.0]
}

/// Before any node is done: only the root has a pending gradient, `loss`.
proof fn lemma_run_start<G, L, A>(
    g: Map<u64, GradNode>,
    nk: u64,
    root: u64,
    ov: Seq<u64>,
    loss: G,
    local: L,
    plus: A,
    acc: Seq<Option<G>>,
    rp: int,
) where
    L: Fn(NodeKey, &GradNode, &G) -> Result<Vec<G>, TensorError>,
    A: Fn(G, G) -> G,

    requires
        acc.len() == ov.len(),
        0 <= rp < ov.len(),
        ov[rp] == root,
        acc[rp] == Some(loss),
        forall|q: int| 0 <= q < acc.len() && q != rp ==> acc[q] is None,
    ensures
        run_inv(
            g,
            nk,
            root,
            ov,
            loss,
            local,
            plus,
            Map::empty(),
            Map::empty(),
            acc,
            Seq::empty(),
            rp,
            ov.len() as int,
        ),
{
    reveal(run_inv);
    let n = ov.len() as int;
    assert forall|q: int| 0 <= q < n && ov[q] != nk && ov[q] != root implies pending_ok(
        plus,
        #[trigger] acc[q],
        arrivals(g, ov, Map::<u64, Vec<G>>::empty(), ov[q], n),
    ) by {
        assert(q != rp);
    }
    assert(ov.subrange(n, n) =~= Seq::<u64>::empty());
}

/// What the pending gradient of a node about to be done is.
proof fn lemma_run_take<G, L, A>(
    g: Map<u64, GradNode>,
    nk: u64,
    root: u64,
    ov: Seq<u64>,
    loss: G,
    local: L,
    plus: A,
    outs: Map<u64, Vec<G>>,
    ins: Map<u64, G>,
    acc: Seq<Option<G>>,
    leaves: Seq<(NodeKey, G)>,
    rp: int,
    idx: int,
    d: G,
) where
    L: Fn(NodeKey, &GradNode, &G) -> Result<Vec<G>, TensorError>,
    A: Fn(G, G) -> G,

    requires
        run_inv(g, nk, root, ov, loss, local, plus, outs, ins, acc, leaves, rp, idx + 1),
        0 <= idx < ov.len(),
        ov.no_duplicates(),
        0 <= rp < ov.len(),
        ov[rp] == root,
        ov[idx] != nk,
        acc[idx] == Some(d),
    ensures
        ov[idx] == root ==> d == loss,
        ov[idx] != root ==> sum_by(plus, arrivals(g, ov, outs, ov[idx], idx + 1), d),
{
    reveal(run_inv);
    if ov[idx] == root {
        assert(rp == idx);
    } else {
        assert(pending_ok(plus, acc[idx], arrivals(g, ov, outs, ov[idx], idx + 1)));
    }
}

/// Doing a node without parents (a parameter, an input, or the
/// placeholder): nothing is handed out.
proof fn lemma_run_plain<G, L, A>(
    g: Map<u64, GradNode>,
    nk: u64,
    root: u64,
    ov: Seq<u64>,
    loss: G,
    local: L,
    plus: A,
    outs: Map<u64, Vec<G>>,
    ins: Map<u64, G>,
    acc: Seq<Option<G>>,
    leaves: Seq<(NodeKey, G)>,
    rp: int,
    idx: int,
    ins2: Map<u64, G>,
    acc2: Seq<Option<G>>,
    leaves2: Seq<(NodeKey, G)>,
) where
    L: Fn(NodeKey, &GradNode, &G) -> Result<Vec<G>, TensorError>,
    A: Fn(G, G) -> G,

    requires
        run_inv(g, nk, root, ov, loss, local, plus, outs, ins, acc, leaves, rp, idx + 1),
        0 <= idx < ov.len(),
        ov.no_duplicates(),
        0 <= rp < ov.len(),
        ov[rp] == root,
        node_parents(g[ov[idx]]).len() == 0,
        !is_operation(g[ov[idx]]),
        root != nk,
        acc.len() == ov.len(),
        acc2.len() == acc.len(),
        forall|q: int| 0 <= q < acc.len() && q != idx ==> acc2[q] == acc[q],
        ov[idx] == nk ==> ins2 == ins && leaves2 == leaves,
        ov[idx] != nk ==> exists|d: G|
            {
                &&& ins2 == ins.insert(ov[idx], d)
                &&& (ov[idx] == root ==> d == loss)
                &&& (ov[idx] != root ==> sum_by(plus, arrivals(g, ov, outs, ov[idx], idx + 1), d))
                &&& (leaves2 == leaves || leaves2 == leaves.push((NodeKey(ov[idx]), d)))
            },
        forall|t: int| 0 <= t < leaves.len() ==> leaves[t].0.0 != ov[idx],
    ensures
        run_inv(g, nk, root, ov, loss, local, plus, outs, ins2, acc2, leaves2, rp, idx),
{
    reveal(run_inv);
    let n = ov.len() as int;
    let key = ov[idx];
    assert forall|q: int| 0 <= q < idx && ov[q] != nk && ov[q] != root implies pending_ok(
        plus,
        #[trigger] acc2[q],
        arrivals(g, ov, outs, ov[q], idx),
    ) by {
        assert(arrivals(g, ov, outs, ov[q], idx) =~= arrivals(g, ov, outs, ov[q], idx + 1));
        assert(pending_ok(plus, acc[q], arrivals(g, ov, outs, ov[q], idx + 1)));
    }
    assert forall|q: int| idx <= q < n && ov[q] != nk && is_operation(g[ov[q]]) implies call_ensures(
        local,
        (NodeKey(ov[q]), &g[ov[q]], &ins2[ov[q]]),
        Ok::<Vec<G>, TensorError>(#[trigger] outs[ov[q]]),
    ) by {
        assert(q != idx);
        assert(ov[q] != key);
    }
    lemma_suffix_contains(ov, idx, n, root);
    if key != nk {
        let d = choose|d: G|
            {
                &&& ins2 == ins.insert(ov[idx], d)
                &&& (ov[idx] == root ==> d == loss)
                &&& (ov[idx] != root ==> sum_by(plus, arrivals(g, ov, outs, ov[idx], idx + 1), d))
                &&& (leaves2 == leaves || leaves2 == leaves.push((NodeKey(ov[idx]), d)))
            };
        assert forall|q: int| idx <= q < n && ov[q] != nk && ov[q] != root implies sum_by(
            plus,
            arrivals(g, ov, outs, ov[q], q + 1),
            #[trigger] ins2[ov[q]],
        ) by {
            if q > idx {
                assert(ov[q] != key);
            }
        }
        assert forall|t: int| 0 <= t < leaves2.len() implies #[trigger] leaves2[t].1 == ins2[leaves2[t].0.0] by {
            if t < leaves.len() {
                assert(leaves2[t] == leaves[t]);
            }
        }
    } else {
        assert forall|q: int| idx <= q < n && ov[q] != nk && ov[q] != root implies sum_by(
            plus,
            arrivals(g, ov, outs, ov[q], q + 1),
            #[trigger] ins2[ov[q]],
        ) by {
            assert(q > idx);
        }
    }
}

/// Before an operation hands out its gradients: what is pending below it
/// does not depend on what it hands out.
proof fn lemma_run_base<G, L, A>(
    g: Map<u64, GradNode>,
    nk: u64,
    root: u64,
    ov: Seq<u64>,
    loss: G,
    local: L,
    plus: A,
    outs: Map<u64, Vec<G>>,
    ins: Map<u64, G>,
    acc: Seq<Option<G>>,
    leaves: Seq<(NodeKey, G)>,
    rp: int,
    idx: int,
    ups: Vec<G>,
)
 where
    L: Fn(NodeKey, &GradNode, &G) -> Result<Vec<G>, TensorError>,
    A: Fn(G, G) -> G,

    requires
        run_inv(g, nk, root, ov, loss, local, plus, outs, ins, acc, leaves, rp, idx + 1),
        0 <= idx < ov.len(),
        ov.no_duplicates(),
    ensures
        forall|q: int|
            0 <= q < idx && ov[q] != nk && ov[q] != root ==> pending_ok(
                plus,
                #[trigger] acc[q],
                arrivals(g, ov, outs.insert(ov[idx], ups), ov[q], idx + 1),
            ),
{
    reveal(run_inv);
    assert forall|q: int| 0 <= q < idx && ov[q] != nk && ov[q] != root implies pending_ok(
        plus,
        #[trigger] acc[q],
        arrivals(g, ov, outs.insert(ov[idx], ups), ov[q], idx + 1),
    ) by {
        lemma_arrivals_frame(g, ov, outs, ov[idx], ups, ov[q], idx + 1);
    }
}

/// Doing an operation: its gradient `d` goes to `ins`, what it hands out
/// (`ups`, an outcome of `local` on `d`) to `outs`, and the pending
/// gradients of its parents grow by their share.
proof fn lemma_run_op<G, L, A>(
    g: Map<u64, GradNode>,
    nk: u64,
    root: u64,
    ov: Seq<u64>,
    loss: G,
    local: L,
    plus: A,
    outs: Map<u64, Vec<G>>,
    ins: Map<u64, G>,
    acc: Seq<Option<G>>,
    leaves: Seq<(NodeKey, G)>,
    rp: int,
    idx: int,
    d: G,
    ups: Vec<G>,
    acc2: Seq<Option<G>>,
)
 where
    L: Fn(NodeKey, &GradNode, &G) -> Result<Vec<G>, TensorError>,
    A: Fn(G, G) -> G,

    requires
        run_inv(g, nk, root, ov, loss, local, plus, outs, ins, acc, leaves, rp, idx + 1),
        0 <= idx < ov.len(),
        ov.no_duplicates(),
        0 <= rp < ov.len(),
        ov[rp] == root,
        ov[idx] != nk,
        is_operation(g[ov[idx]]),
        ov[idx] == root ==> d == loss,
        ov[idx] != root ==> sum_by(plus, arrivals(g, ov, outs, ov[idx], idx + 1), d),
        call_ensures(local, (NodeKey(ov[idx]), &g[ov[idx]], &d), Ok::<Vec<G>, TensorError>(ups)),
        acc.len() == ov.len(),
        acc2.len() == acc.len(),
        forall|q: int|
            0 <= q < idx && ov[q] != nk && ov[q] != root ==> pending_ok(
                plus,
                #[trigger] acc2[q],
                arrivals(g, ov, outs.insert(ov[idx], ups), ov[q], idx + 1) + picks(
                    ups@,
                    node_parents(g[ov[idx]]),
                    ov[q],
                    node_parents(g[ov[idx]]).len() as int,
                ),
            ),
        rp < idx ==> acc2[rp] == acc[rp],
        forall|t: int| 0 <= t < leaves.len() ==> leaves[t].0.0 != ov[idx],
    ensures
        run_inv(
            g,
            nk,
            root,
            ov,
            loss,
            local,
            plus,
            outs.insert(ov[idx], ups),
            ins.insert(ov[idx], d),
            acc2,
            leaves,
            rp,
            idx,
        ),
{
    reveal(run_inv);
    let n = ov.len() as int;
    let key = ov[idx];
    let outs2 = outs.insert(key, ups);
    let ins2 = ins.insert(key, d);
    assert forall|q: int| 0 <= q < idx && ov[q] != nk && ov[q] != root implies pending_ok(
        plus,
        #[trigger] acc2[q],
        arrivals(g, ov, outs2, ov[q], idx),
    ) by {
        assert(outs2[key] == ups);
        assert(arrivals(g, ov, outs2, ov[q], idx) == arrivals(g, ov, outs2, ov[q], idx + 1) + picks(
            ups@,
            node_parents(g[key]),
            ov[q],
            node_parents(g[key]).len() as int,
        ));
    }
    assert forall|q: int| idx <= q < n && ov[q] != nk && ov[q] != root implies sum_by(
        plus,
        arrivals(g, ov, outs2, ov[q], q + 1),
        #[trigger] ins2[ov[q]],
    ) by {
        lemma_arrivals_frame(g, ov, outs, key, ups, ov[q], q + 1);
        if q > idx {
            assert(ov[q] != key);
        }
    }
    assert forall|q: int| idx <= q < n && ov[q] != nk && is_operation(g[ov[q]]) implies call_ensures(
        local,
        (NodeKey(ov[q]), &g[ov[q]], &ins2[ov[q]]),
        Ok::<Vec<G>, TensorError>(#[trigger] outs2[ov[q]]),
    ) by {
        if q > idx {
            assert(ov[q] != key);
        }
    }
    lemma_suffix_contains(ov, idx, n, root);
    assert forall|t: int| 0 <= t < leaves.len() implies #[trigger] leaves[t].1 == ins2[leaves[t].0.0] by {
        assert(leaves[t].0.0 != key);
    }
}

/// Once every node is done, the pass is a backward run and the parameters'
/// gradients are their entries in `ins`.
proof fn lemma_run_end<G, L, A>(
    g: Map<u64, GradNode>,
    nk: u64,
    root: u64,
    ov: Seq<u64>,
    loss: G,
    local: L,
    plus: A,
    outs: Map<u64, Vec<G>>,
    ins: Map<u64, G>,
    acc: Seq<Option<G>>,
    leaves: Seq<(NodeKey, G)>,
    rp: int,
)
 where
    L: Fn(NodeKey, &GradNode, &G) -> Result<Vec<G>, TensorError>,
    A: Fn(G, G) -> G,

    requires
        run_inv(g, nk, root, ov, loss, local, plus, outs, ins, acc, leaves, rp, 0),
        topo_order(g, nk, root, ov),
        0 <= rp < ov.len(),
        ov[rp] == root,
    ensures
        backward_run(g, nk, root, ov, loss, local, plus, outs, ins),
        forall|t: int| 0 <= t < leaves.len() ==> leaves[t].1 == ins[leaves[t].0.0],
{
    reveal(run_inv);
    assert(ov.subrange(0, ov.len() as int) =~= ov);
    assert(ov.contains(root));
}

/// Replaces the gradient pending at `p`: `g` when there is none, else the
/// pending one plus `g` (by `plus`).
fn accumulate<G, A: Fn(G, G) -> G>(acc: &mut Vec<Option<G>>, p: usize, g: G, plus: &A)
    requires
        p < old(acc)@.len(),
        forall|a: G, b: G| call_requires(*plus, (a, b)),
    ensures
        final(acc)@.len() == old(acc)@.len(),
        final(acc)@[p as int] is Some,
        old(acc)@[p as int] is None ==> final(acc)@[p as int] == Some(g),
        old(acc)@[p as int] matches Some(a) ==> (final(acc)@[p as int] matches Some(s) && call_ensures(
            *plus,
            (a, g),
            s,
        )),
        forall|q: int| 0 <= q < old(acc)@.len() && q != p ==> final(acc)@[q] == old(acc)@[q],
{
    let cur = acc.remove(p);
    let next = match cur {
        Some(a) => plus(a, g),
        None => g,
    };
    acc.insert(p, Some(next));
}

/// Hands `ups[j]` to the tracked parent `parents[j]`, for each `j` in order:
/// it is added to the gradient pending at the parent's position in `order`.
/// Every position below `limit` whose pending gradient was the sum of
/// `base[q]` then holds the sum of `base[q]` followed by what it was handed.
fn propagate<G, A: Fn(G, G) -> G>(
    order: &Vec<NodeKey>,
    acc: &mut Vec<Option<G>>,
    parents: &Vec<MaybeNodeKey>,
    ups: Vec<G>,
    plus: &A,
    limit: usize,
    Ghost(base): Ghost<Seq<Seq<G>>>,
)
    requires
        old(acc)@.len() == order@.len(),
        ups@.len() == parents@.len(),
        key_values(order@).no_duplicates(),
        limit <= order@.len(),
        base.len() == order@.len(),
        forall|jj: int|
            0 <= jj < parents@.len() ==> (#[trigger] parents@[jj] matches Some(pk) ==> key_values(order@).contains(pk.0)
                && key_values(order@).index_of(pk.0) < limit),
        forall|a: G, b: G| call_requires(*plus, (a, b)),
    ensures
        final(acc)@.len() == old(acc)@.len(),
        forall|q: int| 0 <= q < old(acc)@.len() && old(acc)@[q] is Some ==> final(acc)@[q] is Some,
        forall|jj: int|
            0 <= jj < parents@.len() ==> (#[trigger] parents@[jj] matches Some(pk) ==> final(acc)@[key_values(
                order@,
            ).index_of(pk.0)] is Some),
        forall|q: int|
            0 <= q < limit && pending_ok(*plus, old(acc)@[q], base[q]) ==> pending_ok(
                *plus,
                final(acc)@[q],
                base[q] + picks(ups@, parents@, key_values(order@)[q], parents@.len() as int),
            ),
        forall|q: int|
            0 <= q < old(acc)@.len() && (forall|jj: int|
                0 <= jj < parents@.len() ==> parents@[jj] != Some(NodeKey(key_values(order@)[q])))
                ==> final(acc)@[q] == old(acc)@[q],
{
    let ghost ov = key_values(order@);
    let ghost ups0 = ups@;
    let mut ups = ups;
    let mut j: usize = 0;
    while j < parents.len()
        invariant
            j <= parents@.len(),
            ups@ == ups0.subrange(j as int, ups0.len() as int),
            ups0.len() == parents@.len(),
            acc@.len() == old(acc)@.len(),
            old(acc)@.len() == order@.len(),
            limit <= order@.len(),
            base.len() == order@.len(),
            ov == key_values(order@),
            ov.no_duplicates(),
            forall|jj: int|
                0 <= jj < parents@.len() ==> (#[trigger] parents@[jj] matches Some(pk) ==> ov.contains(pk.0)
                    && ov.index_of(pk.0) < limit),
            forall|a: G, b: G| call_requires(*plus, (a, b)),
            forall|q: int| 0 <= q < old(acc)@.len() && old(acc)@[q] is Some ==> acc@[q] is Some,
            forall|jj: int| 0 <= jj < j ==> (#[trigger] parents@[jj] matches Some(pk) ==> acc@[ov.index_of(pk.0)] is Some),
            forall|q: int|
                0 <= q < limit && pending_ok(*plus, old(acc)@[q], base[q]) ==> pending_ok(
                    *plus,
                    acc@[q],
                    base[q] + picks(ups0, parents@, ov[q], j as int),
                ),
            forall|q: int|
                0 <= q < old(acc)@.len() && (forall|jj: int| 0 <= jj < j ==> parents@[jj] != Some(NodeKey(ov[q])))
                    ==> acc@[q] == old(acc)@[q],
        decreases parents@.len() - j,
    {
        let gj = ups.remove(0);
        assert(gj == ups0[j as int]);
        let ghost before = acc@;
        match parents[j] {
            Some(pk) => {
                assert(parents@[j as int] matches Some(x) && x == pk);
                let pp = position_of(order, pk.0);
                proof {
                    assert(ov[pp as int] == pk.0);
                    assert(ov.index_of(pk.0) == pp);
                }
                accumulate(acc, pp, gj, plus);
                proof {
                    assert forall|q: int|
                        0 <= q < limit && pending_ok(*plus, old(acc)@[q], base[q]) implies pending_ok(
                            *plus,
                            acc@[q],
                            base[q] + picks(ups0, parents@, ov[q], j + 1),
                        ) by {
                        if q == pp {
                            assert(parents@[j as int] == Some(NodeKey(ov[q])));
                            assert(picks(ups0, parents@, ov[q], j + 1) == picks(ups0, parents@, ov[q], j as int).push(
                                ups0[j as int],
                            ));
                            lemma_sum_push(
                                *plus,
                                base[q] + picks(ups0, parents@, ov[q], j as int),
                                before[q],
                                gj,
                                acc@[q]->Some_0,
                            );
                            assert((base[q] + picks(ups0, parents@, ov[q], j as int)).push(gj) =~= base[q] + picks(
                                ups0,
                                parents@,
                                ov[q],
                                j + 1,
                            ));
                        } else {
                            assert(ov[q] != pk.0);
                            assert(parents@[j as int] != Some(NodeKey(ov[q])));
                            assert(picks(ups0, parents@, ov[q], j + 1) == picks(ups0, parents@, ov[q], j as int));
                        }
                    }
                    assert forall|q: int|
                        0 <= q < old(acc)@.len() && (forall|jj: int|
                            0 <= jj < j + 1 ==> parents@[jj] != Some(NodeKey(ov[q]))) implies acc@[q] == old(acc)@[q] by {
                        assert(parents@[j as int] != Some(NodeKey(ov[q])));
                        assert(q != pp);
                    }
                }
            },
            None => {
                proof {
                    assert forall|q: int|
                        0 <= q < limit && pending_ok(*plus, old(acc)@[q], base[q]) implies pending_ok(
                            *plus,
                            acc@[q],
                            base[q] + picks(ups0, parents@, ov[q], j + 1),
                        ) by {
                        assert(picks(ups0, parents@, ov[q], j + 1) == picks(ups0, parents@, ov[q], j as int));
                    }
                }
            },
        }
        j = j + 1;
    }
    assert(ups0.len() == parents@.len());
}

impl GradContext {
    /// The backward pass from the node `root`, whose gradient is `loss`.
    ///
    /// The nodes `root` depends on are visited children first (the reverse
    /// of `graph_toposort`). At each node the gradients handed to it are
    /// summed with `plus` in the order they arrived. A parameter (`Leaf`)
    /// keeps the sum: it is handed back with the node's key. An untracked
    /// input (`Input`) ignores it. Any other node is an operation: `local`
    /// turns the sum into one gradient per parent, each tracked parent
    /// receives its own, and the node leaves the graph.
    ///
    /// On success the pass is a `backward_run`: each parameter's gradient
    /// is the sum of the gradients handed to it, and each handed-out
    /// gradient is an outcome of `local` on the sum its operation received.
    ///
    /// Errors: `GradError` when a node reached from `root` is its own
    /// ancestor or is missing, or when `root` is not a loss (`L1`); any error
    /// of `local`, which ends the pass.
    #[verifier::rlimit(60)]
    pub fn backwards<G, L, A>(&mut self, root: NodeKey, loss: G, local: L, plus: A) -> (r: Result<
        Vec<(NodeKey, G)>,
        TensorError,
    >) where
        L: Fn(NodeKey, &GradNode, &G) -> Result<Vec<G>, TensorError>,
        A: Fn(G, G) -> G,

        requires
            old(self).wf(),
            forall|k: NodeKey, n: &GradNode, x: &G| call_requires(local, (k, n, x)),
            forall|k: NodeKey, n: &GradNode, x: &G, out: Result<Vec<G>, TensorError>|
                call_ensures(local, (k, n, x), out) ==> (out matches Ok(v) ==> v@.len() == node_parents(*n).len()),
            forall|a: G, b: G| call_requires(plus, (a, b)),
        ensures
            final(self).wf(),
            final(self).none_node == old(self).none_node,
            forall|k: u64|
                final(self).graph().contains_key(k) ==> old(self).graph().contains_key(k) && final(self).graph()[k]
                    == old(self).graph()[k],
            has_cycle_from(old(self).graph(), old(self).none_node.0, root.0) || has_missing_from(
                old(self).graph(),
                old(self).none_node.0,
                root.0,
            ) ==> (r matches Err(e) && e is GradError && final(self).graph() == old(self).graph()),
            !(has_cycle_from(old(self).graph(), old(self).none_node.0, root.0) || has_missing_from(
                old(self).graph(),
                old(self).none_node.0,
                root.0,
            )) && !(old(self).graph()[root.0] is L1) ==> (r matches Err(e) && e is GradError && final(self).graph()
                == old(self).graph()),
            !(has_cycle_from(old(self).graph(), old(self).none_node.0, root.0) || has_missing_from(
                old(self).graph(),
                old(self).none_node.0,
                root.0,
            )) && old(self).graph()[root.0] is L1 && (forall|k: NodeKey, n: &GradNode, x: &G, out: Result<
                Vec<G>,
                TensorError,
            >| call_ensures(local, (k, n, x), out) ==> out is Ok) ==> r is Ok,
            r matches Err(e) ==> (e is GradError || exists|k: NodeKey, n: &GradNode, x: &G|
                call_ensures(local, (k, n, x), Err::<Vec<G>, TensorError>(e))),
            r matches Ok(v) ==> exists|ov: Seq<u64>, outs: Map<u64, Vec<G>>, ins: Map<u64, G>|
                #[trigger] backward_run(
                    old(self).graph(),
                    old(self).none_node.0,
                    root.0,
                    ov,
                    loss,
                    local,
                    plus,
                    outs,
                    ins,
                ) && forall|t: int| 0 <= t < v@.len() ==> v@[t].1 == ins[v@[t].0.0],
            r matches Ok(v) ==> grad_keys(v@).no_duplicates() && (forall|k: u64|
                grad_keys(v@).contains(k) <==> reaches(old(self).graph(), old(self).none_node.0, root.0, k)
                    && old(self).graph().contains_key(k) && old(self).graph()[k] is Leaf) && (forall|k: u64|
                final(self).graph().contains_key(k) <==> old(self).graph().contains_key(k) && !consumed(
                    old(self).graph(),
                    old(self).none_node.0,
                    root.0,
                    k,
                )),
    {
        let ghost g = self.graph();
        let nk = self.none_node.0;
        let rt = root.0;
        let order = match self.graph_toposort(Some(root)) {
            Ok(o) => o,
            Err(e) => {
                return Err(e);
            },
        };
        let ghost ov = key_values(order@);
        let is_loss = match self.lookup(rt) {
            Some(GradNode::L1 { .. }) => true,
            _ => false,
        };
        proof {
            lemma_reaches_self(g, nk, rt);
            assert(ov.contains(rt));
        }
        if !is_loss {
            return Err(TensorError::GradError(msg("root node does not contain a loss")));
        }
        let n = order.len();
        let mut acc: Vec<Option<G>> = Vec::new();
        let mut k: usize = 0;
        while k < n
            invariant
                k <= n,
                acc@.len() == k,
                forall|q: int| 0 <= q < k ==> acc@[q] is None,
            decreases n - k,
        {
            acc.push(None);
            k = k + 1;
        }
        let rp = position_of(&order, rt);
        let ghost loss0 = loss;
        acc.set(rp, Some(loss));
        let ghost mut outs: Map<u64, Vec<G>> = Map::empty();
        let ghost mut ins: Map<u64, G> = Map::empty();
        proof {
            lemma_run_start(g, nk, rt, ov, loss0, local, plus, acc@, rp as int);
        }
        proof {
            assert forall|q: int|
                0 <= q < n && (ov[q] == rt || (ov[q] != nk && exists|p: int|
                    n <= p < n && #[trigger] is_edge(g, nk, ov[p], ov[q]))) implies acc@[q] is Some by {
                if ov[q] == rt {
                    assert(ov[rp as int] == rt);
                    assert(q == rp);
                }
            }
        }
        let mut leaves: Vec<(NodeKey, G)> = Vec::new();
        let mut i: usize = n;
        assert(ov.subrange(n as int, n as int) =~= Seq::<u64>::empty());
        assert(grad_keys(leaves@) =~= Seq::<u64>::empty());
        while i > 0
            invariant
                self.wf(),
                self.none_node.0 == nk,
                g == old(self).graph(),
                old(self).none_node.0 == nk,
                self.none_node == old(self).none_node,
                rt == root.0,
                !(has_cycle_from(g, nk, rt) || has_missing_from(g, nk, rt)),
                g[rt] is L1,
                forall|k: NodeKey, n: &GradNode, x: &G| call_requires(local, (k, n, x)),
                forall|k: NodeKey, n: &GradNode, x: &G, out: Result<Vec<G>, TensorError>|
                    call_ensures(local, (k, n, x), out) ==> (out matches Ok(v) ==> v@.len() == node_parents(*n).len()),
                forall|a: G, b: G| call_requires(plus, (a, b)),
                n == order@.len(),
                ov == key_values(order@),
                topo_order(g, nk, rt, ov),
                i <= n,
                acc@.len() == n,
                forall|x: u64|
                    self.graph().contains_key(x) <==> g.contains_key(x) && !(ov.subrange(i as int, n as int).contains(x)
                        && is_operation(g[x])),
                forall|x: u64| self.graph().contains_key(x) ==> self.graph()[x] == g[x],
                forall|q: int|
                    0 <= q < i && (ov[q] == rt || (ov[q] != nk && exists|p: int|
                        i <= p < n && #[trigger] is_edge(g, nk, ov[p], ov[q]))) ==> acc@[q] is Some,
                rp < n,
                ov[rp as int] == rt,
                run_inv(g, nk, rt, ov, loss0, local, plus, outs, ins, acc@, leaves@, rp as int, i as int),
                grad_keys(leaves@).no_duplicates(),
                forall|x: u64|
                    #![trigger grad_keys(leaves@).contains(x)]
                    grad_keys(leaves@).contains(x) <==> ov.subrange(i as int, n as int).contains(x) && g.contains_key(x)
                        && g[x] is Leaf,
            decreases i,
        {
            let idx = i - 1;
            let key = order[idx].0;
            proof {
                assert(ov[idx as int] == key);
                assert(ov.subrange(idx as int, n as int) =~= seq![key] + ov.subrange(i as int, n as int));
                assert(!ov.subrange(i as int, n as int).contains(key));
                assert(g.contains_key(key));
            }
            if key == nk {
                proof {
                    assert(g[nk] is Input);
                    assert(!is_operation(g[nk]));
                    assert forall|x: u64|
                        self.graph().contains_key(x) <==> g.contains_key(x) && !(ov.subrange(
                            idx as int,
                            n as int,
                        ).contains(x) && is_operation(g[x])) by {
                        lemma_suffix_contains(ov, idx as int, n as int, x);
                    }
                    assert forall|x: u64|
                        grad_keys(leaves@).contains(x) <==> ov.subrange(idx as int, n as int).contains(x)
                            && g.contains_key(x) && g[x] is Leaf by {
                        lemma_suffix_contains(ov, idx as int, n as int, x);
                        assert(ov[idx as int] == nk);
                        assert(!(g[nk] is Leaf));
                        if x != nk {
                            assert(grad_keys(leaves@).contains(x) <==> ov.subrange(i as int, n as int).contains(x)
                                && g.contains_key(x) && g[x] is Leaf);
                        } else {
                            assert(!grad_keys(leaves@).contains(x));
                        }
                    }
                    assert forall|q: int|
                        0 <= q < idx && (ov[q] == rt || (ov[q] != nk && exists|p: int|
                            idx <= p < n && #[trigger] is_edge(g, nk, ov[p], ov[q]))) implies acc@[q] is Some by {
                        if ov[q] != rt {
                            let p = choose|p: int| idx <= p < n && #[trigger] is_edge(g, nk, ov[p], ov[q]);
                            if p == idx {
                                assert(parent_keys(g, nk, nk).len() == 0);
                            }
                        }
                    }
                }
                proof {
                    assert(node_parents(g[nk]).len() == 0);
                    assert forall|t: int| 0 <= t < leaves@.len() implies leaves@[t].0.0 != nk by {
                        assert(grad_keys(leaves@)[t] == leaves@[t].0.0);
                        assert(grad_keys(leaves@).contains(leaves@[t].0.0));
                    }
                    lemma_run_plain(
                        g,
                        nk,
                        rt,
                        ov,
                        loss0,
                        local,
                        plus,
                        outs,
                        ins,
                        acc@,
                        leaves@,
                        rp as int,
                        idx as int,
                        ins,
                        acc@,
                        leaves@,
                    );
                }
                i = idx;
                continue;
            }
            // the gradients handed to this node
            proof {
                if key != rt {
                    lemma_has_child(g, nk, rt, ov, idx as int);
                }
            }
            let ghost acc_before = acc@;
            let cur = acc.remove(idx);
            acc.insert(idx, None);
            let dldy = match cur {
                Some(x) => x,
                None => {
                    proof {
                        assert(false);
                    }
                    return Err(TensorError::GradError(msg("node reached without a gradient")));
                },
            };
            let node = match self.lookup(key) {
                Some(nd) => nd,
                None => {
                    proof {
                        assert(false);
                    }
                    return Err(TensorError::GradError(msg("node not found during backward pass")));
                },
            };
            let ghost before_leaves = leaves@;
            let ghost before_acc = acc@;
            let ghost ins_old = ins;
            let ghost outs_old = outs;
            proof {
                assert(cur == acc_before[idx as int]);
                lemma_run_take(
                    g,
                    nk,
                    rt,
                    ov,
                    loss0,
                    local,
                    plus,
                    outs,
                    ins,
                    acc_before,
                    leaves@,
                    rp as int,
                    idx as int,
                    dldy,
                );
                ins = ins.insert(key, dldy);
                assert(node == &g[key]);
                assert forall|t: int| 0 <= t < before_leaves.len() implies before_leaves[t].0.0 != key by {
                    assert(grad_keys(before_leaves)[t] == before_leaves[t].0.0);
                    assert(grad_keys(before_leaves).contains(before_leaves[t].0.0));
                }
            }
            if node.is_leaf() {
                leaves.push((NodeKey(key), dldy));
                proof {
                    assert(grad_keys(leaves@) =~= grad_keys(before_leaves).push(key));
                    assert(node_parents(g[key]).len() == 0);
                    lemma_run_plain(
                        g,
                        nk,
                        rt,
                        ov,
                        loss0,
                        local,
                        plus,
                        outs,
                        ins_old,
                        acc_before,
                        before_leaves,
                        rp as int,
                        idx as int,
                        ins,
                        acc@,
                        leaves@,
                    );
                }
            } else if node.is_input() {
                proof {
                    assert(node_parents(g[key]).len() == 0);
                    lemma_run_plain(
                        g,
                        nk,
                        rt,
                        ov,
                        loss0,
                        local,
                        plus,
                        outs,
                        ins_old,
                        acc_before,
                        before_leaves,
                        rp as int,
                        idx as int,
                        ins,
                        acc@,
                        leaves@,
                    );
                }
            } else {
                let parents = node.parents();
                let res = local(NodeKey(key), node, &dldy);
                let mut ups = match res {
                    Ok(u) => u,
                    Err(e) => {
                        proof {
                            assert(call_ensures(local, (NodeKey(key), node, &dldy), Err::<Vec<G>, TensorError>(e)));
                        }
                        return Err(e);
                    },
                };
                proof {
                    assert forall|jj: int| 0 <= jj < parents@.len() implies (#[trigger] parents@[jj] matches Some(
                        pk,
                    ) ==> ov.contains(pk.0)) by {
                        if let Some(pk) = parents@[jj] {
                            assert(parent_keys(g, nk, key)[jj] == pk.0);
                            assert(parent_keys(g, nk, key).contains(pk.0));
                            assert(is_edge(g, nk, key, pk.0));
                            assert(ov.contains(key));
                            lemma_reaches_step(g, nk, rt, key, pk.0);
                        }
                    }
                }
                let ghost ups0 = ups;
                proof {
                    assert(res == Ok::<Vec<G>, TensorError>(ups0));
                    assert forall|jj: int| 0 <= jj < parents@.len() implies (#[trigger] parents@[jj] matches Some(
                        pk,
                    ) ==> ov.index_of(pk.0) < idx) by {
                        if let Some(pk) = parents@[jj] {
                            assert(parent_keys(g, nk, key)[jj] == pk.0);
                            assert(parent_keys(g, nk, key).contains(pk.0));
                            assert(is_edge(g, nk, key, pk.0));
                            let pp = ov.index_of(pk.0);
                            assert(ov[pp] == pk.0);
                            assert(is_edge(g, nk, ov[idx as int], ov[pp]));
                        }
                    }
                    lemma_run_base(
                        g,
                        nk,
                        rt,
                        ov,
                        loss0,
                        local,
                        plus,
                        outs_old,
                        ins_old,
                        acc_before,
                        before_leaves,
                        rp as int,
                        idx as int,
                        ups0,
                    );
                }
                let ghost base = Seq::new(
                    n as nat,
                    |q: int| arrivals(g, ov, outs_old.insert(key, ups0), ov[q], i as int),
                );
                proof {
                    assert forall|q: int| 0 <= q < idx && ov[q] != nk && ov[q] != rt implies pending_ok(
                        plus,
                        acc@[q],
                        base[q],
                    ) by {
                        assert(acc@[q] == acc_before[q]);
                    }
                }
                let ghost acc_mid = acc@;
                propagate(&order, &mut acc, &parents, ups, &plus, idx, Ghost(base));
                proof {
                    assert(ov.contains(key));
                    lemma_root_not_parent(g, nk, rt, key);
                    if rp < idx {
                        assert(forall|jj: int|
                            0 <= jj < parents@.len() ==> parents@[jj] != Some(NodeKey(ov[rp as int])));
                        assert(acc@[rp as int] == acc_mid[rp as int]);
                    }
                    assert forall|q: int| 0 <= q < idx && ov[q] != nk && ov[q] != rt implies pending_ok(
                        plus,
                        #[trigger] acc@[q],
                        arrivals(g, ov, outs_old.insert(key, ups0), ov[q], idx + 1) + picks(
                            ups0@,
                            node_parents(g[key]),
                            ov[q],
                            node_parents(g[key]).len() as int,
                        ),
                    ) by {
                        assert(pending_ok(plus, acc_mid[q], base[q]));
                    }
                    assert(call_ensures(local, (NodeKey(key), &g[key], &dldy), Ok::<Vec<G>, TensorError>(ups0)));
                    lemma_run_op(
                        g,
                        nk,
                        rt,
                        ov,
                        loss0,
                        local,
                        plus,
                        outs_old,
                        ins_old,
                        acc_before,
                        before_leaves,
                        rp as int,
                        idx as int,
                        dldy,
                        ups0,
                        acc@,
                    );
                    outs = outs_old.insert(key, ups0);
                }
                proof {
                    assert forall|q: int|
                        0 <= q < idx && ov[q] != nk && #[trigger] is_edge(g, nk, ov[idx as int], ov[q]) implies acc@[q] is Some by {
                        let pks = parent_keys(g, nk, key);
                        assert(pks.contains(ov[q]));
                        let jj = choose|jj: int| 0 <= jj < pks.len() && pks[jj] == ov[q];
                        assert(resolve(parents@[jj], nk) == ov[q]);
                        assert(parents@[jj] is Some);
                        assert(ov.index_of(ov[q]) == q);
                    }
                }
                self.nodes.remove(key);
            }
            proof {
                if g[key] is Leaf {
                    lemma_push_key(grad_keys(before_leaves), key);
                    assert(!grad_keys(before_leaves).contains(key));
                } else {
                    assert(leaves@ == before_leaves);
                }
                assert forall|x: u64|
                    self.graph().contains_key(x) <==> g.contains_key(x) && !(ov.subrange(idx as int, n as int).contains(
                        x,
                    ) && is_operation(g[x])) by {
                    lemma_suffix_contains(ov, idx as int, n as int, x);
                }
                assert forall|x: u64|
                    grad_keys(leaves@).contains(x) <==> ov.subrange(idx as int, n as int).contains(x) && g.contains_key(x)
                        && g[x] is Leaf by {
                    lemma_suffix_contains(ov, idx as int, n as int, x);
                    assert(grad_keys(before_leaves).contains(x) <==> ov.subrange(i as int, n as int).contains(x)
                        && g.contains_key(x) && g[x] is Leaf);
                }
                assert forall|q: int|
                    0 <= q < idx && (ov[q] == rt || (ov[q] != nk && exists|p: int|
                        idx <= p < n && #[trigger] is_edge(g, nk, ov[p], ov[q]))) implies acc@[q] is Some by {
                    if ov[q] != rt {
                        let p = choose|p: int| idx <= p < n && #[trigger] is_edge(g, nk, ov[p], ov[q]);
                        if p == idx {
                            if g[key] is Leaf || g[key] is Input {
                                assert(parent_keys(g, nk, key).len() == 0);
                            }
                        }
                    }
                }
            }
            i = idx;
        }
        proof {
            assert(ov.subrange(0, n as int) =~= ov);
            assert(i == 0);
            assert forall|x: u64|
                grad_keys(leaves@).contains(x) <==> reaches(g, nk, rt, x) && g.contains_key(x) && g[x] is Leaf by {
                assert(ov.contains(x) <==> reaches(g, nk, rt, x));
                assert(ov.subrange(i as int, n as int).contains(x) <==> ov.contains(x));
                assert(grad_keys(leaves@).contains(x) <==> ov.subrange(i as int, n as int).contains(x)
                    && g.contains_key(x) && g[x] is Leaf);
            }
            assert forall|x: u64| self.graph().contains_key(x) <==> g.contains_key(x) && !consumed(g, nk, rt, x) by {
                assert(ov.contains(x) <==> reaches(g, nk, rt, x));
            }
            lemma_run_end(g, nk, rt, ov, loss0, local, plus, outs, ins, acc@, leaves@, rp as int);
        }
        Ok(leaves)
    }
}

/// The vector built by writing `i` at position `dims[i]` for each `i < k`
/// in turn, over zeros: entry `d` is the last `i < k` with `dims[i] == d`,
/// or 0 when there is none.
pub open spec fn written_inverse(dims: Seq<usize>, k: int) -> Seq<usize>
    decreases k,
{
    if k <= 0 {
        Seq::new(dims.len(), |d: int| 0usize)
    } else {
        written_inverse(dims, k - 1).update(dims[k - 1] as int, (k - 1) as usize)
    }
}

proof fn lemma_written_inverse_len(dims: Seq<usize>, k: int)
    requires
        0 <= k <= dims.len(),
        forall|i: int| 0 <= i < dims.len() ==> dims[i] < dims.len(),
    ensures
        written_inverse(dims, k).len() == dims.len(),
    decreases k,
{
    if k > 0 {
        lemma_written_inverse_len(dims, k - 1);
    }
}

/// Written over a whole permutation, entry `dims[i]` is `i`.
proof fn lemma_written_inverse_entries(dims: Seq<usize>, k: int)
    requires
        0 <= k <= dims.len(),
        dims.len() <= usize::MAX,
        is_perm(dims, dims.len() as int),
    ensures
        written_inverse(dims, k).len() == dims.len(),
        forall|i: int| 0 <= i < k ==> #[trigger] written_inverse(dims, k)[dims[i] as int] == i,
    decreases k,
{
    if k > 0 {
        lemma_written_inverse_entries(dims, k - 1);
        let w = written_inverse(dims, k);
        let prev = written_inverse(dims, k - 1);
        let n = dims.len() as int;
        assert(dims[k - 1] < n);
        assert forall|i: int| 0 <= i < k implies #[trigger] w[dims[i] as int] == i by {
            assert(dims[i] < n);
            if i < k - 1 {
                assert(dims[i] != dims[k - 1]);
                assert(prev[dims[i] as int] == i);
            }
        }
    } else {
        assert(written_inverse(dims, 0).len() == dims.len());
    }
}

/// Over a permutation, the written vector is the inverse permutation: it
/// sends `dims[i]` back to `i`, and it is a permutation too.
pub proof fn lemma_written_inverse_of_perm(dims: Seq<usize>)
    requires
        is_perm(dims, dims.len() as int),
        dims.len() <= usize::MAX,
    ensures
        is_perm(written_inverse(dims, dims.len() as int), dims.len() as int),
        forall|i: int| 0 <= i < dims.len() ==> #[trigger] written_inverse(dims, dims.len() as int)[dims[i] as int] == i,
{
    let n = dims.len() as int;
    lemma_written_inverse_entries(dims, n);
    let w = written_inverse(dims, n);
    assert forall|d: int| 0 <= d < n implies #[trigger] perm_hits(w, n, d) by {
        assert(dims[d] < n);
        assert(w[dims[d] as int] == d);
    }
    assert forall|k: int| 0 <= k < n implies w[k] < n by {
        assert(perm_hits(dims, n, k));
        let i = choose|i: int| 0 <= i < n && dims[i] == k;
        assert(w[dims[i] as int] == i);
    }
    assert forall|k1: int, k2: int| 0 <= k1 < n && 0 <= k2 < n && k1 != k2 implies w[k1] != w[k2] by {
        assert(perm_hits(dims, n, k1));
        assert(perm_hits(dims, n, k2));
        let i1 = choose|i: int| 0 <= i < n && dims[i] == k1;
        let i2 = choose|i: int| 0 <= i < n && dims[i] == k2;
        assert(w[dims[i1] as int] == i1);
        assert(w[dims[i2] as int] == i2);
    }
}

impl GradNode {
    /// The gradient of a permutation's input: the upstream gradient laid out
    /// by the inverse permutation (the vector built by writing `i` at
    /// position `dims[i]`), over a copy of its buffer.
    ///
    /// Errors: `UnsupportedOperation` when the node is not a permutation;
    /// `WrongDims` or `InvalidDim` when the inverse does not fit the upstream
    /// gradient (as `permute` reports them).
    pub fn backwards_permute<T: Copy>(&self, upstream: &TensorBase<T>) -> (r: Result<Vec<TensorBase<T>>, TensorError>)
        requires
            upstream.wf(),
            self matches GradNode::Permute { dims, .. } ==> forall|i: int| 0 <= i < dims@.len() ==> #[trigger] dims@[i] < dims@.len(),
        ensures
            !(self is Permute) ==> (r matches Err(e) && e is UnsupportedOperation),
            self matches GradNode::Permute { dims, .. } ==> {
                let w = written_inverse(dims@, dims@.len() as int);
                &&& w.len() != upstream.spec_shape().len() ==> (r matches Err(e) && e is WrongDims)
                &&& w.len() == upstream.spec_shape().len() && !is_perm(w, w.len() as int) ==> (r matches Err(e)
                    && e is InvalidDim)
                &&& is_perm(w, upstream.spec_shape().len() as int) ==> (r matches Ok(v) && v@.len() == 1 && v@[0].wf()
                    && v@[0].data() == upstream.data() && v@[0].spec_shape() == permuted(upstream.spec_shape(), w)
                    && v@[0].spec_strides() == permuted(upstream.spec_strides(), w) && v@[0].spec_offset()
                    == upstream.spec_offset())
                &&& is_perm(dims@, dims@.len() as int) ==> is_perm(w, dims@.len() as int) && forall|i: int|
                    0 <= i < dims@.len() ==> #[trigger] w[dims@[i] as int] == i
            },
    {
        let dims = match self {
            GradNode::Permute { dims, .. } => dims,
            _ => {
                return Err(TensorError::UnsupportedOperation(msg("invalid node type passed to permute backwards")));
            },
        };
        let n = dims.len();
        let mut inverse: Vec<usize> = Vec::new();
        let mut k: usize = 0;
        while k < n
            invariant
                k <= n,
                inverse@ == Seq::new(k as nat, |d: int| 0usize),
            decreases n - k,
        {
            inverse.push(0);
            k = k + 1;
            assert(inverse@ =~= Seq::new(k as nat, |d: int| 0usize));
        }
        let mut i: usize = 0;
        while i < n
            invariant
                n == dims@.len(),
                i <= n,
                forall|j: int| 0 <= j < dims@.len() ==> #[trigger] dims@[j] < dims@.len(),
                inverse@ == written_inverse(dims@, i as int),
            decreases n - i,
        {
            proof {
                lemma_written_inverse_len(dims@, i as int);
            }
            let d = dims[i];
            inverse.set(d, i);
            i = i + 1;
        }
        proof {
            lemma_written_inverse_len(dims@, n as int);
            if is_perm(dims@, n as int) {
                lemma_written_inverse_of_perm(dims@);
            }
        }
        let idx = Idx::Coord(inverse);
        let v = match upstream.permute(&idx) {
            Ok(v) => v,
            Err(e) => {
                return Err(e);
            },
        };
        proof {
            use_type_invariant(&v);
        }
        let meta = v.meta().clone_meta();
        let copy = upstream.owned_copy();
        let grad = TensorBase::from_parts(copy.buf, meta);
        let mut out: Vec<TensorBase<T>> = Vec::new();
        out.push(grad);
        Ok(out)
    }
}

} // verus!

//! The autograd graph: nodes and their parents, the node store, the
//! topological order of the nodes a result depends on, its Graphviz rendering,
//! and the switch that turns gradient tracking on and off.
use vstd::prelude::*;
use crate::access::{reversed_dims, reversed_dims_vec, AsTensor, AsView, TensorAccess};
use crate::error::{msg, TensorError};
use crate::meta::{is_row_major, sizes_fit, Idx, MetaTensor};
use crate::sums::{is_perm, permuted};
use crate::tensor::{index_computable, read_result, TensorBase, TensorView};

verus! {

broadcast use crate::tensor::group_tensor_parts;

/// Key of a node in the gradient graph (its slot index and version).
#[derive(Clone, Copy, Debug, PartialEq, Eq, Structural)]
pub struct NodeKey(pub u64);

/// The node a tensor was produced by, if it is tracked.
pub type MaybeNodeKey = Option<NodeKey>;

/// One operation of the gradient graph and the nodes of its inputs.
#[derive(Debug)]
pub enum GradNode {
    /// A parameter that accumulates a gradient.
    Leaf,
    /// An input that needs no gradient.
    Input,
    BroadcastAdd { left: MaybeNodeKey, right: MaybeNodeKey },
    BroadcastSub { left: MaybeNodeKey, right: MaybeNodeKey },
    BroadcastMul { left: MaybeNodeKey, right: MaybeNodeKey },
    BroadcastDiv { left: MaybeNodeKey, right: MaybeNodeKey },
    AddScalar { input: MaybeNodeKey },
    MulScalar { input: MaybeNodeKey },
    DivScalar { input: MaybeNodeKey },
    Abs { input: MaybeNodeKey },
    ReLU { input: MaybeNodeKey },
    Sigmoid { input: MaybeNodeKey },
    Negate { input: MaybeNodeKey },
    Sqrt { input: MaybeNodeKey },
    Ln { input: MaybeNodeKey },
    Sin { input: MaybeNodeKey },
    Cos { input: MaybeNodeKey },
    Tan { input: MaybeNodeKey },
    Tanh { input: MaybeNodeKey },
    Exp { input: MaybeNodeKey },
    Square { input: MaybeNodeKey },
    Cube { input: MaybeNodeKey },
    Reciprocal { input: MaybeNodeKey },
    Rsqrt { input: MaybeNodeKey },
    Sinh { input: MaybeNodeKey },
    Cosh { input: MaybeNodeKey },
    ExpM1 { input: MaybeNodeKey },
    Ln1p { input: MaybeNodeKey },
    MatMul { left: MaybeNodeKey, right: MaybeNodeKey },
    Permute { input: MaybeNodeKey, dims: Vec<usize> },
    L1 { input: MaybeNodeKey, target: MaybeNodeKey },
}

/// The inputs of a node, in order (left before right, input before target).
pub open spec fn node_parents(n: GradNode) -> Seq<MaybeNodeKey> {
    match n {
        GradNode::Leaf => seq![],
        GradNode::Input => seq![],
        GradNode::BroadcastAdd { left, right } => seq![left, right],
        GradNode::BroadcastSub { left, right } => seq![left, right],
        GradNode::BroadcastMul { left, right } => seq![left, right],
        GradNode::BroadcastDiv { left, right } => seq![left, right],
        GradNode::MatMul { left, right } => seq![left, right],
        GradNode::L1 { input, target } => seq![input, target],
        GradNode::AddScalar { input } => seq![input],
        GradNode::MulScalar { input } => seq![input],
        GradNode::DivScalar { input } => seq![input],
        GradNode::Abs { input } => seq![input],
        GradNode::ReLU { input } => seq![input],
        GradNode::Sigmoid { input } => seq![input],
        GradNode::Negate { input } => seq![input],
        GradNode::Sqrt { input } => seq![input],
        GradNode::Ln { input } => seq![input],
        GradNode::Sin { input } => seq![input],
        GradNode::Cos { input } => seq![input],
        GradNode::Tan { input } => seq![input],
        GradNode::Tanh { input } => seq![input],
        GradNode::Exp { input } => seq![input],
        GradNode::Square { input } => seq![input],
        GradNode::Cube { input } => seq![input],
        GradNode::Reciprocal { input } => seq![input],
        GradNode::Rsqrt { input } => seq![input],
        GradNode::Sinh { input } => seq![input],
        GradNode::Cosh { input } => seq![input],
        GradNode::ExpM1 { input } => seq![input],
        GradNode::Ln1p { input } => seq![input],
        GradNode::Permute { input, .. } => seq![input],
    }
}

/// The record label of a node in the Graphviz rendering.
pub open spec fn node_label(n: GradNode) -> Seq<char> {
    match n {
        GradNode::Leaf => "{Leaf|requires_grad=true}"@,
        GradNode::Input => "{Leaf|requires_grad=false}"@,
        GradNode::BroadcastAdd { .. } => "{BroadcastAdd}"@,
        GradNode::BroadcastSub { .. } => "{BroadcastSub}"@,
        GradNode::BroadcastMul { .. } => "{BroadcastMul}"@,
        GradNode::BroadcastDiv { .. } => "{BroadcastDiv}"@,
        GradNode::AddScalar { .. } => "{AddScalar}"@,
        GradNode::MulScalar { .. } => "{MulScalar}"@,
        GradNode::DivScalar { .. } => "{DivScalar}"@,
        GradNode::Abs { .. } => "{Abs}"@,
        GradNode::ReLU { .. } => "{ReLU}"@,
        GradNode::Sigmoid { .. } => "{Sigmoid}"@,
        GradNode::Negate { .. } => "{Negate}"@,
        GradNode::Sqrt { .. } => "{Sqrt}"@,
        GradNode::Ln { .. } => "{Ln}"@,
        GradNode::Sin { .. } => "{Sin}"@,
        GradNode::Cos { .. } => "{Cos}"@,
        GradNode::Tan { .. } => "{Tan}"@,
        GradNode::Tanh { .. } => "{Tanh}"@,
        GradNode::Exp { .. } => "{Exp}"@,
        GradNode::Square { .. } => "{Square}"@,
        GradNode::Cube { .. } => "{Cube}"@,
        GradNode::Reciprocal { .. } => "{Reciprocal}"@,
        GradNode::Rsqrt { .. } => "{Rsqrt}"@,
        GradNode::Sinh { .. } => "{Sinh}"@,
        GradNode::Cosh { .. } => "{Cosh}"@,
        GradNode::ExpM1 { .. } => "{ExpM1}"@,
        GradNode::Ln1p { .. } => "{Ln1p}"@,
        GradNode::MatMul { .. } => "{MatMul}"@,
        GradNode::Permute { .. } => "{Permute}"@,
        GradNode::L1 { .. } => "{L1Loss}"@,
    }
}

impl GradNode {
    /// Whether the node is a parameter leaf.
    pub fn is_leaf(&self) -> (b: bool)
        ensures
            b == (*self is Leaf),
    {
        match self {
            GradNode::Leaf => true,
            _ => false,
        }
    }

    /// Whether the node is an untracked input.
    pub fn is_input(&self) -> (b: bool)
        ensures
            b == (*self is Input),
    {
        match self {
            GradNode::Input => true,
            _ => false,
        }
    }

    /// The node keys of the inputs, in order.
    pub fn parents(&self) -> (ps: Vec<MaybeNodeKey>)
        ensures
            ps@ == node_parents(*self),
    {
        let ps = match self {
            GradNode::Leaf | GradNode::Input => vec![],
            GradNode::BroadcastAdd { left, right } => vec![*left, *right],
            GradNode::BroadcastSub { left, right } => vec![*left, *right],
            GradNode::BroadcastMul { left, right } => vec![*left, *right],
            GradNode::BroadcastDiv { left, right } => vec![*left, *right],
            GradNode::MatMul { left, right } => vec![*left, *right],
            GradNode::L1 { input, target } => vec![*input, *target],
            GradNode::AddScalar { input } => vec![*input],
            GradNode::MulScalar { input } => vec![*input],
            GradNode::DivScalar { input } => vec![*input],
            GradNode::Abs { input } => vec![*input],
            GradNode::ReLU { input } => vec![*input],
            GradNode::Sigmoid { input } => vec![*input],
            GradNode::Negate { input } => vec![*input],
            GradNode::Sqrt { input } => vec![*input],
            GradNode::Ln { input } => vec![*input],
            GradNode::Sin { input } => vec![*input],
            GradNode::Cos { input } => vec![*input],
            GradNode::Tan { input } => vec![*input],
            GradNode::Tanh { input } => vec![*input],
            GradNode::Exp { input } => vec![*input],
            GradNode::Square { input } => vec![*input],
            GradNode::Cube { input } => vec![*input],
            GradNode::Reciprocal { input } => vec![*input],
            GradNode::Rsqrt { input } => vec![*input],
            GradNode::Sinh { input } => vec![*input],
            GradNode::Cosh { input } => vec![*input],
            GradNode::ExpM1 { input } => vec![*input],
            GradNode::Ln1p { input } => vec![*input],
            GradNode::Permute { input, .. } => vec![*input],
        };
        assert(ps@ =~= node_parents(*self));
        ps
    }

    /// The record label of the node in the Graphviz rendering.
    pub fn label(&self) -> (s: String)
        ensures
            s@ == node_label(*self),
    {
        match self {
            GradNode::Leaf => msg("{Leaf|requires_grad=true}"),
            GradNode::Input => msg("{Leaf|requires_grad=false}"),
            GradNode::BroadcastAdd { .. } => msg("{BroadcastAdd}"),
            GradNode::BroadcastSub { .. } => msg("{BroadcastSub}"),
            GradNode::BroadcastMul { .. } => msg("{BroadcastMul}"),
            GradNode::BroadcastDiv { .. } => msg("{BroadcastDiv}"),
            GradNode::AddScalar { .. } => msg("{AddScalar}"),
            GradNode::MulScalar { .. } => msg("{MulScalar}"),
            GradNode::DivScalar { .. } => msg("{DivScalar}"),
            GradNode::Abs { .. } => msg("{Abs}"),
            GradNode::ReLU { .. } => msg("{ReLU}"),
            GradNode::Sigmoid { .. } => msg("{Sigmoid}"),
            GradNode::Negate { .. } => msg("{Negate}"),
            GradNode::Sqrt { .. } => msg("{Sqrt}"),
            GradNode::Ln { .. } => msg("{Ln}"),
            GradNode::Sin { .. } => msg("{Sin}"),
            GradNode::Cos { .. } => msg("{Cos}"),
            GradNode::Tan { .. } => msg("{Tan}"),
            GradNode::Tanh { .. } => msg("{Tanh}"),
            GradNode::Exp { .. } => msg("{Exp}"),
            GradNode::Square { .. } => msg("{Square}"),
            GradNode::Cube { .. } => msg("{Cube}"),
            GradNode::Reciprocal { .. } => msg("{Reciprocal}"),
            GradNode::Rsqrt { .. } => msg("{Rsqrt}"),
            GradNode::Sinh { .. } => msg("{Sinh}"),
            GradNode::Cosh { .. } => msg("{Cosh}"),
            GradNode::ExpM1 { .. } => msg("{ExpM1}"),
            GradNode::Ln1p { .. } => msg("{Ln1p}"),
            GradNode::MatMul { .. } => msg("{MatMul}"),
            GradNode::Permute { .. } => msg("{Permute}"),
            GradNode::L1 { .. } => msg("{L1Loss}"),
        }
    }
}

// ---------------------------------------------------------------------------
// The node store: a slot map of nodes
// ---------------------------------------------------------------------------

/// The nodes of a gradient graph, held in a `slotmap::SlotMap`; keys are
/// handed out as their `u64` FFI encoding. The map sits in a private field;
/// `store_nodes` and `store_slots` name what it holds.
#[verifier::external_body]
pub struct NodeStore {
    map: slotmap::SlotMap<slotmap::DefaultKey, GradNode>,
}

/// The nodes of a store, by the FFI encoding of their keys.
pub uninterp spec fn store_nodes(s: NodeStore) -> Map<u64, GradNode>;

/// The number of slots a store has allocated (occupied or vacated), not
/// counting the map's reserved first slot.
pub uninterp spec fn store_slots(s: NodeStore) -> nat;

/// The FFI encoding of a key of an occupied slot: its version (the high 32
/// bits) is odd.
pub open spec fn ffi_key_ok(k: u64) -> bool {
    (k / 0x1_0000_0000u64) % 2 == 1
}

impl NodeStore {
    /// Calls `slotmap::SlotMap::with_key`: an empty map with no slots.
    #[verifier::external_body]
    pub(crate) fn new() -> (fresh: NodeStore)
        ensures
            store_nodes(fresh).dom() == Set::<u64>::empty(),
            store_slots(fresh) == 0,
    {
        NodeStore { map: slotmap::SlotMap::with_key() }
    }

    /// Calls `slotmap::SlotMap::insert`, which panics once the map (its
    /// reserved first slot included) holds `u32::MAX - 1` slots with none
    /// free; below that bound the node is stored under a key that no node had,
    /// at most one slot is added, every node occupies a slot of its own, and
    /// the key is returned by its FFI encoding (`KeyData::as_ffi`), whose
    /// version is odd.
    #[verifier::external_body]
    pub(crate) fn insert(&mut self, node: GradNode) -> (k: u64)
        requires
            store_slots(*old(self)) < u32::MAX - 1,
        ensures
            !store_nodes(*old(self)).contains_key(k),
            store_nodes(*final(self)) == store_nodes(*old(self)).insert(k, node),
            store_slots(*final(self)) <= store_slots(*old(self)) + 1,
            store_nodes(*final(self)).dom().len() <= store_slots(*final(self)),
            ffi_key_ok(k),
    {
        let key = self.map.insert(node);
        slotmap::Key::data(&key).as_ffi()
    }

    /// Calls `slotmap::SlotMap::get` on the key rebuilt by
    /// `KeyData::from_ffi`, which gives back the key an encoding was taken
    /// from when its version is odd: the node stored under `k`, if any.
    #[verifier::external_body]
    pub(crate) fn get(&self, k: u64) -> (r: Option<&GradNode>)
        requires
            ffi_key_ok(k),
        ensures
            store_nodes(*self).contains_key(k) ==> r == Some(&store_nodes(*self)[k]),
            !store_nodes(*self).contains_key(k) ==> r is None,
    {
        let key: slotmap::DefaultKey = slotmap::KeyData::from_ffi(k).into();
        self.map.get(key)
    }

    /// Calls `slotmap::SlotMap::remove` on the key rebuilt by
    /// `KeyData::from_ffi`: the node stored under `k`, if any, leaves the
    /// store and is handed back; no slot is added.
    #[verifier::external_body]
    pub(crate) fn remove(&mut self, k: u64) -> (r: Option<GradNode>)
        requires
            ffi_key_ok(k),
        ensures
            store_nodes(*final(self)) == store_nodes(*old(self)).remove(k),
            store_slots(*final(self)) == store_slots(*old(self)),
            store_nodes(*old(self)).contains_key(k) ==> r == Some(store_nodes(*old(self))[k]),
            !store_nodes(*old(self)).contains_key(k) ==> r is None,
    {
        let key: slotmap::DefaultKey = slotmap::KeyData::from_ffi(k).into();
        self.map.remove(key)
    }
}

// ---------------------------------------------------------------------------
// Graphs of nodes
// ---------------------------------------------------------------------------

/// The key a parent reference stands for: its own key, or the shared
/// placeholder `nk` for an untracked input.
pub open spec fn resolve(p: MaybeNodeKey, nk: u64) -> u64 {
    match p {
        Some(k) => k.0,
        None => nk,
    }
}

/// The keys of the parents of node `a` of `g`, in order.
pub open spec fn parent_keys(g: Map<u64, GradNode>, nk: u64, a: u64) -> Seq<u64> {
    node_parents(g[a]).map_values(|p: MaybeNodeKey| resolve(p, nk))
}

/// `b` is a parent of the stored node `a`.
pub open spec fn is_edge(g: Map<u64, GradNode>, nk: u64, a: u64, b: u64) -> bool {
    g.contains_key(a) && parent_keys(g, nk, a).contains(b)
}

/// `p` follows parent links from its first key to its last.
pub open spec fn is_path(g: Map<u64, GradNode>, nk: u64, p: Seq<u64>) -> bool {
    &&& p.len() >= 1
    &&& forall|i: int| 0 <= i < p.len() - 1 ==> #[trigger] is_edge(g, nk, p[i], p[i + 1])
}

/// `x` is `root` or an ancestor of it.
pub open spec fn reaches(g: Map<u64, GradNode>, nk: u64, root: u64, x: u64) -> bool {
    exists|p: Seq<u64>| #[trigger] is_path(g, nk, p) && p[0] == root && p.last() == x
}

/// Some ancestor of `root` (or `root` itself) is its own ancestor.
pub open spec fn has_cycle_from(g: Map<u64, GradNode>, nk: u64, root: u64) -> bool {
    exists|p: Seq<u64>|
        #[trigger] is_path(g, nk, p) && p.len() >= 2 && p[0] == p.last() && reaches(g, nk, root, p[0])
}

/// Some ancestor of `root` (or `root` itself) is not in the store.
pub open spec fn has_missing_from(g: Map<u64, GradNode>, nk: u64, root: u64) -> bool {
    exists|x: u64| #[trigger] reaches(g, nk, root, x) && !g.contains_key(x)
}

/// `order` lists `root` and all its ancestors once each, every one of them
/// after all of its parents.
pub open spec fn topo_order(g: Map<u64, GradNode>, nk: u64, root: u64, order: Seq<u64>) -> bool {
    &&& order.no_duplicates()
    &&& forall|x: u64| order.contains(x) <==> reaches(g, nk, root, x)
    &&& forall|i: int| 0 <= i < order.len() ==> g.contains_key(#[trigger] order[i])
    &&& forall|i: int, j: int|
        0 <= i < order.len() && 0 <= j < order.len() && #[trigger] is_edge(g, nk, order[i], order[j])
            ==> j < i
}

/// The `u64` encodings of a sequence of keys.
pub open spec fn key_values(ks: Seq<NodeKey>) -> Seq<u64> {
    ks.map_values(|k: NodeKey| k.0)
}

/// A path extended by one parent link.
pub(crate) proof fn lemma_reaches_step(g: Map<u64, GradNode>, nk: u64, root: u64, a: u64, b: u64)
    requires
        reaches(g, nk, root, a),
        is_edge(g, nk, a, b),
    ensures
        reaches(g, nk, root, b),
{
    let p = choose|p: Seq<u64>| #[trigger] is_path(g, nk, p) && p[0] == root && p.last() == a;
    let q = p.push(b);
    assert forall|i: int| 0 <= i < q.len() - 1 implies #[trigger] is_edge(g, nk, q[i], q[i + 1]) by {
        if i < p.len() - 1 {
            assert(q[i] == p[i] && q[i + 1] == p[i + 1]);
            assert(is_edge(g, nk, p[i], p[i + 1]));
        }
    }
    assert(is_path(g, nk, q));
}

/// The one-key path.
pub(crate) proof fn lemma_reaches_self(g: Map<u64, GradNode>, nk: u64, root: u64)
    ensures
        reaches(g, nk, root, root),
{
    let p = seq![root];
    assert(is_path(g, nk, p));
}

/// A set of keys that holds `root` and the parents of each of its stored
/// keys holds every ancestor of `root`.
proof fn lemma_closed_holds_ancestors(g: Map<u64, GradNode>, nk: u64, root: u64, s: Set<u64>, x: u64)
    requires
        s.contains(root),
        forall|a: u64, b: u64| s.contains(a) && #[trigger] is_edge(g, nk, a, b) ==> s.contains(b),
        reaches(g, nk, root, x),
    ensures
        s.contains(x),
{
    let p = choose|p: Seq<u64>| #[trigger] is_path(g, nk, p) && p[0] == root && p.last() == x;
    let mut i: int = 0;
    assert forall|k: int| 0 <= k < p.len() implies s.contains(#[trigger] p[k]) by {
        lemma_path_prefix_in(g, nk, p, s, k);
    }
    assert(s.contains(p[p.len() - 1]));
}

proof fn lemma_path_prefix_in(g: Map<u64, GradNode>, nk: u64, p: Seq<u64>, s: Set<u64>, k: int)
    requires
        is_path(g, nk, p),
        s.contains(p[0]),
        forall|a: u64, b: u64| s.contains(a) && #[trigger] is_edge(g, nk, a, b) ==> s.contains(b),
        0 <= k < p.len(),
    ensures
        s.contains(p[k]),
    decreases k,
{
    if k > 0 {
        lemma_path_prefix_in(g, nk, p, s, k - 1);
        let j = k - 1;
        assert(is_edge(g, nk, p[j], p[j + 1]));
        assert(j + 1 == k);
    }
}

/// An order in which every key comes after its parents leaves no cycle and
/// no missing node among the ancestors.
pub proof fn lemma_topo_order_sound(g: Map<u64, GradNode>, nk: u64, root: u64, order: Seq<u64>)
    requires
        topo_order(g, nk, root, order),
    ensures
        !has_cycle_from(g, nk, root),
        !has_missing_from(g, nk, root),
{
    if has_missing_from(g, nk, root) {
        let x = choose|x: u64| #[trigger] reaches(g, nk, root, x) && !g.contains_key(x);
        assert(order.contains(x));
        let i = choose|i: int| 0 <= i < order.len() && order[i] == x;
        assert(g.contains_key(order[i]));
    }
    if has_cycle_from(g, nk, root) {
        let p = choose|p: Seq<u64>|
            #[trigger] is_path(g, nk, p) && p.len() >= 2 && p[0] == p.last() && reaches(g, nk, root, p[0]);
        // every key of the cycle is in the order, at strictly decreasing positions
        assert forall|k: int| 0 <= k < p.len() implies #[trigger] order.contains(p[k]) by {
            lemma_reaches_along(g, nk, root, p, k);
        }
        lemma_cycle_descends(g, nk, root, order, p, p.len() - 1);
        let i0 = order.index_of(p[0]);
        let il = order.index_of(p[p.len() - 1]);
        assert(false);
    }
}

/// Every key of a path that starts at an ancestor is an ancestor.
proof fn lemma_reaches_along(g: Map<u64, GradNode>, nk: u64, root: u64, p: Seq<u64>, k: int)
    requires
        is_path(g, nk, p),
        reaches(g, nk, root, p[0]),
        0 <= k < p.len(),
    ensures
        reaches(g, nk, root, p[k]),
    decreases k,
{
    if k > 0 {
        lemma_reaches_along(g, nk, root, p, k - 1);
        let j = k - 1;
        assert(is_edge(g, nk, p[j], p[j + 1]));
        assert(j + 1 == k);
        lemma_reaches_step(g, nk, root, p[k - 1], p[k]);
    }
}

/// Along a path inside a topological order, positions strictly decrease.
proof fn lemma_cycle_descends(g: Map<u64, GradNode>, nk: u64, root: u64, order: Seq<u64>, p: Seq<u64>, k: int)
    requires
        topo_order(g, nk, root, order),
        is_path(g, nk, p),
        forall|j: int| 0 <= j < p.len() ==> #[trigger] order.contains(p[j]),
        0 <= k < p.len(),
    ensures
        order.index_of(p[k]) + k <= order.index_of(p[0]),
    decreases k,
{
    if k > 0 {
        lemma_cycle_descends(g, nk, root, order, p, k - 1);
        assert(order.contains(p[k - 1]));
        assert(order.contains(p[k]));
        let a = order.index_of(p[k - 1]);
        let b = order.index_of(p[k]);
        assert(order[a] == p[k - 1]);
        assert(order[b] == p[k]);
        let j = k - 1;
        assert(is_edge(g, nk, p[j], p[j + 1]));
        assert(j + 1 == k);
        assert(is_edge(g, nk, order[a], order[b]));
    }
}

// ---------------------------------------------------------------------------
// The gradient context
// ---------------------------------------------------------------------------

/// The nodes recorded while gradients are tracked, and the placeholder node
/// that stands for every untracked input.
pub struct GradContext {
    pub nodes: NodeStore,
    pub none_node: NodeKey,
    /// How many nodes have been recorded: a bound on the slots in use.
    pub recorded: u64,
}

/// A step of the depth-first walk: visit a key, or finish it.
enum Visit {
    Enter(u64),
    Exit(u64),
}

/// The walk's stack for a path of unfinished keys: for each, its exit and
/// the visits of the parents still to be done.
spec fn walk_stack(g: Map<u64, GradNode>, nk: u64, frames: Seq<(u64, nat)>) -> Seq<Visit>
    decreases frames.len(),
{
    if frames.len() == 0 {
        seq![]
    } else {
        let f = frames.last();
        walk_stack(g, nk, frames.drop_last()) + seq![Visit::Exit(f.0)] + parent_keys(g, nk, f.0).take(
            f.1 as int,
        ).map_values(|k: u64| Visit::Enter(k))
    }
}

spec fn is_gray(m: Map<u64, bool>, x: u64) -> bool {
    m.contains_key(x) && !m[x]
}

spec fn is_black(m: Map<u64, bool>, x: u64) -> bool {
    m.contains_key(x) && m[x]
}

spec fn on_path(frames: Seq<(u64, nat)>, x: u64) -> bool {
    exists|t: int| 0 <= t < frames.len() && #[trigger] frames[t].0 == x
}

/// First parent index of frame `t` whose visit is finished.
spec fn done_from(frames: Seq<(u64, nat)>, t: int) -> int {
    if t == frames.len() - 1 {
        frames[t].1 as int
    } else {
        frames[t].1 as int + 1
    }
}

/// The invariant of the walk once the root has been entered.
spec fn walk_inv(
    g: Map<u64, GradNode>,
    nk: u64,
    root: u64,
    frames: Seq<(u64, nat)>,
    marks: Map<u64, bool>,
    order: Seq<u64>,
) -> bool {
    &&& marks.contains_key(root)
    &&& forall|t: int|
        0 <= t < frames.len() ==> g.contains_key(#[trigger] frames[t].0) && frames[t].1
            <= parent_keys(g, nk, frames[t].0).len()
    &&& forall|t: int|
        0 <= t < frames.len() - 1 ==> #[trigger] frames[t].1 < parent_keys(g, nk, frames[t].0).len()
            && parent_keys(g, nk, frames[t].0)[frames[t].1 as int] == frames[t + 1].0
    &&& forall|t1: int, t2: int|
        0 <= t1 < frames.len() && 0 <= t2 < frames.len() && t1 != t2 ==> #[trigger] frames[t1].0
            != #[trigger] frames[t2].0
    &&& forall|x: u64| is_gray(marks, x) <==> on_path(frames, x)
    &&& forall|x: u64| is_black(marks, x) <==> order.contains(x)
    &&& forall|t: int, j: int|
        0 <= t < frames.len() && done_from(frames, t) <= j < parent_keys(g, nk, frames[t].0).len()
            ==> is_black(marks, #[trigger] parent_keys(g, nk, frames[t].0)[j])
    &&& order.no_duplicates()
    &&& forall|i: int| 0 <= i < order.len() ==> g.contains_key(#[trigger] order[i])
    &&& forall|i: int, j: int|
        0 <= i < order.len() && 0 <= j < order.len() && #[trigger] is_edge(g, nk, order[i], order[j])
            ==> j < i
    &&& forall|i: int, b: u64|
        0 <= i < order.len() && #[trigger] is_edge(g, nk, order[i], b) ==> order.contains(b)
    &&& forall|x: u64| marks.contains_key(x) ==> reaches(g, nk, root, x)
    &&& marks.dom().subset_of(g.dom())
}

proof fn lemma_walk_push(g: Map<u64, GradNode>, nk: u64, frames: Seq<(u64, nat)>, f: (u64, nat))
    ensures
        walk_stack(g, nk, frames.push(f)) == walk_stack(g, nk, frames) + seq![Visit::Exit(f.0)]
            + parent_keys(g, nk, f.0).take(f.1 as int).map_values(|k: u64| Visit::Enter(k)),
{
    assert(frames.push(f).drop_last() =~= frames);
}

/// The top of the stack, when the last frame still has parents to visit.
proof fn lemma_walk_top_enter(g: Map<u64, GradNode>, nk: u64, frames: Seq<(u64, nat)>)
    requires
        frames.len() > 0,
        0 < frames.last().1 <= parent_keys(g, nk, frames.last().0).len(),
    ensures
        walk_stack(g, nk, frames) == walk_stack(
            g,
            nk,
            frames.update(frames.len() - 1, (frames.last().0, (frames.last().1 - 1) as nat)),
        ) + seq![Visit::Enter(parent_keys(g, nk, frames.last().0)[frames.last().1 - 1])],
{
    let f = frames.last();
    let f2 = (f.0, (f.1 - 1) as nat);
    let fr2 = frames.update(frames.len() - 1, f2);
    assert(fr2.drop_last() =~= frames.drop_last());
    let pk = parent_keys(g, nk, f.0);
    assert(pk.take(f.1 as int).map_values(|k: u64| Visit::Enter(k)) =~= pk.take(f2.1 as int).map_values(
        |k: u64| Visit::Enter(k),
    ) + seq![Visit::Enter(pk[f.1 - 1])]);
}

/// The top of the stack, when the last frame has no parent left to visit.
proof fn lemma_walk_top_exit(g: Map<u64, GradNode>, nk: u64, frames: Seq<(u64, nat)>)
    requires
        frames.len() > 0,
        frames.last().1 == 0,
    ensures
        walk_stack(g, nk, frames) == walk_stack(g, nk, frames.drop_last()) + seq![Visit::Exit(frames.last().0)],
{
    let pk = parent_keys(g, nk, frames.last().0);
    assert(pk.take(0).map_values(|k: u64| Visit::Enter(k)) =~= Seq::<Visit>::empty());
}

/// Finishing the last frame, whose parents are all finished.
proof fn lemma_walk_exit(
    g: Map<u64, GradNode>,
    nk: u64,
    root: u64,
    frames: Seq<(u64, nat)>,
    marks: Map<u64, bool>,
    order: Seq<u64>,
)
    requires
        walk_inv(g, nk, root, frames, marks, order),
        frames.len() > 0,
        frames.last().1 == 0,
    ensures
        walk_inv(g, nk, root, frames.drop_last(), marks.insert(frames.last().0, true), order.push(frames.last().0)),
{
    let x = frames.last().0;
    let m = frames.len() - 1;
    let fr2 = frames.drop_last();
    let marks2 = marks.insert(x, true);
    let order2 = order.push(x);
    assert(on_path(frames, x)) by {
        assert(frames[m].0 == x);
    }
    assert(is_gray(marks, x));
    assert(!order.contains(x));
    // parents of x are all finished
    assert forall|j: int| 0 <= j < parent_keys(g, nk, x).len() implies #[trigger] order.contains(
        parent_keys(g, nk, x)[j],
    ) by {
        assert(done_from(frames, m) == 0);
        assert(is_black(marks, parent_keys(g, nk, frames[m].0)[j]));
    }
    assert forall|y: u64| is_gray(marks2, y) <==> on_path(fr2, y) by {
        if is_gray(marks2, y) {
            assert(y != x);
            assert(on_path(frames, y));
            let t = choose|t: int| 0 <= t < frames.len() && #[trigger] frames[t].0 == y;
            assert(t != m);
            assert(fr2[t].0 == y);
        }
        if on_path(fr2, y) {
            let t = choose|t: int| 0 <= t < fr2.len() && #[trigger] fr2[t].0 == y;
            assert(frames[t].0 == y);
            assert(frames[t].0 != frames[m].0);
            assert(on_path(frames, y));
        }
    }
    assert forall|y: u64| is_black(marks2, y) <==> order2.contains(y) by {
        if y == x {
            assert(order2[order.len() as int] == x);
        } else {
            if order2.contains(y) {
                let i = choose|i: int| 0 <= i < order2.len() && order2[i] == y;
                assert(order[i] == y);
            }
            if order.contains(y) {
                let i = choose|i: int| 0 <= i < order.len() && order[i] == y;
                assert(order2[i] == y);
            }
        }
    }
    assert forall|t: int, j: int|
        0 <= t < fr2.len() && done_from(fr2, t) <= j < parent_keys(g, nk, fr2[t].0).len() implies is_black(
        marks2,
        #[trigger] parent_keys(g, nk, fr2[t].0)[j],
    ) by {
        assert(fr2[t] == frames[t]);
        if t == fr2.len() - 1 && j == fr2[t].1 {
            assert(parent_keys(g, nk, frames[t].0)[frames[t].1 as int] == frames[t + 1].0);
        } else {
            assert(done_from(frames, t) <= j);
            assert(is_black(marks, parent_keys(g, nk, frames[t].0)[j]));
        }
    }
    assert(order2.no_duplicates());
    assert forall|i: int, j: int|
        0 <= i < order2.len() && 0 <= j < order2.len() && #[trigger] is_edge(g, nk, order2[i], order2[j])
            implies j < i by {
        if i == order.len() {
            if j == order.len() {
                // x is its own parent: x would be finished already
                assert(parent_keys(g, nk, x).contains(x));
                let jj = choose|jj: int| 0 <= jj < parent_keys(g, nk, x).len() && parent_keys(g, nk, x)[jj] == x;
                assert(order.contains(parent_keys(g, nk, x)[jj]));
            }
        } else {
            assert(order2[i] == order[i]);
            if j == order.len() {
                assert(order.contains(order2[j]));
            } else {
                assert(order2[j] == order[j]);
            }
        }
    }
    assert forall|i: int, b: u64| 0 <= i < order2.len() && #[trigger] is_edge(g, nk, order2[i], b) implies order2.contains(b) by {
        if i == order.len() {
            let jj = choose|jj: int| 0 <= jj < parent_keys(g, nk, x).len() && parent_keys(g, nk, x)[jj] == b;
            assert(order.contains(parent_keys(g, nk, x)[jj]));
            let k = choose|k: int| 0 <= k < order.len() && order[k] == b;
            assert(order2[k] == b);
        } else {
            assert(order2[i] == order[i]);
            assert(order.contains(b));
            let k = choose|k: int| 0 <= k < order.len() && order[k] == b;
            assert(order2[k] == b);
        }
    }
    assert forall|i: int| 0 <= i < order2.len() implies g.contains_key(#[trigger] order2[i]) by {
        if i < order.len() {
            assert(order2[i] == order[i]);
        }
    }
    assert forall|t: int|
        0 <= t < fr2.len() - 1 implies #[trigger] fr2[t].1 < parent_keys(g, nk, fr2[t].0).len()
            && parent_keys(g, nk, fr2[t].0)[fr2[t].1 as int] == fr2[t + 1].0 by {
        assert(fr2[t] == frames[t] && fr2[t + 1] == frames[t + 1]);
    }
    assert forall|t1: int, t2: int|
        0 <= t1 < fr2.len() && 0 <= t2 < fr2.len() && t1 != t2 implies #[trigger] fr2[t1].0
            != #[trigger] fr2[t2].0 by {
        assert(fr2[t1] == frames[t1] && fr2[t2] == frames[t2]);
    }
}

/// The next parent of the last frame to visit.
spec fn next_parent(g: Map<u64, GradNode>, nk: u64, frames: Seq<(u64, nat)>) -> u64 {
    parent_keys(g, nk, frames.last().0)[frames.last().1 - 1]
}

/// The last frame with one parent fewer left to visit.
spec fn step_frames(frames: Seq<(u64, nat)>) -> Seq<(u64, nat)> {
    frames.update(frames.len() - 1, (frames.last().0, (frames.last().1 - 1) as nat))
}

/// Skipping a parent that is already finished.
proof fn lemma_walk_enter_black(
    g: Map<u64, GradNode>,
    nk: u64,
    root: u64,
    frames: Seq<(u64, nat)>,
    marks: Map<u64, bool>,
    order: Seq<u64>,
)
    requires
        walk_inv(g, nk, root, frames, marks, order),
        frames.len() > 0,
        frames.last().1 > 0,
        is_black(marks, next_parent(g, nk, frames)),
    ensures
        walk_inv(g, nk, root, step_frames(frames), marks, order),
{
    let m = frames.len() - 1;
    let fr2 = step_frames(frames);
    assert forall|y: u64| is_gray(marks, y) <==> on_path(fr2, y) by {
        if on_path(frames, y) {
            let t = choose|t: int| 0 <= t < frames.len() && #[trigger] frames[t].0 == y;
            assert(fr2[t].0 == y);
        }
        if on_path(fr2, y) {
            let t = choose|t: int| 0 <= t < fr2.len() && #[trigger] fr2[t].0 == y;
            assert(frames[t].0 == y);
        }
    }
    assert forall|t: int, j: int|
        0 <= t < fr2.len() && done_from(fr2, t) <= j < parent_keys(g, nk, fr2[t].0).len() implies is_black(
        marks,
        #[trigger] parent_keys(g, nk, fr2[t].0)[j],
    ) by {
        assert(fr2[t].0 == frames[t].0);
        if t < m {
            assert(fr2[t] == frames[t]);
        } else if j >= frames[m].1 {
            assert(done_from(frames, t) <= j);
        }
    }
    assert forall|t: int|
        0 <= t < fr2.len() implies g.contains_key(#[trigger] fr2[t].0) && fr2[t].1 <= parent_keys(
        g,
        nk,
        fr2[t].0,
    ).len() by {
        assert(fr2[t].0 == frames[t].0);
    }
    assert forall|t: int|
        0 <= t < fr2.len() - 1 implies #[trigger] fr2[t].1 < parent_keys(g, nk, fr2[t].0).len()
            && parent_keys(g, nk, fr2[t].0)[fr2[t].1 as int] == fr2[t + 1].0 by {
        assert(fr2[t] == frames[t]);
        assert(fr2[t + 1].0 == frames[t + 1].0);
    }
    assert forall|t1: int, t2: int|
        0 <= t1 < fr2.len() && 0 <= t2 < fr2.len() && t1 != t2 implies #[trigger] fr2[t1].0
            != #[trigger] fr2[t2].0 by {
        assert(fr2[t1].0 == frames[t1].0 && fr2[t2].0 == frames[t2].0);
    }
}

/// Meeting an unfinished key again closes a cycle.
proof fn lemma_walk_enter_gray(
    g: Map<u64, GradNode>,
    nk: u64,
    root: u64,
    frames: Seq<(u64, nat)>,
    marks: Map<u64, bool>,
    order: Seq<u64>,
)
    requires
        walk_inv(g, nk, root, frames, marks, order),
        frames.len() > 0,
        frames.last().1 > 0,
        is_gray(marks, next_parent(g, nk, frames)),
    ensures
        has_cycle_from(g, nk, root),
{
    let x = next_parent(g, nk, frames);
    let m = frames.len() - 1;
    assert(on_path(frames, x));
    let t = choose|t: int| 0 <= t < frames.len() && #[trigger] frames[t].0 == x;
    let q = frames.subrange(t, frames.len() as int).map_values(|f: (u64, nat)| f.0).push(x);
    assert forall|i: int| 0 <= i < q.len() - 1 implies #[trigger] is_edge(g, nk, q[i], q[i + 1]) by {
        assert(q[i] == frames[t + i].0);
        assert(g.contains_key(frames[t + i].0));
        if t + i < m {
            assert(q[i + 1] == frames[t + i + 1].0);
            let pk = parent_keys(g, nk, frames[t + i].0);
            assert(pk[frames[t + i].1 as int] == frames[t + i + 1].0);
            assert(pk.contains(q[i + 1]));
        } else {
            assert(q[i + 1] == x);
            let pk = parent_keys(g, nk, frames[m].0);
            assert(pk[frames[m].1 - 1] == x);
            assert(pk.contains(x));
        }
    }
    assert(is_path(g, nk, q));
    assert(q[0] == x);
    assert(q.last() == x);
    assert(marks.contains_key(x));
    assert(reaches(g, nk, root, q[0]));
}

/// Entering a new key: it becomes the last frame, with all its parents to visit.
proof fn lemma_walk_enter_new(
    g: Map<u64, GradNode>,
    nk: u64,
    root: u64,
    frames: Seq<(u64, nat)>,
    marks: Map<u64, bool>,
    order: Seq<u64>,
)
    requires
        walk_inv(g, nk, root, frames, marks, order),
        frames.len() > 0,
        frames.last().1 > 0,
        !marks.contains_key(next_parent(g, nk, frames)),
        g.contains_key(next_parent(g, nk, frames)),
    ensures
        walk_inv(
            g,
            nk,
            root,
            step_frames(frames).push(
                (next_parent(g, nk, frames), parent_keys(g, nk, next_parent(g, nk, frames)).len()),
            ),
            marks.insert(next_parent(g, nk, frames), false),
            order,
        ),
{
    let x = next_parent(g, nk, frames);
    let m = frames.len() - 1;
    let fr1 = step_frames(frames);
    let fr2 = fr1.push((x, parent_keys(g, nk, x).len()));
    let marks2 = marks.insert(x, false);
    assert(!on_path(frames, x));
    assert(!order.contains(x));
    assert forall|y: u64| is_gray(marks2, y) <==> on_path(fr2, y) by {
        if y == x {
            assert(fr2[m + 1].0 == x);
        } else {
            if on_path(frames, y) {
                let t = choose|t: int| 0 <= t < frames.len() && #[trigger] frames[t].0 == y;
                assert(fr2[t].0 == y);
            }
            if on_path(fr2, y) {
                let t = choose|t: int| 0 <= t < fr2.len() && #[trigger] fr2[t].0 == y;
                assert(t <= m);
                assert(frames[t].0 == y);
            }
        }
    }
    assert forall|y: u64| is_black(marks2, y) <==> order.contains(y) by {
        if y == x {
        } else {
            assert(is_black(marks2, y) == is_black(marks, y));
        }
    }
    assert forall|t: int, j: int|
        0 <= t < fr2.len() && done_from(fr2, t) <= j < parent_keys(g, nk, fr2[t].0).len() implies is_black(
        marks2,
        #[trigger] parent_keys(g, nk, fr2[t].0)[j],
    ) by {
        if t == m + 1 {
            assert(done_from(fr2, t) == parent_keys(g, nk, x).len());
        } else {
            assert(fr2[t].0 == frames[t].0);
            if t < m {
                assert(fr2[t] == frames[t]);
                assert(done_from(frames, t) <= j);
            } else {
                assert(done_from(fr2, t) == frames[m].1);
                assert(done_from(frames, t) <= j);
            }
            let z = parent_keys(g, nk, frames[t].0)[j];
            assert(is_black(marks, z));
            assert(z != x);
        }
    }
    assert forall|t: int|
        0 <= t < fr2.len() implies g.contains_key(#[trigger] fr2[t].0) && fr2[t].1 <= parent_keys(
        g,
        nk,
        fr2[t].0,
    ).len() by {
        if t <= m {
            assert(fr2[t].0 == frames[t].0);
        }
    }
    assert forall|t: int|
        0 <= t < fr2.len() - 1 implies #[trigger] fr2[t].1 < parent_keys(g, nk, fr2[t].0).len()
            && parent_keys(g, nk, fr2[t].0)[fr2[t].1 as int] == fr2[t + 1].0 by {
        if t < m {
            assert(fr2[t] == frames[t]);
            assert(fr2[t + 1].0 == frames[t + 1].0);
        } else {
            assert(fr2[t + 1].0 == x);
        }
    }
    assert forall|t1: int, t2: int|
        0 <= t1 < fr2.len() && 0 <= t2 < fr2.len() && t1 != t2 implies #[trigger] fr2[t1].0
            != #[trigger] fr2[t2].0 by {
        if t1 <= m && t2 <= m {
            assert(fr2[t1].0 == frames[t1].0 && fr2[t2].0 == frames[t2].0);
        } else if t1 <= m {
            assert(fr2[t1].0 == frames[t1].0);
            assert(on_path(frames, frames[t1].0));
        } else {
            assert(fr2[t2].0 == frames[t2].0);
            assert(on_path(frames, frames[t2].0));
        }
    }
    assert(marks.contains_key(frames[m].0)) by {
        assert(on_path(frames, frames[m].0));
    }
    assert(is_edge(g, nk, frames[m].0, x)) by {
        assert(parent_keys(g, nk, frames[m].0)[frames[m].1 - 1] == x);
    }
    lemma_reaches_step(g, nk, root, frames[m].0, x);
    assert(marks2.dom().subset_of(g.dom()));
}

/// The first step: entering the root.
proof fn lemma_walk_start(g: Map<u64, GradNode>, nk: u64, root: u64)
    requires
        g.contains_key(root),
    ensures
        walk_inv(
            g,
            nk,
            root,
            seq![(root, parent_keys(g, nk, root).len())],
            Map::<u64, bool>::empty().insert(root, false),
            Seq::<u64>::empty(),
        ),
{
    let frames = seq![(root, parent_keys(g, nk, root).len())];
    let marks = Map::<u64, bool>::empty().insert(root, false);
    lemma_reaches_self(g, nk, root);
    assert forall|y: u64| is_gray(marks, y) <==> on_path(frames, y) by {
        if y == root {
            assert(frames[0].0 == root);
        }
    }
}

/// When the stack is empty, the finished keys are in topological order.
proof fn lemma_walk_done(
    g: Map<u64, GradNode>,
    nk: u64,
    root: u64,
    marks: Map<u64, bool>,
    order: Seq<u64>,
)
    requires
        walk_inv(g, nk, root, Seq::<(u64, nat)>::empty(), marks, order),
    ensures
        topo_order(g, nk, root, order),
{
    let frames = Seq::<(u64, nat)>::empty();
    assert(!on_path(frames, root));
    assert(is_black(marks, root));
    assert(order.contains(root));
    let s = Set::new(|x: u64| order.contains(x));
    assert forall|a: u64, b: u64| s.contains(a) && #[trigger] is_edge(g, nk, a, b) implies s.contains(b) by {
        let i = choose|i: int| 0 <= i < order.len() && order[i] == a;
        assert(is_edge(g, nk, order[i], b));
    }
    assert forall|x: u64| order.contains(x) <==> reaches(g, nk, root, x) by {
        if reaches(g, nk, root, x) {
            lemma_closed_holds_ancestors(g, nk, root, s, x);
        }
        if order.contains(x) {
            assert(is_black(marks, x));
        }
    }
}

/// The marked keys are no more than the stored ones.
proof fn lemma_marks_fit(g: Map<u64, GradNode>, marks: Map<u64, bool>)
    requires
        g.dom().finite(),
        marks.dom().subset_of(g.dom()),
    ensures
        marks.dom().finite(),
        marks.dom().len() <= g.dom().len(),
{
    vstd::set_lib::lemma_len_subset(marks.dom(), g.dom());
}

/// The message of the error for a graph in which a node is its own ancestor.
pub open spec fn cycle_text() -> Seq<char> {
    "Graph contains a cycle."@
}

/// The message of the error for a graph that refers to a node it does not hold.
pub open spec fn missing_text() -> Seq<char> {
    "Node not found during backward pass."@
}

/// The two graph errors carry different messages.
pub proof fn lemma_graph_error_texts_differ()
    ensures
        cycle_text() != missing_text(),
{
    reveal_strlit("Graph contains a cycle.");
    reveal_strlit("Node not found during backward pass.");
    assert(cycle_text()[0] != missing_text()[0]);
}

/// Whether a key is the FFI encoding of an occupied slot's key.
fn key_is_ffi(k: u64) -> (b: bool)
    ensures
        b == ffi_key_ok(k),
{
    (k / 0x1_0000_0000u64) % 2 == 1
}

impl GradContext {
    /// The recorded nodes, by key.
    pub open spec fn graph(&self) -> Map<u64, GradNode> {
        store_nodes(self.nodes)
    }

    /// The store is finite, holds the placeholder as an untracked input, and
    /// all its keys are slot keys.
    pub open spec fn wf(&self) -> bool {
        &&& self.graph().dom().finite()
        &&& self.graph().contains_key(self.none_node.0)
        &&& self.graph()[self.none_node.0] is Input
        &&& forall|k: u64| #[trigger] self.graph().contains_key(k) ==> ffi_key_ok(k)
        &&& self.graph().dom().len() <= store_slots(self.nodes) <= self.recorded <= u32::MAX
    }

    /// Whether the store has room for another node.
    pub open spec fn has_room(&self) -> bool {
        self.recorded < u32::MAX - 1
    }

    /// A context holding only the placeholder node.
    pub fn new() -> (c: Self)
        ensures
            c.wf(),
            c.graph().dom() == set![c.none_node.0],
            store_slots(c.nodes) <= 1,
    {
        let mut nodes = NodeStore::new();
        let k = nodes.insert(GradNode::Input);
        let c = GradContext { nodes, none_node: NodeKey(k), recorded: 1 };
        assert(c.graph().dom() =~= set![k]);
        c
    }

    /// Records `node` under a fresh key and returns the key.
    ///
    /// Errors: `GradError` when the store holds as many slots as it can;
    /// nothing is recorded then.
    pub fn attach(&mut self, node: GradNode) -> (r: Result<NodeKey, TensorError>)
        requires
            old(self).wf(),
        ensures
            final(self).wf(),
            final(self).none_node == old(self).none_node,
            !old(self).has_room() ==> (r matches Err(e) && e is GradError && final(self).graph() == old(self).graph()),
            old(self).has_room() ==> (r matches Ok(k) && !old(self).graph().contains_key(k.0)
                && final(self).graph() == old(self).graph().insert(k.0, node)),
    {
        if self.recorded >= u32::MAX as u64 - 1 {
            return Err(TensorError::GradError(msg("the gradient graph is full")));
        }
        let k = self.nodes.insert(node);
        self.recorded = self.recorded + 1;
        Ok(NodeKey(k))
    }

    /// The key a parent reference stands for.
    fn resolve_maybe_key(&self, maybe_key: MaybeNodeKey) -> (k: u64)
        ensures
            k == resolve(maybe_key, self.none_node.0),
    {
        match maybe_key {
            Some(key) => key.0,
            None => self.none_node.0,
        }
    }

    /// The node stored under `k`, if any.
    pub(crate) fn lookup(&self, k: u64) -> (r: Option<&GradNode>)
        requires
            self.wf(),
        ensures
            self.graph().contains_key(k) ==> r == Some(&self.graph()[k]),
            !self.graph().contains_key(k) ==> r is None,
    {
        if key_is_ffi(k) {
            self.nodes.get(k)
        } else {
            None
        }
    }

    /// The keys `root` depends on, itself included, each after all of its
    /// parents (a depth-first walk).
    ///
    /// Errors: `GradError` exactly when a node reached from `root` is its own
    /// ancestor or is not in the store.
    pub fn graph_toposort(&self, root: MaybeNodeKey) -> (r: Result<Vec<NodeKey>, TensorError>)
        requires
            self.wf(),
        ensures
            r matches Ok(order) ==> topo_order(
                self.graph(),
                self.none_node.0,
                resolve(root, self.none_node.0),
                key_values(order@),
            ),
            r matches Err(e) ==> e is GradError,
            r is Ok <==> !(has_cycle_from(self.graph(), self.none_node.0, resolve(root, self.none_node.0))
                || has_missing_from(self.graph(), self.none_node.0, resolve(root, self.none_node.0))),
            r matches Err(e) ==> (e matches TensorError::GradError(m) && ((m@ == cycle_text() && has_cycle_from(
                self.graph(),
                self.none_node.0,
                resolve(root, self.none_node.0),
            )) || (m@ == missing_text() && has_missing_from(
                self.graph(),
                self.none_node.0,
                resolve(root, self.none_node.0),
            )))),
    {
        broadcast use vstd::std_specs::hash::group_hash_axioms;
        let ghost g = self.graph();
        let nk = self.none_node.0;
        let root_key = self.resolve_maybe_key(root);
        let mut stack: Vec<Visit> = Vec::new();
        let mut marks: std::collections::HashMap<u64, bool> = std::collections::HashMap::new();
        let mut order: Vec<NodeKey> = Vec::new();
        stack.push(Visit::Enter(root_key));
        let ghost mut frames: Seq<(u64, nat)> = Seq::empty();
        let ghost mut started: bool = false;
        while stack.len() > 0
            invariant
                self.wf(),
                g == self.graph(),
                nk == self.none_node.0,
                root_key == resolve(root, nk),
                !started ==> stack@ == seq![Visit::Enter(root_key)] && marks@ == Map::<u64, bool>::empty()
                    && order@.len() == 0,
                started ==> stack@ == walk_stack(g, nk, frames) && walk_inv(
                    g,
                    nk,
                    root_key,
                    frames,
                    marks@,
                    key_values(order@),
                ),
            decreases g.dom().len() - marks@.dom().len(), stack@.len(),
        {
            let state = stack.pop().unwrap();
            match state {
                Visit::Enter(x) => {
                    let ghost at_root = !started;
                    proof {
                        if started {
                            if frames.len() > 0 && frames.last().1 == 0 {
                                lemma_walk_top_exit(g, nk, frames);
                            } else if frames.len() > 0 {
                                lemma_walk_top_enter(g, nk, frames);
                                assert(x == next_parent(g, nk, frames));
                            }
                        }
                    }
                    match marks.get(&x) {
                        Some(done) => {
                            if !*done {
                                proof {
                                    lemma_walk_enter_gray(g, nk, root_key, frames, marks@, key_values(order@));
                                }
                                return Err(TensorError::GradError(msg("Graph contains a cycle.")));
                            }
                            proof {
                                lemma_walk_enter_black(g, nk, root_key, frames, marks@, key_values(order@));
                                frames = step_frames(frames);
                            }
                        },
                        None => {
                            let ghost marks0 = marks@;
                            proof {
                                lemma_marks_fit(g, marks0);
                            }
                            marks.insert(x, false);
                            stack.push(Visit::Exit(x));
                            match self.lookup(x) {
                                Some(node) => {
                                    let ps = node.parents();
                                    let ghost base = stack@;
                                    let mut i: usize = 0;
                                    while i < ps.len()
                                        invariant
                                            i <= ps@.len(),
                                            ps@ == node_parents(g[x]),
                                            nk == self.none_node.0,
                                            stack@ == base + parent_keys(g, nk, x).take(i as int).map_values(
                                                |k: u64| Visit::Enter(k),
                                            ),
                                        decreases ps@.len() - i,
                                    {
                                        let k = self.resolve_maybe_key(ps[i]);
                                        stack.push(Visit::Enter(k));
                                        i = i + 1;
                                        proof {
                                            assert(parent_keys(g, nk, x).take(i as int).map_values(
                                                |k: u64| Visit::Enter(k),
                                            ) =~= parent_keys(g, nk, x).take(i - 1).map_values(
                                                |k: u64| Visit::Enter(k),
                                            ).push(Visit::Enter(k)));
                                        }
                                    }
                                    proof {
                                        let f = (x, parent_keys(g, nk, x).len());
                                        if at_root {
                                            lemma_walk_start(g, nk, root_key);
                                            assert(marks@ =~= Map::<u64, bool>::empty().insert(root_key, false));
                                            frames = seq![f];
                                            lemma_walk_push(g, nk, Seq::<(u64, nat)>::empty(), f);
                                            assert(Seq::<(u64, nat)>::empty().push(f) =~= frames);
                                        } else {
                                            lemma_walk_enter_new(g, nk, root_key, frames, marks0, key_values(order@));
                                            lemma_walk_push(g, nk, step_frames(frames), f);
                                            frames = step_frames(frames).push(f);
                                        }
                                        started = true;
                                        lemma_marks_fit(g, marks@);
                                        assert(marks@.dom() =~= marks0.dom().insert(x));
                                    }
                                },
                                None => {
                                    proof {
                                        if at_root {
                                            lemma_reaches_self(g, nk, root_key);
                                        } else {
                                            let p = frames.last().0;
                                            assert(on_path(frames, p)) by {
                                                assert(frames[frames.len() - 1].0 == p);
                                            }
                                            assert(is_edge(g, nk, p, x)) by {
                                                assert(parent_keys(g, nk, p)[frames.last().1 - 1] == x);
                                            }
                                            lemma_reaches_step(g, nk, root_key, p, x);
                                        }
                                        assert(reaches(g, nk, root_key, x) && !g.contains_key(x));
                                        assert(has_missing_from(g, nk, root_key));
                                    }
                                    return Err(TensorError::GradError(msg("Node not found during backward pass.")));
                                },
                            }
                        },
                    }
                },
                Visit::Exit(x) => {
                    proof {
                        if frames.len() > 0 && frames.last().1 > 0 {
                            lemma_walk_top_enter(g, nk, frames);
                        }
                        lemma_walk_top_exit(g, nk, frames);
                        lemma_walk_exit(g, nk, root_key, frames, marks@, key_values(order@));
                    }
                    let ghost order0 = order@;
                    let ghost marks0 = marks@;
                    proof {
                        assert(on_path(frames, x)) by {
                            assert(frames[frames.len() - 1].0 == x);
                        }
                    }
                    marks.insert(x, true);
                    order.push(NodeKey(x));
                    proof {
                        assert(key_values(order@) =~= key_values(order0).push(x));
                        assert(marks@.dom() =~= marks0.dom());
                        frames = frames.drop_last();
                    }
                },
            }
        }
        proof {
            lemma_walk_done(g, nk, root_key, marks@, key_values(order@));
            lemma_topo_order_sound(g, nk, root_key, key_values(order@));
        }
        Ok(order)
    }
}

// ---------------------------------------------------------------------------
// Graphviz rendering
// ---------------------------------------------------------------------------

/// The decimal digit `d`.
pub open spec fn digit_char(d: nat) -> char {
    (48 + d) as char
}

/// Decimal representation of `n`, without leading zeros.
pub open spec fn dec_digits(n: nat) -> Seq<char>
    decreases n,
{
    if n < 10 {
        seq![digit_char(n)]
    } else {
        dec_digits(n / 10) + seq![digit_char(n % 10)]
    }
}

/// The Graphviz identifier of a key: `node_{slot}v{version}`.
pub open spec fn node_id(k: u64) -> Seq<char> {
    "node_"@ + dec_digits((k % 0x1_0000_0000u64) as nat) + "v"@ + dec_digits((k / 0x1_0000_0000u64) as nat)
}

/// The identifier of the `c`-th drawn untracked input.
pub open spec fn none_id(c: nat) -> Seq<char> {
    "none_"@ + dec_digits(c)
}

/// The declaration line of a stored node.
pub open spec fn dot_node_line(g: Map<u64, GradNode>, k: u64) -> Seq<char> {
    "    "@ + node_id(k) + " [label=\""@ + node_label(g[k]) + "\"];\n"@
}

/// Declarations of the first `n` keys of `order` (the placeholder and keys
/// not in the store are skipped).
pub open spec fn dot_nodes(g: Map<u64, GradNode>, nk: u64, order: Seq<u64>, n: nat) -> Seq<char>
    decreases n,
{
    if n == 0 {
        seq![]
    } else {
        let k = order[n - 1];
        dot_nodes(g, nk, order, (n - 1) as nat) + if k != nk && g.contains_key(k) {
            dot_node_line(g, k)
        } else {
            seq![]
        }
    }
}

/// The parents of a key, or none when it is not stored.
pub open spec fn stored_parents(g: Map<u64, GradNode>, k: u64) -> Seq<MaybeNodeKey> {
    if g.contains_key(k) {
        node_parents(g[k])
    } else {
        seq![]
    }
}

/// Number of untracked parents among the first `j` of `ps`.
pub open spec fn count_none(ps: Seq<MaybeNodeKey>, j: nat) -> nat
    decreases j,
{
    if j == 0 {
        0
    } else {
        count_none(ps, (j - 1) as nat) + if ps[j - 1] is None {
            1nat
        } else {
            0nat
        }
    }
}

/// Number of untracked parents of the first `n` keys of `order`.
pub open spec fn nones_before(g: Map<u64, GradNode>, order: Seq<u64>, n: nat) -> nat
    decreases n,
{
    if n == 0 {
        0
    } else {
        let ps = stored_parents(g, order[n - 1]);
        nones_before(g, order, (n - 1) as nat) + count_none(ps, ps.len())
    }
}

/// The edge from parent `p` to `child`; an untracked parent is drawn as a
/// fresh grey node numbered `c`.
pub open spec fn dot_parent_edge(child: u64, p: MaybeNodeKey, c: nat) -> Seq<char> {
    match p {
        Some(pk) => "    "@ + node_id(pk.0) + " -> "@ + node_id(child) + ";\n"@,
        None => "    "@ + none_id(c) + " [label=\"{Leaf|requires_grad=false}\" style=filled fillcolor=lightgray];\n"@
            + "    "@ + none_id(c) + " -> "@ + node_id(child) + " [style=dashed color=gray];\n"@,
    }
}

/// The edges into `child` from its first `j` parents, untracked ones
/// numbered from `c0`.
pub open spec fn dot_node_edges(child: u64, ps: Seq<MaybeNodeKey>, c0: nat, j: nat) -> Seq<char>
    decreases j,
{
    if j == 0 {
        seq![]
    } else {
        dot_node_edges(child, ps, c0, (j - 1) as nat) + dot_parent_edge(
            child,
            ps[j - 1],
            c0 + count_none(ps, (j - 1) as nat),
        )
    }
}

/// The edges into the first `n` keys of `order`.
pub open spec fn dot_edges(g: Map<u64, GradNode>, order: Seq<u64>, n: nat) -> Seq<char>
    decreases n,
{
    if n == 0 {
        seq![]
    } else {
        let k = order[n - 1];
        let ps = stored_parents(g, k);
        dot_edges(g, order, (n - 1) as nat) + dot_node_edges(k, ps, nones_before(g, order, (n - 1) as nat), ps.len())
    }
}

/// The Graphviz document of a graph walked in `order`.
pub open spec fn dot_text(g: Map<u64, GradNode>, nk: u64, order: Seq<u64>) -> Seq<char> {
    "digraph Autograd {\n"@ + "    node [shape=record fontname=monospace];\n\n"@ + dot_nodes(g, nk, order, order.len())
        + "\n"@ + dot_edges(g, order, order.len()) + "}\n"@
}

/// Appends a string slice.
pub(crate) fn push_str(out: &mut String, s: &str)
    ensures
        final(out)@ == old(out)@ + s@,
{
    out.append(s);
}

/// The decimal digit `d` as a string slice.
fn digit_str(d: u64) -> (s: &'static str)
    requires
        d < 10,
    ensures
        s@ == seq![digit_char(d as nat)],
{
    proof {
        reveal_strlit("0");
        reveal_strlit("1");
        reveal_strlit("2");
        reveal_strlit("3");
        reveal_strlit("4");
        reveal_strlit("5");
        reveal_strlit("6");
        reveal_strlit("7");
        reveal_strlit("8");
        reveal_strlit("9");
    }
    if d == 0 {
        "0"
    } else if d == 1 {
        "1"
    } else if d == 2 {
        "2"
    } else if d == 3 {
        "3"
    } else if d == 4 {
        "4"
    } else if d == 5 {
        "5"
    } else if d == 6 {
        "6"
    } else if d == 7 {
        "7"
    } else if d == 8 {
        "8"
    } else {
        "9"
    }
}

/// Appends the decimal representation of `n`.
pub(crate) fn push_decimal(out: &mut String, n: u64)
    ensures
        final(out)@ == old(out)@ + dec_digits(n as nat),
    decreases n,
{
    if n >= 10 {
        push_decimal(out, n / 10);
    }
    push_str(out, digit_str(n % 10));
}

/// Appends the Graphviz identifier of a key.
fn push_node_id(out: &mut String, k: u64)
    ensures
        final(out)@ == old(out)@ + node_id(k),
{
    push_str(out, "node_");
    push_decimal(out, k % 0x1_0000_0000u64);
    push_str(out, "v");
    push_decimal(out, k / 0x1_0000_0000u64);
}

proof fn lemma_count_none_le(ps: Seq<MaybeNodeKey>, j: nat)
    ensures
        count_none(ps, j) <= j,
    decreases j,
{
    if j > 0 {
        lemma_count_none_le(ps, (j - 1) as nat);
    }
}

proof fn lemma_nones_before_le(g: Map<u64, GradNode>, order: Seq<u64>, n: nat)
    ensures
        nones_before(g, order, n) <= 2 * n,
    decreases n,
{
    if n > 0 {
        lemma_nones_before_le(g, order, (n - 1) as nat);
        let ps = stored_parents(g, order[n - 1]);
        lemma_count_none_le(ps, ps.len());
        if g.contains_key(order[n - 1]) {
            assert(node_parents(g[order[n - 1]]).len() <= 2);
        }
    }
}

/// A duplicate-free sequence of stored keys is no longer than the store.
proof fn lemma_order_len(g: Map<u64, GradNode>, order: Seq<u64>)
    requires
        g.dom().finite(),
        order.no_duplicates(),
        forall|i: int| 0 <= i < order.len() ==> g.contains_key(#[trigger] order[i]),
    ensures
        order.len() <= g.dom().len(),
{
    order.unique_seq_to_set();
    assert(order.to_set().subset_of(g.dom()));
    vstd::set_lib::lemma_len_subset(order.to_set(), g.dom());
}

impl GradContext {
    /// A Graphviz document of the graph `root` depends on: one record per
    /// node (the placeholder excluded), one edge per parent link, and a
    /// fresh grey node for each untracked parent, listed in a topological
    /// order of the nodes.
    ///
    /// Errors: those of `graph_toposort`.
    pub fn graphviz(&self, root: MaybeNodeKey) -> (r: Result<String, TensorError>)
        requires
            self.wf(),
        ensures
            r matches Ok(text) ==> exists|order: Seq<u64>|
                topo_order(self.graph(), self.none_node.0, resolve(root, self.none_node.0), order) && text@
                    == #[trigger] dot_text(self.graph(), self.none_node.0, order),
            r matches Err(e) ==> e is GradError,
            r is Ok <==> !(has_cycle_from(self.graph(), self.none_node.0, resolve(root, self.none_node.0))
                || has_missing_from(self.graph(), self.none_node.0, resolve(root, self.none_node.0))),
    {
        let node_order = self.graph_toposort(root)?;
        let ghost g = self.graph();
        let nk = self.none_node.0;
        let ghost ord = key_values(node_order@);
        proof {
            lemma_order_len(g, ord);
        }
        let mut dot = msg("digraph Autograd {\n");
        push_str(&mut dot, "    node [shape=record fontname=monospace];\n\n");
        let ghost head = dot@;
        let n = node_order.len();
        let mut i: usize = 0;
        while i < n
            invariant
                self.wf(),
                g == self.graph(),
                nk == self.none_node.0,
                n == node_order@.len(),
                ord == key_values(node_order@),
                i <= n,
                dot@ == head + dot_nodes(g, nk, ord, i as nat),
            decreases n - i,
        {
            let k = node_order[i].0;
            let ghost before = dot@;
            if k != nk {
                match self.lookup(k) {
                    Some(node) => {
                        push_str(&mut dot, "    ");
                        push_node_id(&mut dot, k);
                        push_str(&mut dot, " [label=\"");
                        let label = node.label();
                        push_str(&mut dot, label.as_str());
                        push_str(&mut dot, "\"];\n");
                        assert(dot@ =~= before + dot_node_line(g, k));
                    },
                    None => {},
                }
            }
            assert(ord[i as int] == k);
            i = i + 1;
            assert(dot@ =~= head + dot_nodes(g, nk, ord, i as nat));
        }
        push_str(&mut dot, "\n");
        let ghost head2 = dot@;
        let mut none_counter: u64 = 0;
        let mut i: usize = 0;
        while i < n
            invariant
                self.wf(),
                g == self.graph(),
                nk == self.none_node.0,
                n == node_order@.len(),
                n <= u32::MAX,
                ord == key_values(node_order@),
                i <= n,
                dot@ == head2 + dot_edges(g, ord, i as nat),
                none_counter == nones_before(g, ord, i as nat),
            decreases n - i,
        {
            let k = node_order[i].0;
            assert(ord[i as int] == k);
            let ghost before = dot@;
            let ghost c0 = none_counter as nat;
            proof {
                lemma_nones_before_le(g, ord, i as nat);
            }
            match self.lookup(k) {
                Some(node) => {
                    let ps = node.parents();
                    assert(ps@ == stored_parents(g, k));
                    assert(ps@.len() <= 2);
                    let mut j: usize = 0;
                    while j < ps.len()
                        invariant
                            ps@.len() <= 2,
                            j <= ps@.len(),
                            c0 <= 2 * (u32::MAX as nat),
                            dot@ == before + dot_node_edges(k, ps@, c0, j as nat),
                            none_counter == c0 + count_none(ps@, j as nat),
                        decreases ps@.len() - j,
                    {
                        let ghost mid = dot@;
                        proof {
                            lemma_count_none_le(ps@, j as nat);
                        }
                        match ps[j] {
                            Some(pk) => {
                                push_str(&mut dot, "    ");
                                push_node_id(&mut dot, pk.0);
                                push_str(&mut dot, " -> ");
                                push_node_id(&mut dot, k);
                                push_str(&mut dot, ";\n");
                            },
                            None => {
                                push_str(&mut dot, "    ");
                                push_str(&mut dot, "none_");
                                push_decimal(&mut dot, none_counter);
                                push_str(&mut dot, " [label=\"{Leaf|requires_grad=false}\" style=filled fillcolor=lightgray];\n");
                                push_str(&mut dot, "    ");
                                push_str(&mut dot, "none_");
                                push_decimal(&mut dot, none_counter);
                                push_str(&mut dot, " -> ");
                                push_node_id(&mut dot, k);
                                push_str(&mut dot, " [style=dashed color=gray];\n");
                                none_counter = none_counter + 1;
                            },
                        }
                        assert(dot@ =~= mid + dot_parent_edge(k, ps@[j as int], c0 + count_none(ps@, j as nat)));
                        j = j + 1;
                    }
                },
                None => {
                    assert(stored_parents(g, k) =~= Seq::<MaybeNodeKey>::empty());
                },
            }
            i = i + 1;
            assert(dot@ =~= head2 + dot_edges(g, ord, i as nat));
        }
        push_str(&mut dot, "}\n");
        assert(dot@ =~= dot_text(g, nk, ord));
        Ok(dot)
    }
}

// ---------------------------------------------------------------------------
// Turning tracking on and off
// ---------------------------------------------------------------------------

/// Whether gradients are tracked: a switch that turns tracking off, and the
/// context, once one has been created.
pub struct GradState {
    pub disabled: bool,
    pub context: Option<GradContext>,
}

impl GradState {
    /// Tracking on, no context yet.
    pub fn new() -> (s: Self)
        ensures
            !s.disabled,
            s.context is None,
    {
        GradState { disabled: false, context: None }
    }
}

/// Runs `f` with tracking turned off, then puts the switch back as it was.
pub fn no_grad<R, F: FnOnce(&GradState) -> R>(state: &mut GradState, f: F) -> (r: R)
    requires
        call_requires(f, (&(GradState { disabled: true, context: old(state).context }),)),
    ensures
        final(state).disabled == old(state).disabled,
        final(state).context == old(state).context,
        call_ensures(f, (&(GradState { disabled: true, context: old(state).context }),), r),
{
    let previous = state.disabled;
    state.disabled = true;
    let r = f(&*state);
    state.disabled = previous;
    r
}

/// Runs `f` on the context unless tracking is off; creates the context
/// first when there is none.
pub fn with<F: FnOnce(&GradContext)>(state: &mut GradState, f: F)
    requires
        old(state).context matches Some(c) ==> c.wf(),
        forall|c: &GradContext| c.wf() ==> call_requires(f, (c,)),
    ensures
        final(state).disabled == old(state).disabled,
        old(state).disabled ==> final(state).context == old(state).context,
        !old(state).disabled ==> (final(state).context matches Some(c) && c.wf() && call_ensures(f, (&c,), ())),
        !old(state).disabled && old(state).context is Some ==> final(state).context == old(state).context,
        !old(state).disabled && old(state).context is None ==> final(state).context.unwrap().graph().dom()
            == set![final(state).context.unwrap().none_node.0],
{
    if state.disabled {
        return;
    }
    if state.context.is_none() {
        state.context = Some(GradContext::new());
    }
    match &state.context {
        Some(ctx) => f(ctx),
        None => {},
    }
}

/// Whether operations are recorded: tracking is on and a context exists.
pub fn is_enabled(state: &GradState) -> (b: bool)
    ensures
        b == (!state.disabled && state.context is Some),
{
    if state.disabled {
        return false;
    }
    state.context.is_some()
}

/// Runs `f` on the context when operations are recorded.
pub fn when_enabled<R, F: FnOnce(&GradContext) -> R>(state: &GradState, f: F) -> (r: Option<R>)
    requires
        state.context matches Some(c) ==> call_requires(f, (&c,)),
    ensures
        (state.disabled || state.context is None) ==> r is None,
        (!state.disabled && state.context is Some) ==> (r matches Some(v) && call_ensures(
            f,
            (&state.context.unwrap(),),
            v,
        )),
{
    if state.disabled {
        return None;
    }
    match &state.context {
        Some(ctx) => Some(f(ctx)),
        None => None,
    }
}

/// Runs `f` when operations are not recorded.
pub fn when_disabled<F: FnOnce()>(state: &GradState, f: F)
    requires
        call_requires(f, ()),
    ensures
        (state.disabled || state.context is None) ==> call_ensures(f, (), ()),
{
    if state.disabled {
        f();
        return;
    }
    if state.context.is_none() {
        f();
    }
}

/// Runs `f` when operations are recorded, with tracking turned off while it
/// runs; the switch is put back afterwards.
pub fn without_enabled<R, F: FnOnce(&GradState) -> R>(state: &mut GradState, f: F) -> (r: Option<R>)
    requires
        call_requires(f, (&(GradState { disabled: true, context: old(state).context }),)),
    ensures
        final(state).disabled == old(state).disabled,
        final(state).context == old(state).context,
        (old(state).disabled || old(state).context is None) ==> r is None,
        (!old(state).disabled && old(state).context is Some) ==> (r matches Some(v) && call_ensures(
            f,
            (&(GradState { disabled: true, context: old(state).context }),),
            v,
        )),
{
    if !is_enabled(state) {
        return None;
    }
    Some(no_grad(state, f))
}

/// Like `when_enabled`, and hands back `message` as a warning to report when
/// operations are not recorded: `f` runs only when tracking is on and a
/// context exists, and the state is left as it is.
pub fn enabled_or_warn<F: FnOnce(&GradContext)>(state: &GradState, f: F, message: &str) -> (warning:
    Option<String>)
    requires
        state.context matches Some(c) ==> call_requires(f, (&c,)),
    ensures
        (state.disabled || state.context is None) ==> (warning matches Some(w) && w@ == message@),
        (!state.disabled && state.context is Some) ==> (warning is None && call_ensures(
            f,
            (&state.context.unwrap(),),
            (),
        )),
{
    if state.disabled {
        return Some(String::from_str(message));
    }
    match &state.context {
        Some(ctx) => {
            f(ctx);
            None
        },
        None => Some(String::from_str(message)),
    }
}

// ---------------------------------------------------------------------------
// Tensors that carry a node
// ---------------------------------------------------------------------------

/// `n` records a permutation by `dims` of the output of node `input`.
pub open spec fn permute_node_of(n: GradNode, input: NodeKey, dims: Seq<usize>) -> bool {
    n matches GradNode::Permute { input: i, dims: d } && i == Some(input) && d@ == dims
}

/// A tensor together with the node that produced it.
pub struct GradTensor<T> {
    pub inner: TensorBase<T>,
    pub node: NodeKey,
}

impl<T> GradTensor<T> {
    /// Whether the tensor's node is a parameter leaf.
    pub fn is_leaf(&self, ctx: &GradContext) -> (b: bool)
        requires
            ctx.wf(),
            ctx.graph().contains_key(self.node.0),
        ensures
            b == (ctx.graph()[self.node.0] is Leaf),
    {
        match ctx.lookup(self.node.0) {
            Some(node) => node.is_leaf(),
            None => false,
        }
    }

    /// The tensor.
    pub fn get_ref(&self) -> (r: &TensorBase<T>)
        ensures
            *r == self.inner,
    {
        &self.inner
    }

    /// Reorders the dimensions of the tensor by `dims` (without copying) and
    /// records a `Permute` node whose input is the tensor's node.
    ///
    /// Errors: `WrongDims` when `dims` does not have one entry per dimension,
    /// `InvalidDim` when it is not an ordering of the dimensions; nothing is
    /// recorded then.
    pub fn permute(self, ctx: &mut GradContext, dims: &Idx) -> (r: Result<Self, TensorError>)
        where T: Copy,
        requires
            self.inner.wf(),
            old(ctx).wf(),
        ensures
            final(ctx).wf(),
            final(ctx).none_node == old(ctx).none_node,
            dims.coord().len() != self.inner.spec_shape().len() ==> (r matches Err(e) && e is WrongDims),
            dims.coord().len() == self.inner.spec_shape().len() && !is_perm(
                dims.coord(),
                self.inner.spec_shape().len() as int,
            ) ==> (r matches Err(e) && e is InvalidDim),
            r is Err ==> final(ctx).graph() == old(ctx).graph(),
            is_perm(dims.coord(), self.inner.spec_shape().len() as int) && !old(ctx).has_room() ==> (r matches Err(
                e,
            ) && e is GradError),
            is_perm(dims.coord(), self.inner.spec_shape().len() as int) && old(ctx).has_room() ==> (r matches Ok(t) && t.inner.wf()
                && t.inner.data() == self.inner.data() && t.inner.spec_shape() == permuted(
                self.inner.spec_shape(),
                dims.coord(),
            ) && t.inner.spec_strides() == permuted(self.inner.spec_strides(), dims.coord())
                && t.inner.spec_offset() == self.inner.spec_offset() && !old(ctx).graph().contains_key(
                t.node.0,
            ) && final(ctx).graph() == old(ctx).graph().insert(t.node.0, final(ctx).graph()[t.node.0])
                && permute_node_of(final(ctx).graph()[t.node.0], self.node, dims.coord())),
    {
        let meta = {
            let v = self.inner.permute(dims)?;
            proof {
                use_type_invariant(&v);
            }
            MetaTensor::new(v.meta.shape.clone(), v.meta.strides.clone(), v.meta.offset)
        };
        let inner = TensorBase::from_parts(self.inner.buf, meta);
        let node = ctx.attach(GradNode::Permute { input: Some(self.node), dims: dims.to_vec() })?;
        Ok(GradTensor { inner, node })
    }

    /// Reverses the order of the dimensions (a permutation that always
    /// applies) and records it as a `Permute` node.
    ///
    /// Errors: `GradError` when the context has no room for the node;
    /// nothing is recorded then.
    pub fn transpose(self, ctx: &mut GradContext) -> (r: Result<Self, TensorError>)
        where T: Copy,
        requires
            self.inner.wf(),
            old(ctx).wf(),
        ensures
            final(ctx).wf(),
            final(ctx).none_node == old(ctx).none_node,
            !old(ctx).has_room() ==> (r matches Err(e) && e is GradError && final(ctx).graph() == old(ctx).graph()),
            old(ctx).has_room() ==> (r matches Ok(t) && t.inner.wf() && t.inner.data() == self.inner.data()
                && t.inner.spec_shape() == permuted(
                self.inner.spec_shape(),
                reversed_dims(self.inner.spec_shape().len() as int),
            ) && t.inner.spec_strides() == permuted(
                self.inner.spec_strides(),
                reversed_dims(self.inner.spec_shape().len() as int),
            ) && t.inner.spec_offset() == self.inner.spec_offset() && !old(ctx).graph().contains_key(t.node.0)
                && final(ctx).graph() == old(ctx).graph().insert(t.node.0, final(ctx).graph()[t.node.0])
                && permute_node_of(
                final(ctx).graph()[t.node.0],
                self.node,
                reversed_dims(self.inner.spec_shape().len() as int),
            )),
    {
        let rank = self.inner.rank();
        let dims = reversed_dims_vec(rank);
        let meta = {
            let v = self.inner.transpose();
            proof {
                use_type_invariant(&v);
            }
            MetaTensor::new(v.meta.shape.clone(), v.meta.strides.clone(), v.meta.offset)
        };
        let inner = TensorBase::from_parts(self.inner.buf, meta);
        let node = ctx.attach(GradNode::Permute { input: Some(self.node), dims })?;
        Ok(GradTensor { inner, node })
    }

    /// The element of a rank-0 tensor.
    ///
    /// Errors: `WrongDims` when the tensor has dimensions.
    pub fn item(&self) -> (r: Result<T, TensorError>)
        where T: Copy,
        requires
            self.inner.wf(),
            index_computable(self.inner.spec_strides(), self.inner.spec_offset(), Idx::Item),
        ensures
            read_result(self.inner.data(), self.inner.spec_strides(), self.inner.spec_offset(), Idx::Item, r),
    {
        self.inner.item()
    }

    /// A contiguous copy of the tensor.
    pub fn copy_tensor(&self) -> (t: TensorBase<T>)
        where T: Copy,
        requires
            self.inner.wf(),
            sizes_fit(self.inner.spec_shape()),
        ensures
            t.wf(),
            t.spec_shape() == self.inner.spec_shape(),
            is_row_major(t.spec_shape(), t.spec_strides()),
            t.elems() == self.inner.elems(),
    {
        self.inner.contiguous()
    }

    /// A parameter: the tensor recorded under a new `Leaf` node.
    ///
    /// Errors: `GradError` when the context has no room for the node.
    pub fn leaf(ctx: &mut GradContext, tensor: TensorBase<T>) -> (r: Result<Self, TensorError>)
        requires
            old(ctx).wf(),
        ensures
            final(ctx).wf(),
            final(ctx).none_node == old(ctx).none_node,
            !old(ctx).has_room() ==> (r matches Err(e) && e is GradError && final(ctx).graph() == old(ctx).graph()),
            old(ctx).has_room() ==> (r matches Ok(t) && t.inner == tensor && !old(ctx).graph().contains_key(t.node.0)
                && final(ctx).graph() == old(ctx).graph().insert(t.node.0, GradNode::Leaf)),
    {
        Self::from_op(ctx, tensor, GradNode::Leaf)
    }

    /// An input that needs no gradient: the tensor recorded under a new
    /// `Input` node.
    ///
    /// Errors: `GradError` when the context has no room for the node.
    pub fn input(ctx: &mut GradContext, value: TensorBase<T>) -> (r: Result<Self, TensorError>)
        requires
            old(ctx).wf(),
        ensures
            final(ctx).wf(),
            final(ctx).none_node == old(ctx).none_node,
            !old(ctx).has_room() ==> (r matches Err(e) && e is GradError && final(ctx).graph() == old(ctx).graph()),
            old(ctx).has_room() ==> (r matches Ok(t) && t.inner == value && !old(ctx).graph().contains_key(t.node.0)
                && final(ctx).graph() == old(ctx).graph().insert(t.node.0, GradNode::Input)),
    {
        Self::from_op(ctx, value, GradNode::Input)
    }

    /// The result of an operation: the tensor recorded under a new node `op`.
    ///
    /// Errors: `GradError` when the context has no room for the node.
    pub fn from_op(ctx: &mut GradContext, tensor: TensorBase<T>, op: GradNode) -> (r: Result<Self, TensorError>)
        requires
            old(ctx).wf(),
        ensures
            final(ctx).wf(),
            final(ctx).none_node == old(ctx).none_node,
            !old(ctx).has_room() ==> (r matches Err(e) && e is GradError && final(ctx).graph() == old(ctx).graph()),
            old(ctx).has_room() ==> (r matches Ok(t) && t.inner == tensor && !old(ctx).graph().contains_key(t.node.0)
                && final(ctx).graph() == old(ctx).graph().insert(t.node.0, op)),
    {
        let node = ctx.attach(op)?;
        Ok(GradTensor { inner: tensor, node })
    }
}

} // verus!

use vstd::prelude::*;

use std::num::NonZeroU32;

use crate::coords::{DocByte, DocLine, NodeByteOffset, VisualCol};
use crate::edits::lossy_text;

verus! {

/// A node of the document tree: one more than its index in the registry's arrays, held
/// as a `NonZeroU32` so that `Option<NodeId>` takes no more room than the id itself.
/// Verus cannot declare `NonZeroU32` (its generic bound is an unstable trait), so the id
/// is opaque to proofs and read through `node_number`.
#[verifier::external_body]
pub struct NodeId(pub NonZeroU32);

impl Clone for NodeId {
    fn clone(&self) -> (r: Self)
        ensures
            r == *self,
    {
        *self
    }
}

impl Copy for NodeId {
}

/// The number a node id holds.
pub uninterp spec fn node_number(id: NodeId) -> u32;

/// `NonZeroU32::get` on the id: the number held, never zero.
#[verifier::external_body]
fn node_id_number(id: NodeId) -> (r: u32)
    ensures
        r == node_number(id),
        r > 0,
{
    id.0.get()
}

/// `NonZeroU32::new(v).unwrap()` on a non-zero `v`: the id holding `v`. A `NonZeroU32`
/// is its number, so every id holding `v` is this one.
#[verifier::external_body]
fn node_id_from_number(v: u32) -> (r: NodeId)
    requires
        v > 0,
    ensures
        node_number(r) == v,
        forall|n: NodeId| node_number(n) == v ==> n == r,
{
    NodeId(NonZeroU32::new(v).unwrap())
}

/// Index of a node in the registry's arrays.
pub open spec fn node_index(n: NodeId) -> int {
    node_number(n) - 1
}

impl NodeId {
    pub fn index(self) -> (r: usize)
        ensures
            r == node_index(self),
    {
        let v = node_id_number(self);
        (v - 1) as usize
    }

    pub fn from_index(idx: usize) -> (r: Self)
        requires
            idx < u32::MAX,
        ensures
            node_index(r) == idx,
            forall|n: NodeId| node_index(n) == idx ==> n == r,
    {
        node_id_from_number(idx as u32 + 1)
    }
}

/// `link` is present and names the same node as `node`.
pub open spec fn names(link: Option<NodeId>, node: NodeId) -> bool {
    link matches Some(n) && node_number(n) == node_number(node)
}

/// Links of a node in a left-child / right-sibling tree.
#[derive(Clone, Copy)]
pub struct TreeEdges {
    pub parent: Option<NodeId>,
    pub first_child: Option<NodeId>,
    pub next_sibling: Option<NodeId>,
}

impl Default for TreeEdges {
    fn default() -> (r: Self)
        ensures
            r.parent is None && r.first_child is None && r.next_sibling is None,
    {
        TreeEdges { parent: None, first_child: None, next_sibling: None }
    }
}

/// Size of a span of text: bytes and newlines.
#[derive(Debug, Clone, Copy)]
pub struct SpanMetrics {
    pub byte_length: u32,
    pub newlines: u32,
}

impl Default for SpanMetrics {
    fn default() -> (r: Self)
        ensures
            r.byte_length == 0 && r.newlines == 0,
    {
        SpanMetrics { byte_length: 0, newlines: 0 }
    }
}

/// What a node stands for.
#[derive(Debug, Clone, Copy, PartialEq, Eq, Structural)]
pub enum SemanticKind {
    RelationalTable,
    RelationalRow,
    Token,
}

/// Where the bytes of a leaf live on the storage device.
#[derive(Debug, Clone, Copy)]
pub struct SvpPointer {
    pub lba: u64,
    pub byte_length: u32,
    pub device_id: u16,
    pub head_trim: u16,
}

/// A node's text as handed to the renderer.
pub struct RenderToken {
    pub node_id: NodeId,
    pub kind: SemanticKind,
    pub text: Vec<u8>,
    pub physical_byte_len: u32,
    pub absolute_start_line: DocLine,
    pub absolute_start_byte: DocByte,
    pub is_virtual: bool,
    pub is_folded: bool,
}

/// A cursor placed inside a node.
#[derive(Clone, Copy)]
pub struct NodeCursorTarget {
    pub node_id: NodeId,
    pub node_byte: NodeByteOffset,
    pub visual_col: VisualCol,
}

/// A document byte placed inside a node.
#[derive(Clone, Copy)]
pub struct NodeByteTarget {
    pub node_id: NodeId,
    pub node_start_byte: DocByte,
    pub node_end_byte: DocByte,
    pub node_byte: NodeByteOffset,
}

/// How a minimap was built.
#[derive(Debug, Clone, Copy, PartialEq, Eq, Structural)]
pub enum MinimapMode {
    TextDensity,
    ByteFallback,
}

/// The document tree, as parallel arrays indexed by node.
pub struct UastRegistry {
    pub capacity: u32,
    pub next_id: u32,
    pub kinds: Vec<SemanticKind>,
    pub spans: Vec<Option<SvpPointer>>,
    pub metrics: Vec<SpanMetrics>,
    pub edges: Vec<TreeEdges>,
    pub child_tails: Vec<Option<NodeId>>,
    pub virtual_data: Vec<Option<Vec<u8>>>,
    pub dma_in_flight: Vec<bool>,
    pub metrics_inflated: Vec<bool>,
    pub is_folded: Vec<bool>,
}

/// A node that no link has touched yet.
pub open spec fn pristine(e: TreeEdges) -> bool {
    e.parent is None && e.first_child is None && e.next_sibling is None
}

/// A link that, when present, names a node inside the arrays.
pub open spec fn link_in(link: Option<NodeId>, capacity: int) -> bool {
    link matches Some(n) ==> 0 <= node_index(n) < capacity
}

impl UastRegistry {
    /// Every array has one entry per node, and every link names a node of the arrays.
    pub open spec fn wf(&self) -> bool {
        let cap = self.capacity as int;
        &&& self.kinds@.len() == cap
        &&& self.spans@.len() == cap
        &&& self.metrics@.len() == cap
        &&& self.edges@.len() == cap
        &&& self.child_tails@.len() == cap
        &&& self.virtual_data@.len() == cap
        &&& self.dma_in_flight@.len() == cap
        &&& self.metrics_inflated@.len() == cap
        &&& self.is_folded@.len() == cap
        &&& forall|i: int|
            0 <= i < cap ==> link_in((#[trigger] self.edges@[i]).parent, cap) && link_in(
                self.edges@[i].first_child,
                cap,
            ) && link_in(self.edges@[i].next_sibling, cap)
        &&& forall|i: int| 0 <= i < cap ==> link_in(#[trigger] self.child_tails@[i], cap)
        &&& self.next_id >= 1
        &&& forall|i: int|
            0 <= i < cap ==> link_in((#[trigger] self.edges@[i]).parent, self.next_id - 1)
                && link_in(self.edges@[i].first_child, self.next_id - 1) && link_in(
                self.edges@[i].next_sibling,
                self.next_id - 1,
            ) && link_in(self.child_tails@[i], self.next_id - 1)
        &&& forall|i: int|
            self.next_id - 1 <= i < cap ==> pristine((#[trigger] self.edges@[i]))
                && self.child_tails@[i] is None
    }

    /// An empty registry with room for `capacity` nodes; ids start at 1.
    pub fn new(capacity: u32) -> (r: Self)
        ensures
            r.wf(),
            r.capacity == capacity,
            r.next_id == 1,
            forall|i: int|
                0 <= i < capacity ==> #[trigger] r.kinds@[i] == SemanticKind::Token
                    && r.spans@[i] is None && r.metrics@[i].byte_length == 0
                    && r.metrics@[i].newlines == 0 && r.edges@[i].parent is None
                    && r.edges@[i].first_child is None && r.edges@[i].next_sibling is None
                    && r.child_tails@[i] is None && r.virtual_data@[i] is None
                    && !r.dma_in_flight@[i] && !r.metrics_inflated@[i],
    {
        let mut kinds: Vec<SemanticKind> = Vec::new();
        let mut spans: Vec<Option<SvpPointer>> = Vec::new();
        let mut metrics: Vec<SpanMetrics> = Vec::new();
        let mut edges: Vec<TreeEdges> = Vec::new();
        let mut child_tails: Vec<Option<NodeId>> = Vec::new();
        let mut virtual_data: Vec<Option<Vec<u8>>> = Vec::new();
        let mut dma_in_flight: Vec<bool> = Vec::new();
        let mut metrics_inflated: Vec<bool> = Vec::new();
        let mut is_folded: Vec<bool> = Vec::new();
        let mut i: u32 = 0;
        while i < capacity
            invariant
                i <= capacity,
                kinds@.len() == i && spans@.len() == i && metrics@.len() == i && edges@.len()
                    == i && child_tails@.len() == i && virtual_data@.len() == i
                    && dma_in_flight@.len() == i && metrics_inflated@.len() == i
                    && is_folded@.len() == i,
                forall|k: int|
                    0 <= k < i ==> #[trigger] kinds@[k] == SemanticKind::Token && spans@[k] is None
                        && metrics@[k].byte_length == 0 && metrics@[k].newlines == 0
                        && edges@[k].parent is None && edges@[k].first_child is None
                        && edges@[k].next_sibling is None && child_tails@[k] is None
                        && virtual_data@[k] is None && !dma_in_flight@[k]
                        && !metrics_inflated@[k],
            decreases capacity - i,
        {
            kinds.push(SemanticKind::Token);
            spans.push(None);
            metrics.push(SpanMetrics { byte_length: 0, newlines: 0 });
            edges.push(TreeEdges { parent: None, first_child: None, next_sibling: None });
            child_tails.push(None);
            virtual_data.push(None);
            dma_in_flight.push(false);
            metrics_inflated.push(false);
            is_folded.push(false);
            i = i + 1;
        }
        proof {
            assert forall|k: int| 0 <= k < capacity implies link_in((#[trigger] edges@[k]).parent, capacity as int)
                && link_in(edges@[k].first_child, capacity as int) && link_in(
                edges@[k].next_sibling,
                capacity as int,
            ) by {
                assert(kinds@[k] == SemanticKind::Token);
            }
            assert forall|k: int| 0 <= k < capacity implies link_in(#[trigger] child_tails@[k], capacity as int) by {
                assert(kinds@[k] == SemanticKind::Token);
            }
            assert forall|k: int| 0 <= k < capacity implies pristine(#[trigger] edges@[k])
                && child_tails@[k] is None by {
                assert(kinds@[k] == SemanticKind::Token);
            }
        }
        UastRegistry {
            capacity,
            next_id: 1,
            kinds,
            spans,
            metrics,
            edges,
            child_tails,
            virtual_data,
            dma_in_flight,
            metrics_inflated,
            is_folded,
        }
    }

    /// Takes the next id for a node created by an edit. The id must fit the arrays.
    pub fn alloc_node_internal(&mut self) -> (r: NodeId)
        requires
            old(self).wf(),
            1 <= old(self).next_id <= old(self).capacity,
            old(self).capacity < u32::MAX,
        ensures
            final(self).wf(),
            node_index(r) == old(self).next_id - 1,
            final(self).next_id == old(self).next_id + 1,
            final(self).capacity == old(self).capacity,
            final(self).kinds == old(self).kinds && final(self).spans == old(self).spans
                && final(self).metrics == old(self).metrics && final(self).edges == old(
                self,
            ).edges && final(self).child_tails == old(self).child_tails
                && final(self).virtual_data == old(self).virtual_data
                && final(self).dma_in_flight == old(self).dma_in_flight
                && final(self).metrics_inflated == old(self).metrics_inflated
                && final(self).is_folded == old(self).is_folded,
    {
        let id_val = self.next_id;
        self.next_id = self.next_id + 1;
        proof {
            let cap = self.capacity as int;
            assert forall|i: int| 0 <= i < cap implies link_in((#[trigger] self.edges@[i]).parent, self.next_id - 1)
                && link_in(self.edges@[i].first_child, self.next_id - 1) && link_in(
                self.edges@[i].next_sibling,
                self.next_id - 1,
            ) && link_in(self.child_tails@[i], self.next_id - 1) by {
                assert(link_in(old(self).edges@[i].parent, old(self).next_id - 1));
            }
            assert forall|i: int| self.next_id - 1 <= i < cap implies pristine((#[trigger] self.edges@[i]))
                && self.child_tails@[i] is None by {
                assert(pristine(old(self).edges@[i]));
            }
            assert(self.wf());
        }
        NodeId::from_index((id_val - 1) as usize)
    }

    /// Reserves `size` consecutive ids for one writer. The counter moves on even when
    /// the ids run past the capacity, in which case there is no chunk.
    pub fn reserve_chunk(&mut self, size: u32) -> (r: Option<RegistryChunk>)
        requires
            old(self).wf(),
            old(self).next_id + size <= u32::MAX,
            old(self).capacity < u32::MAX,
        ensures
            final(self).wf(),
            final(self).next_id == old(self).next_id + size,
            final(self).capacity == old(self).capacity,
            final(self).kinds == old(self).kinds && final(self).spans == old(self).spans
                && final(self).metrics == old(self).metrics && final(self).edges == old(
                self,
            ).edges && final(self).child_tails == old(self).child_tails
                && final(self).virtual_data == old(self).virtual_data
                && final(self).dma_in_flight == old(self).dma_in_flight
                && final(self).metrics_inflated == old(self).metrics_inflated
                && final(self).is_folded == old(self).is_folded,
            r is None <==> old(self).next_id + size > old(self).capacity + 1,
            r matches Some(c) ==> c.first_id() == old(self).next_id && c.size() == size && c.used()
                == 0,
    {
        let start_id = self.next_id;
        self.next_id = self.next_id + size;
        if start_id + size > self.capacity + 1 {
            return None;
        }
        Some(RegistryChunk { start_id, len: size, offset: 0 })
    }

    /// Stores the loaded text of a node.
    pub fn hot_swap_virtual_data(&mut self, node: NodeId, data: Vec<u8>)
        requires
            old(self).wf(),
            0 <= node_index(node) < old(self).capacity,
        ensures
            final(self).wf(),
            final(self).virtual_data@ == old(self).virtual_data@.update(
                node_index(node),
                Some(data),
            ),
            final(self).capacity == old(self).capacity && final(self).next_id == old(
                self,
            ).next_id,
            final(self).kinds == old(self).kinds && final(self).spans == old(self).spans
                && final(self).metrics == old(self).metrics && final(self).edges == old(
                self,
            ).edges && final(self).child_tails == old(self).child_tails
                && final(self).dma_in_flight == old(self).dma_in_flight
                && final(self).metrics_inflated == old(self).metrics_inflated
                && final(self).is_folded == old(self).is_folded,
    {
        let idx = node.index();
        self.virtual_data.set(idx, Some(data));
    }

    /// The loaded text of a node, decoded leniently; empty until it is loaded.
    pub fn resolve_physical_bytes(&self, node: NodeId) -> (r: String)
        requires
            self.wf(),
            0 <= node_index(node) < self.capacity,
        ensures
            match self.virtual_data@[node_index(node)] {
                Some(data) => r@ == lossy_text(data@),
                None => r@ == Seq::<char>::empty(),
            },
    {
        let idx = node.index();
        match &self.virtual_data[idx] {
            Some(data) => crate::edits::utf8_lossy(data.as_slice()),
            None => String::new(),
        }
    }

    pub fn get_first_child(&self, node: NodeId) -> (r: Option<NodeId>)
        requires
            self.wf(),
            0 <= node_index(node) < self.capacity,
        ensures
            r == self.edges@[node_index(node)].first_child,
    {
        self.edges[node.index()].first_child
    }

    pub fn get_next_sibling(&self, node: NodeId) -> (r: Option<NodeId>)
        requires
            self.wf(),
            0 <= node_index(node) < self.capacity,
        ensures
            r == self.edges@[node_index(node)].next_sibling,
    {
        self.edges[node.index()].next_sibling
    }

    pub fn get_total_newlines(&self, node: NodeId) -> (r: u32)
        requires
            self.wf(),
            0 <= node_index(node) < self.capacity,
        ensures
            r == self.metrics@[node_index(node)].newlines,
    {
        self.metrics[node.index()].newlines
    }

    pub fn get_total_bytes(&self, node: NodeId) -> (r: u64)
        requires
            self.wf(),
            0 <= node_index(node) < self.capacity,
        ensures
            r == self.metrics@[node_index(node)].byte_length,
    {
        self.metrics[node.index()].byte_length as u64
    }
}

/// `m + d` wrapped into 32 bits.
pub open spec fn wrap_add(m: u32, d: i32) -> u32 {
    let s = m + d;
    if s > u32::MAX {
        (s - 0x1_0000_0000) as u32
    } else if s < 0 {
        (s + 0x1_0000_0000) as u32
    } else {
        s as u32
    }
}

/// Metrics with `db` bytes and `dn` newlines added, each wrapping into 32 bits.
pub open spec fn bumped(m: SpanMetrics, db: i32, dn: i32) -> SpanMetrics {
    SpanMetrics { byte_length: wrap_add(m.byte_length, db), newlines: wrap_add(m.newlines, dn) }
}

/// Metrics after an edit of `db` bytes and `dn` newlines at `node`: the node and each
/// ancestor up to the root are bumped. A parent chain of distinct nodes ends within
/// `fuel` steps, which the caller sets to the number of nodes.
pub open spec fn edited_metrics(
    metrics: Seq<SpanMetrics>,
    edges: Seq<TreeEdges>,
    node: int,
    db: i32,
    dn: i32,
    fuel: nat,
) -> Seq<SpanMetrics>
    decreases fuel,
{
    if fuel == 0 || !(0 <= node < metrics.len()) || node >= edges.len() {
        metrics
    } else {
        let m2 = metrics.update(node, bumped(metrics[node], db, dn));
        match edges[node].parent {
            None => m2,
            Some(p) => edited_metrics(m2, edges, node_index(p), db, dn, (fuel - 1) as nat),
        }
    }
}

fn wrapping_add_signed(m: u32, d: i32) -> (r: u32)
    ensures
        r == wrap_add(m, d),
{
    if d >= 0 {
        m.wrapping_add(d as u32)
    } else {
        m.wrapping_sub((-(d as i64)) as u32)
    }
}

impl UastRegistry {
    /// Adds `added_bytes` bytes and `added_newlines` newlines to the metrics of `target`
    /// and of each of its ancestors.
    pub fn apply_edit(&mut self, target: NodeId, added_bytes: i32, added_newlines: i32)
        requires
            old(self).wf(),
            0 <= node_index(target) < old(self).capacity,
        ensures
            final(self).wf(),
            final(self).metrics@ == edited_metrics(
                old(self).metrics@,
                old(self).edges@,
                node_index(target),
                added_bytes,
                added_newlines,
                old(self).capacity as nat,
            ),
            final(self).capacity == old(self).capacity && final(self).next_id == old(
                self,
            ).next_id,
            final(self).kinds == old(self).kinds && final(self).spans == old(self).spans
                && final(self).edges == old(self).edges && final(self).child_tails == old(
                self,
            ).child_tails && final(self).virtual_data == old(self).virtual_data
                && final(self).dma_in_flight == old(self).dma_in_flight
                && final(self).metrics_inflated == old(self).metrics_inflated
                && final(self).is_folded == old(self).is_folded,
    {
        let ghost goal = edited_metrics(
            self.metrics@,
            self.edges@,
            node_index(target),
            added_bytes,
            added_newlines,
            self.capacity as nat,
        );
        let ghost start = *self;
        let mut curr = Some(target);
        let mut fuel: u32 = self.capacity;
        while fuel > 0
            invariant
                self.wf(),
                self.capacity == start.capacity,
                self.next_id == start.next_id,
                self.kinds == start.kinds && self.spans == start.spans && self.edges == start.edges
                    && self.child_tails == start.child_tails && self.virtual_data
                    == start.virtual_data && self.dma_in_flight == start.dma_in_flight
                    && self.metrics_inflated == start.metrics_inflated
                    && self.is_folded == start.is_folded,
                curr matches Some(n) ==> 0 <= node_index(n) < self.capacity,
                goal == edited_metrics(
                    start.metrics@,
                    start.edges@,
                    node_index(target),
                    added_bytes,
                    added_newlines,
                    start.capacity as nat,
                ),
                goal == (match curr {
                    Some(n) => edited_metrics(
                        self.metrics@,
                        self.edges@,
                        node_index(n),
                        added_bytes,
                        added_newlines,
                        fuel as nat,
                    ),
                    None => self.metrics@,
                }),
            decreases fuel,
        {
            match curr {
                Some(node) => {
                    let idx = node.index();
                    let m = self.metrics[idx];
                    let bumped_metrics = SpanMetrics {
                        byte_length: wrapping_add_signed(m.byte_length, added_bytes),
                        newlines: wrapping_add_signed(m.newlines, added_newlines),
                    };
                    self.metrics.set(idx, bumped_metrics);
                    curr = self.edges[idx].parent;
                    fuel = fuel - 1;
                },
                None => {
                    fuel = 0;
                },
            }
        }
    }
}

/// The node reached from `start` by following `k` next-sibling links, if the chain is
/// that long.
pub open spec fn sibling_at(reg: UastRegistry, start: NodeId, k: nat) -> Option<NodeId>
    decreases k,
{
    if k == 0 {
        Some(start)
    } else {
        match sibling_at(reg, start, (k - 1) as nat) {
            Some(n) => if 0 <= node_index(n) < reg.edges@.len() {
                reg.edges@[node_index(n)].next_sibling
            } else {
                None
            },
            None => None,
        }
    }
}

/// `p` is the `k`-th sibling from `first`, the first in the chain whose next link names
/// `node`.
pub open spec fn is_prev_at(reg: UastRegistry, first: NodeId, node: NodeId, p: NodeId, k: nat) -> bool {
    &&& sibling_at(reg, first, k) == Some(p)
    &&& names(sibling_at(reg, first, k + 1), node)
    &&& forall|j: nat| j < k ==> !#[trigger] names(sibling_at(reg, first, j + 1), node)
}

/// The first child of the parent of `node`, if both exist.
pub open spec fn first_sibling(reg: UastRegistry, node: NodeId) -> Option<NodeId> {
    match reg.edges@[node_index(node)].parent {
        Some(p) => reg.edges@[node_index(p)].first_child,
        None => None,
    }
}

impl UastRegistry {
    /// The sibling just before `node`: walks its parent's children from the first one,
    /// at most `capacity` steps (a chain of siblings never holds more nodes than that).
    pub fn get_prev_sibling(&self, node: NodeId) -> (r: Option<NodeId>)
        requires
            self.wf(),
            0 <= node_index(node) < self.capacity,
        ensures
            first_sibling(*self, node) is None ==> r is None,
            first_sibling(*self, node) matches Some(f) && node_number(f) == node_number(node)
                ==> r is None,
            r matches Some(p) ==> first_sibling(*self, node) matches Some(f) && node_number(f)
                != node_number(node) && exists|k: nat|
                k < self.capacity && #[trigger] is_prev_at(*self, f, node, p, k),
            first_sibling(*self, node) matches Some(f) ==> (r is None && node_number(f)
                != node_number(node) ==> forall|j: nat|
                j < self.capacity ==> !#[trigger] names(sibling_at(*self, f, j + 1), node)),
    {
        let parent = match self.edges[node.index()].parent {
            Some(p) => p,
            None => {
                return None;
            },
        };
        let first = match self.edges[parent.index()].first_child {
            Some(f) => f,
            None => {
                return None;
            },
        };
        let node_idx = node.index();
        if first.index() == node_idx {
            return None;
        }
        let mut curr = first;
        let mut steps: u32 = 0;
        proof {
            assert(sibling_at(*self, first, 0) == Some(first));
        }
        while steps < self.capacity
            invariant
                self.wf(),
                0 <= node_index(curr) < self.capacity,
                node_idx == node_index(node),
                steps <= self.capacity,
                sibling_at(*self, first, steps as nat) == Some(curr),
                forall|j: nat| j < steps ==> !#[trigger] names(sibling_at(*self, first, j + 1), node),
                self.edges@[node_index(node)].parent == Some(parent),
                self.edges@[node_index(parent)].first_child == Some(first),
                node_index(first) != node_index(node),
            decreases self.capacity - steps,
        {
            let next = self.edges[curr.index()].next_sibling;
            proof {
                assert(sibling_at(*self, first, (steps + 1) as nat) == next);
            }
            match next {
                Some(n) => {
                    if n.index() == node_idx {
                        proof {
                            assert(names(sibling_at(*self, first, (steps + 1) as nat), node));
                            assert(sibling_at(*self, first, steps as nat) == Some(curr));
                            let k = steps as nat;
                            assert(k < self.capacity && sibling_at(*self, first, k) == Some(curr)
                                && names(sibling_at(*self, first, k + 1), node) && forall|j: nat|
                                j < k ==> !#[trigger] names(sibling_at(*self, first, j + 1), node));
                            assert(exists|k: nat|
                                k < self.capacity && #[trigger] sibling_at(*self, first, k) == Some(
                                    curr,
                                ) && names(sibling_at(*self, first, k + 1), node) && forall|
                                    j: nat,
                                | j < k ==> !#[trigger] names(sibling_at(*self, first, j + 1), node));
                            assert(self.edges@[node_index(node)].parent == Some(parent));
                            assert(self.edges@[node_index(parent)].first_child == Some(first));
                            assert(node_number(first) != node_number(node));
                            assert(is_prev_at(*self, first, node, curr, steps as nat));
                        }
                        return Some(curr);
                    }
                    curr = n;
                },
                None => {
                    proof {
                        assert forall|j: nat| j < self.capacity implies !#[trigger] names(
                            sibling_at(*self, first, j + 1),
                            node,
                        ) by {
                            if j >= steps {
                                lemma_sibling_chain_ends(*self, first, (steps + 1) as nat, j + 1);
                            }
                        }
                    }
                    return None;
                },
            }
            steps = steps + 1;
        }
        None
    }
}

/// Once a chain of siblings ends, it stays ended.
pub proof fn lemma_sibling_chain_ends(reg: UastRegistry, start: NodeId, k: nat, j: nat)
    requires
        sibling_at(reg, start, k) is None,
        k <= j,
    ensures
        sibling_at(reg, start, j) is None,
    decreases j - k,
{
    if k < j {
        lemma_sibling_chain_ends(reg, start, k, (j - 1) as nat);
    }
}

/// Write access to a run of reserved node ids.
pub struct RegistryChunk {
    start_id: u32,
    len: u32,
    offset: u32,
}

impl RegistryChunk {
    /// The first id of the run.
    pub closed spec fn first_id(&self) -> u32 {
        self.start_id
    }

    /// How many ids the run holds.
    pub closed spec fn size(&self) -> u32 {
        self.len
    }

    /// How many of them have been given to nodes.
    pub closed spec fn used(&self) -> u32 {
        self.offset
    }

    pub(crate) fn new(start_id: u32, len: u32) -> (r: Self)
        ensures
            r.first_id() == start_id && r.size() == len && r.used() == 0,
    {
        RegistryChunk { start_id, len, offset: 0 }
    }

    /// Creates the next node of the chunk with the given kind, storage pointer and size.
    pub fn spawn_node(
        &mut self,
        registry: &mut UastRegistry,
        kind: SemanticKind,
        span: Option<SvpPointer>,
        metric: SpanMetrics,
    ) -> (r: NodeId)
        requires
            old(registry).wf(),
            old(self).used() < old(self).size(),
            1 <= old(self).first_id(),
            old(self).first_id() + old(self).used() <= old(registry).capacity,
        ensures
            final(registry).wf(),
            node_index(r) == old(self).first_id() + old(self).used() - 1,
            final(self).first_id() == old(self).first_id() && final(self).size() == old(self).size(),
            final(self).used() == old(self).used() + 1,
            final(registry).capacity == old(registry).capacity,
            final(registry).next_id == old(registry).next_id,
            final(registry).kinds@ == old(registry).kinds@.update(node_index(r), kind),
            final(registry).spans@ == old(registry).spans@.update(node_index(r), span),
            final(registry).metrics@ == old(registry).metrics@.update(node_index(r), metric),
            final(registry).edges == old(registry).edges,
            final(registry).child_tails == old(registry).child_tails,
            final(registry).virtual_data == old(registry).virtual_data,
            final(registry).dma_in_flight == old(registry).dma_in_flight,
            final(registry).metrics_inflated == old(registry).metrics_inflated,
            final(registry).is_folded == old(registry).is_folded,
    {
        let id_val = self.start_id + self.offset;
        let id = NodeId::from_index((id_val - 1) as usize);
        let idx = id.index();
        self.offset = self.offset + 1;
        registry.kinds.set(idx, kind);
        registry.spans.set(idx, span);
        registry.metrics.set(idx, metric);
        id
    }

    /// Appends `child` as the last child of `parent`; both must belong to this chunk.
    pub fn append_local_child(&mut self, registry: &mut UastRegistry, parent: NodeId, child: NodeId)
        requires
            old(registry).wf(),
            old(self).first_id() + old(self).size() <= old(registry).next_id,
            old(self).first_id() <= node_number(parent) < old(self).first_id() + old(self).size(),
            old(self).first_id() <= node_number(child) < old(self).first_id() + old(self).size(),
            0 <= node_index(parent) < old(registry).capacity,
            0 <= node_index(child) < old(registry).capacity,
        ensures
            final(registry).wf(),
            *final(self) == *old(self),
            final(registry).capacity == old(registry).capacity,
            final(registry).next_id == old(registry).next_id,
            final(registry).kinds == old(registry).kinds,
            final(registry).spans == old(registry).spans,
            final(registry).metrics == old(registry).metrics,
            final(registry).virtual_data == old(registry).virtual_data,
            final(registry).dma_in_flight == old(registry).dma_in_flight,
            final(registry).metrics_inflated == old(registry).metrics_inflated,
            final(registry).is_folded == old(registry).is_folded,
            final(registry).child_tails@ == old(registry).child_tails@.update(
                node_index(parent),
                Some(child),
            ),
            ({
                let pi = node_index(parent);
                let ci = node_index(child);
                let e1 = old(registry).edges@.update(
                    ci,
                    TreeEdges { parent: Some(parent), ..old(registry).edges@[ci] },
                );
                final(registry).edges@ == match old(registry).child_tails@[pi] {
                    Some(tail) => e1.update(
                        node_index(tail),
                        TreeEdges { next_sibling: Some(child), ..e1[node_index(tail)] },
                    ),
                    None => e1.update(pi, TreeEdges { first_child: Some(child), ..e1[pi] }),
                }
            }),
    {
        let p_idx = parent.index();
        let c_idx = child.index();
        let mut ce = registry.edges[c_idx];
        ce.parent = Some(parent);
        registry.edges.set(c_idx, ce);
        match registry.child_tails[p_idx] {
            Some(tail) => {
                let t_idx = tail.index();
                let mut te = registry.edges[t_idx];
                te.next_sibling = Some(child);
                registry.edges.set(t_idx, te);
            },
            None => {
                let mut pe = registry.edges[p_idx];
                pe.first_child = Some(child);
                registry.edges.set(p_idx, pe);
            },
        }
        registry.child_tails.set(p_idx, Some(child));
    }
}

/// Size of one storage read, and so of one leaf of an ingested file.
pub const DMA_CHUNK_SIZE: usize = 65536;

/// Number of leaves an ingested file of `file_size` bytes is cut into.
pub open spec fn chunk_count_of(file_size: u64) -> int {
    (file_size + DMA_CHUNK_SIZE - 1) / DMA_CHUNK_SIZE as int
}

/// Byte length the `i`-th of `count` leaves records: a full chunk, except the last,
/// which records the remainder of the size divided by the chunk size; for a size that
/// is a whole number of chunks that remainder, and so the last leaf's length, is 0.
pub open spec fn leaf_length(file_size: u64, count: int, i: int) -> u32 {
    if i == count - 1 {
        (file_size % DMA_CHUNK_SIZE as u64) as u32
    } else {
        DMA_CHUNK_SIZE as u32
    }
}

/// `link` is present and names the node at index `i`.
pub open spec fn links_to(link: Option<NodeId>, i: int) -> bool {
    link matches Some(n) && node_index(n) == i
}

/// Leaf `i` of `done` ingested leaves under `root` is in place: a token pointing at its
/// chunk of the file, a child of the root, linked to the next leaf.
pub open spec fn ingested_leaf(
    reg: UastRegistry,
    root: NodeId,
    file_size: u64,
    device_id: u16,
    count: int,
    done: int,
    i: int,
) -> bool {
    let leaf = node_index(root) + 1 + i;
    &&& reg.kinds@[leaf] == SemanticKind::Token
    &&& reg.spans@[leaf] == Some(
        SvpPointer {
            lba: (i * (DMA_CHUNK_SIZE / 512)) as u64,
            byte_length: leaf_length(file_size, count, i),
            device_id,
            head_trim: 0,
        },
    )
    &&& reg.metrics@[leaf].byte_length == leaf_length(file_size, count, i)
    &&& reg.metrics@[leaf].newlines == 0
    &&& links_to(reg.edges@[leaf].parent, node_index(root))
    &&& reg.edges@[leaf].first_child is None
    &&& (i + 1 < done ==> links_to(reg.edges@[leaf].next_sibling, leaf + 1))
    &&& (i + 1 == done ==> reg.edges@[leaf].next_sibling is None)
}

/// Builds the tree of a file on a storage device: a root holding its size and one leaf
/// per chunk of the file, each pointing at its blocks, in order.
pub fn ingest_svp_file(registry: &mut UastRegistry, file_size: u64, device_id: u16) -> (r: NodeId)
    requires
        old(registry).wf(),
        file_size + DMA_CHUNK_SIZE <= u64::MAX,
        old(registry).capacity < u32::MAX,
        old(registry).next_id + chunk_count_of(file_size) + 1 <= old(registry).capacity + 1,
    ensures
        final(registry).wf(),
        final(registry).capacity == old(registry).capacity,
        final(registry).next_id == old(registry).next_id + chunk_count_of(file_size) + 1,
        node_index(r) == old(registry).next_id - 1,
        final(registry).kinds@[node_index(r)] == SemanticKind::RelationalTable,
        final(registry).spans@[node_index(r)] is None,
        final(registry).metrics@[node_index(r)].byte_length == file_size as u32,
        final(registry).metrics@[node_index(r)].newlines == 0,
        final(registry).edges@[node_index(r)].parent is None,
        final(registry).edges@[node_index(r)].next_sibling is None,
        chunk_count_of(file_size) == 0 ==> final(registry).edges@[node_index(r)].first_child is None,
        chunk_count_of(file_size) > 0 ==> links_to(
            final(registry).edges@[node_index(r)].first_child,
            node_index(r) + 1,
        ),
        forall|i: int|
            0 <= i < chunk_count_of(file_size) ==> #[trigger] ingested_leaf(
                *final(registry),
                r,
                file_size,
                device_id,
                chunk_count_of(file_size),
                chunk_count_of(file_size),
                i,
            ),
{
    let chunk_count: u64 = (file_size + 65535) / 65536;
    let mut chunk = match registry.reserve_chunk(chunk_count as u32 + 1) {
        Some(c) => c,
        None => {
            proof {
                assert(false);
            }
            return NodeId::from_index(0);
        },
    };
    let root_id = chunk.spawn_node(
        registry,
        SemanticKind::RelationalTable,
        None,
        SpanMetrics { byte_length: file_size as u32, newlines: 0 },
    );
    let ghost root_idx = node_index(root_id);
    let mut i: u64 = 0;
    while i < chunk_count
        invariant
            registry.wf(),
            chunk.first_id() == root_idx + 1,
            chunk.size() == chunk_count + 1,
            chunk.used() == i + 1,
            chunk.first_id() + chunk.size() == registry.next_id,
            registry.capacity < u32::MAX,
            registry.next_id <= registry.capacity + 1,
            root_idx == node_index(root_id),
            0 <= root_idx < registry.capacity,
            registry.capacity == old(registry).capacity,
            chunk_count == chunk_count_of(file_size),
            i <= chunk_count,
            registry.kinds@[root_idx] == SemanticKind::RelationalTable,
            registry.spans@[root_idx] is None,
            registry.metrics@[root_idx].byte_length == file_size as u32,
            registry.metrics@[root_idx].newlines == 0,
            registry.edges@[root_idx].parent is None,
            registry.edges@[root_idx].next_sibling is None,
            i == 0 ==> registry.edges@[root_idx].first_child is None
                && registry.child_tails@[root_idx] is None,
            i > 0 ==> links_to(registry.edges@[root_idx].first_child, root_idx + 1),
            i > 0 ==> links_to(registry.child_tails@[root_idx], root_idx + i),
            forall|k: int|
                root_idx + 1 + i <= k < registry.capacity ==> pristine(
                    #[trigger] registry.edges@[k],
                ),
            forall|k: int|
                0 <= k < i ==> #[trigger] ingested_leaf(
                    *registry,
                    root_id,
                    file_size,
                    device_id,
                    chunk_count as int,
                    i as int,
                    k,
                ),
        decreases chunk_count - i,
    {
        let lba = i * 128;
        let byte_length: u32 = if i == chunk_count - 1 {
            (file_size % 65536) as u32
        } else {
            65536
        };
        let ghost before = *registry;
        let leaf_id = chunk.spawn_node(
            registry,
            SemanticKind::Token,
            Some(SvpPointer { lba, byte_length, device_id, head_trim: 0 }),
            SpanMetrics { byte_length, newlines: 0 },
        );
        chunk.append_local_child(registry, root_id, leaf_id);
        proof {
            assert forall|k: int| 0 <= k < i + 1 implies #[trigger] ingested_leaf(
                *registry,
                root_id,
                file_size,
                device_id,
                chunk_count as int,
                i + 1,
                k,
            ) by {
                if k < i {
                    assert(ingested_leaf(before, root_id, file_size, device_id, chunk_count as int, i as int, k));
                }
            }
        }
        i = i + 1;
    }
    root_id
}

/// Two reservations hand out disjoint id ranges when the counter did not go back in
/// between: `reserve_chunk` leaves the counter just past the ids of the chunk it
/// returns, every other operation of the registry keeps the counter or raises it, and
/// the second chunk starts at the counter it finds: the first run of ids ends before the
/// second begins, so no id, and no slot of the arrays, belongs to both chunks.
pub proof fn reservations_are_disjoint(
    after_first: UastRegistry,
    before_second: UastRegistry,
    first: RegistryChunk,
    second: RegistryChunk,
)
    requires
        first.first_id() + first.size() == after_first.next_id,
        after_first.next_id <= before_second.next_id,
        second.first_id() == before_second.next_id,
    ensures
        first.first_id() + first.size() <= second.first_id(),
{
}

} // verus!

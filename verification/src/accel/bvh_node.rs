//! Nodes of the bounding-volume hierarchy arena.
//!
//! The tree lives in a flat array; interior nodes hold the indices of
//! their children, which are always built (and therefore indexed) before
//! their parent. Every node covers a contiguous range of positions in the
//! hierarchy's primitive order.

use vstd::prelude::*;
use crate::accel::aabb::Aabb;

verus! {

/// One node of the hierarchy: a leaf covers a contiguous range of ordered
/// primitives; an interior node covers the union of its two children.
#[derive(Clone, Copy, Debug)]
pub enum BVHNode {
    Leaf { bbox: Aabb, start: usize, count: usize },
    Interior { bbox: Aabb, start: usize, count: usize, left: usize, right: usize },
}

impl BVHNode {
    /// The node's bounding box.
    pub open spec fn bbox(self) -> Aabb {
        match self {
            BVHNode::Leaf { bbox, .. } => bbox,
            BVHNode::Interior { bbox, .. } => bbox,
        }
    }

    /// First position of the node's range in the primitive order.
    pub open spec fn start(self) -> int {
        match self {
            BVHNode::Leaf { start, .. } => start as int,
            BVHNode::Interior { start, .. } => start as int,
        }
    }

    /// Number of ordered primitives the node covers.
    pub open spec fn count(self) -> int {
        match self {
            BVHNode::Leaf { count, .. } => count as int,
            BVHNode::Interior { count, .. } => count as int,
        }
    }
}

/// Structural soundness of the subtree rooted at `i`, over the primitive
/// bounding boxes `boxes` and the index order `order`: ranges are
/// nonempty and properly split between children, children precede their
/// parent in the arena, every leaf's box contains the box of every
/// primitive in its range, and every interior node's box contains the
/// boxes of both children.
pub open spec fn node_wf(nodes: Seq<BVHNode>, boxes: Seq<Aabb>, order: Seq<usize>, i: int) -> bool
    decreases i,
{
    &&& 0 <= i < nodes.len()
    &&& nodes[i].bbox().wf()
    &&& nodes[i].bbox().min.bounded(0x100_0000)
    &&& nodes[i].bbox().max.bounded(0x100_0000)
    &&& 0 <= nodes[i].start()
    &&& nodes[i].count() >= 1
    &&& nodes[i].start() + nodes[i].count() <= order.len()
    &&& match nodes[i] {
        BVHNode::Leaf { bbox, start, count } => forall|k: int|
            start <= k < start + count ==> (#[trigger] order[k]) < boxes.len()
                && bbox.contains_box(boxes[order[k] as int]),
        BVHNode::Interior { bbox, start, count, left, right } => {
            &&& left < i
            &&& right < i
            &&& 0 <= left
            &&& 0 <= right
            &&& node_wf(nodes, boxes, order, left as int)
            &&& node_wf(nodes, boxes, order, right as int)
            &&& nodes[left as int].start() == start
            &&& nodes[right as int].start() == start + nodes[left as int].count()
            &&& nodes[left as int].count() + nodes[right as int].count() == count
            &&& bbox.contains_box(nodes[left as int].bbox())
            &&& bbox.contains_box(nodes[right as int].bbox())
        },
    }
}

/// Every primitive of a sound subtree lies (by its box) inside the
/// subtree root's box, and its order entry is a valid box index.
pub proof fn lemma_subtree_contains(
    nodes: Seq<BVHNode>,
    boxes: Seq<Aabb>,
    order: Seq<usize>,
    i: int,
)
    requires
        node_wf(nodes, boxes, order, i),
    ensures
        forall|k: int|
            nodes[i].start() <= k < nodes[i].start() + nodes[i].count() ==> (#[trigger] order[k])
                < boxes.len() && nodes[i].bbox().contains_box(boxes[order[k] as int]),
    decreases i,
{
    match nodes[i] {
        BVHNode::Leaf { .. } => {
        },
        BVHNode::Interior { left, right, .. } => {
            lemma_subtree_contains(nodes, boxes, order, left as int);
            lemma_subtree_contains(nodes, boxes, order, right as int);
        },
    }
}

/// Every leaf of the subtree rooted at `i` holds at most `max` ordered
/// primitives.
pub open spec fn node_leaf_bound(nodes: Seq<BVHNode>, i: int, max: int) -> bool
    decreases i,
{
    &&& 0 <= i < nodes.len()
    &&& match nodes[i] {
        BVHNode::Leaf { count, .. } => count <= max,
        BVHNode::Interior { left, right, .. } => {
            &&& left < i
            &&& right < i
            &&& 0 <= left
            &&& 0 <= right
            &&& node_leaf_bound(nodes, left as int, max)
            &&& node_leaf_bound(nodes, right as int, max)
        },
    }
}

/// Appending nodes to the arena never disturbs a subtree's leaf bound.
pub proof fn lemma_leaf_bound_prefix(
    nodes1: Seq<BVHNode>,
    nodes2: Seq<BVHNode>,
    i: int,
    max: int,
)
    requires
        node_leaf_bound(nodes1, i, max),
        nodes1.len() <= nodes2.len(),
        forall|j: int| 0 <= j < nodes1.len() ==> nodes1[j] == nodes2[j],
    ensures
        node_leaf_bound(nodes2, i, max),
    decreases i,
{
    match nodes1[i] {
        BVHNode::Leaf { .. } => {
        },
        BVHNode::Interior { left, right, .. } => {
            lemma_leaf_bound_prefix(nodes1, nodes2, left as int, max);
            lemma_leaf_bound_prefix(nodes1, nodes2, right as int, max);
        },
    }
}

/// Appending nodes to the arena never disturbs the soundness of an
/// existing subtree.
pub proof fn lemma_node_wf_prefix(
    nodes1: Seq<BVHNode>,
    nodes2: Seq<BVHNode>,
    boxes: Seq<Aabb>,
    order: Seq<usize>,
    i: int,
)
    requires
        node_wf(nodes1, boxes, order, i),
        nodes1.len() <= nodes2.len(),
        forall|j: int| 0 <= j < nodes1.len() ==> nodes1[j] == nodes2[j],
    ensures
        node_wf(nodes2, boxes, order, i),
    decreases i,
{
    match nodes1[i] {
        BVHNode::Leaf { .. } => {
        },
        BVHNode::Interior { left, right, .. } => {
            lemma_node_wf_prefix(nodes1, nodes2, boxes, order, left as int);
            lemma_node_wf_prefix(nodes1, nodes2, boxes, order, right as int);
        },
    }
}

/// A subtree's soundness depends only on the order entries inside its
/// range: rewriting positions outside `[start, start + count)` preserves
/// it.
pub proof fn lemma_node_wf_order_frame(
    nodes: Seq<BVHNode>,
    boxes: Seq<Aabb>,
    order1: Seq<usize>,
    order2: Seq<usize>,
    i: int,
)
    requires
        node_wf(nodes, boxes, order1, i),
        order1.len() == order2.len(),
        forall|k: int|
            nodes[i].start() <= k < nodes[i].start() + nodes[i].count() ==> order1[k] == order2[k],
    ensures
        node_wf(nodes, boxes, order2, i),
    decreases i,
{
    match nodes[i] {
        BVHNode::Leaf { .. } => {
        },
        BVHNode::Interior { left, right, .. } => {
            lemma_node_wf_order_frame(nodes, boxes, order1, order2, left as int);
            lemma_node_wf_order_frame(nodes, boxes, order1, order2, right as int);
        },
    }
}

} // verus!

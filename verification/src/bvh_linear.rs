//! The hierarchy as an array of nodes, in depth-first pre-order.

use crate::bounds::Bounds3;
use crate::bvh_build::BVHBuildNode;
use crate::vec3::Vec3Axis;
use vstd::prelude::*;

verus! {

/// A node of the hierarchy as it lies in the array.
///
/// A node with `n_primitives > 0` is a leaf over the primitives
/// `offset..offset + n_primitives`. Any other node is interior: its first
/// child is the next node of the array, and its second child is the node at
/// `offset`.
#[derive(Clone, Copy, Debug)]
pub struct BVHLinearNode {
    pub bounds: Bounds3,
    pub offset: usize,
    pub n_primitives: usize,
    pub axis: Vec3Axis,
}

impl BVHBuildNode {
    /// The array holds this tree from position `at` on, in depth-first
    /// pre-order: the node itself, then its first subtree, then its second.
    pub open spec fn laid_out(self, nodes: Seq<BVHLinearNode>, at: int) -> bool
        decreases self,
    {
        &&& 0 <= at < nodes.len()
        &&& nodes[at].bounds == self.bounds
        &&& match self.children {
            None => {
                &&& nodes[at].n_primitives == self.n_shapes
                &&& nodes[at].offset == self.first_shape_offset
                &&& nodes[at].axis == Vec3Axis::X
            },
            Some((l, r)) => {
                &&& nodes[at].n_primitives == 0
                &&& nodes[at].axis == self.split_axis
                &&& nodes[at].offset == at + 1 + l.node_count()
                &&& l.laid_out(nodes, at + 1)
                &&& r.laid_out(nodes, at + 1 + l.node_count())
            },
        }
    }
}

/// Whether a tree lies at `at` depends only on the part of the array that the
/// tree takes up.
proof fn lemma_laid_out_frame(node: BVHBuildNode, n1: Seq<BVHLinearNode>, n2: Seq<BVHLinearNode>, at: int)
    requires
        node.laid_out(n1, at),
        n1.len() == n2.len(),
        forall|i: int| at <= i < at + node.node_count() && i < n1.len() ==> n1[i] == n2[i],
    ensures
        node.laid_out(n2, at),
    decreases node,
{
    match node.children {
        None => {},
        Some((l, r)) => {
            lemma_laid_out_frame(*l, n1, n2, at + 1);
            lemma_laid_out_frame(*r, n1, n2, at + 1 + l.node_count());
        },
    }
}

/// Writes the tree into `nodes` from `*offset` on, in depth-first pre-order,
/// and returns the position of its root.
pub(crate) fn flatten_tree(nodes: &mut Vec<BVHLinearNode>, node: &BVHBuildNode, offset: &mut usize) -> (at: usize)
    requires
        *old(offset) + node.node_count() <= old(nodes).len(),
    ensures
        at == *old(offset),
        *final(offset) == at + node.node_count(),
        final(nodes).len() == old(nodes).len(),
        node.laid_out(final(nodes)@, at as int),
        forall|i: int|
            0 <= i < at || at + node.node_count() <= i < old(nodes).len() ==> final(nodes)@[i] == old(
                nodes,
            )@[i],
    decreases node,
{
    let mut lnode = BVHLinearNode {
        bounds: node.bounds,
        n_primitives: 0,
        offset: 0,
        axis: Vec3Axis::X,
    };
    let old_offset = *offset;

    *offset += 1;

    match &node.children {
        None => {
            lnode.offset = node.first_shape_offset;
            lnode.n_primitives = node.n_shapes;
            nodes.set(old_offset, lnode);
        },
        Some((l, r)) => {
            lnode.axis = node.split_axis;
            flatten_tree(nodes, l, offset);
            let ghost n1 = nodes@;
            lnode.offset = flatten_tree(nodes, r, offset);
            let ghost n2 = nodes@;
            nodes.set(old_offset, lnode);
            proof {
                lemma_laid_out_frame(**l, n1, n2, old_offset + 1);
                lemma_laid_out_frame(**l, n2, nodes@, old_offset + 1);
                lemma_laid_out_frame(**r, n2, nodes@, old_offset + 1 + l.node_count());
            }
        },
    }
    old_offset
}

} // verus!

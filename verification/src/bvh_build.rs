//! Construction of the hierarchy: a binary tree over a range of boxes, split
//! at the median centroid.

use crate::bounds::Bounds3;
use crate::bvh_accel::STACK_CAPACITY;
use crate::bvh_linear::BVHLinearNode;
use crate::select::select_by_centroid;
use crate::vec3::{Coord, Vec3, Vec3Axis};
use vstd::arithmetic::power2::{lemma2_to64, lemma2_to64_rest, lemma_pow2_unfold, pow2};
use vstd::prelude::*;

verus! {

/// What the builder keeps of one primitive.
pub struct BVHPrimitiveInfo {
    /// The position of the primitive in the collection the index was made from.
    pub primitive_number: usize,
    pub bounds: Bounds3,
    pub centroid: Vec3<Coord>,
}

impl BVHPrimitiveInfo {
    /// The centroid is the midpoint of the box.
    pub open spec fn well_formed(self) -> bool {
        self.centroid == self.bounds.spec_centroid()
    }
}

/// The records `infos[start..end]`.
pub open spec fn range_of(infos: Seq<BVHPrimitiveInfo>, start: usize, end: usize) -> Seq<
    BVHPrimitiveInfo,
> {
    infos.subrange(start as int, end as int)
}

/// The coordinate along `axis` of the centroid of the record `infos[i]`.
pub open spec fn centroid_along(infos: Seq<BVHPrimitiveInfo>, i: int, axis: Vec3Axis) -> Coord {
    infos[i].centroid.at(axis)
}

/// The boxes of the records, in order.
pub open spec fn boxes_of(infos: Seq<BVHPrimitiveInfo>) -> Seq<Bounds3> {
    Seq::new(infos.len(), |i: int| infos[i].bounds)
}

/// The primitive numbers of the records, in order.
pub open spec fn numbers_of(infos: Seq<BVHPrimitiveInfo>) -> Seq<usize> {
    Seq::new(infos.len(), |i: int| infos[i].primitive_number)
}

/// For each box, the box that holds just its centroid.
pub open spec fn centroid_boxes(boxes: Seq<Bounds3>) -> Seq<Bounds3> {
    Seq::new(boxes.len(), |i: int| Bounds3::point(boxes[i].spec_centroid()))
}

/// The union of the boxes `boxes[start..end]`, for a range that is not empty.
pub open spec fn range_union(boxes: Seq<Bounds3>, start: int, end: int) -> Bounds3
    decreases end - start,
{
    if end - start <= 1 {
        boxes[start]
    } else {
        Bounds3::spec_union(range_union(boxes, start, end - 1), boxes[end - 1])
    }
}

/// The box around the centroids of `boxes[start..end]`.
pub open spec fn centroid_bounds(boxes: Seq<Bounds3>, start: int, end: int) -> Bounds3 {
    range_union(centroid_boxes(boxes), start, end)
}

/// The axis along which the centroids of `boxes[start..end]` spread widest.
pub open spec fn split_axis_of(boxes: Seq<Bounds3>, start: int, end: int) -> Vec3Axis {
    centroid_bounds(boxes, start, end).spec_maximum_extent()
}

/// The centroids of `boxes[start..end]` do not spread along their widest
/// axis, and so along none.
pub open spec fn degenerate(boxes: Seq<Bounds3>, start: int, end: int) -> bool {
    centroid_bounds(boxes, start, end).extent(split_axis_of(boxes, start, end)) == 0
}

/// No centroid of `boxes[start..mid]` lies beyond one of `boxes[mid..end]`
/// along `axis`.
pub open spec fn partitioned(boxes: Seq<Bounds3>, start: int, mid: int, end: int, axis: Vec3Axis) -> bool {
    forall|i: int, j: int|
        start <= i < mid && mid <= j < end ==> (#[trigger] boxes[i]).spec_centroid().at(axis) <= (
        #[trigger] boxes[j]).spec_centroid().at(axis)
}

/// A node of the tree that the builder makes.
///
/// A leaf holds the primitives `first_shape_offset..first_shape_offset +
/// n_shapes` of the reordered collection. An interior node has two children
/// and `n_shapes == 0`.
#[derive(Debug)]
pub struct BVHBuildNode {
    pub bounds: Bounds3,
    pub children: Option<(Box<BVHBuildNode>, Box<BVHBuildNode>)>,
    pub split_axis: Vec3Axis,
    pub first_shape_offset: usize,
    pub n_shapes: usize,
}

impl BVHBuildNode {
    /// The number of nodes in the tree.
    pub open spec fn node_count(self) -> nat
        decreases self,
    {
        match self.children {
            None => 1,
            Some((l, r)) => 1 + l.node_count() + r.node_count(),
        }
    }

    /// The number of nodes on the longest path from this node to a leaf.
    pub open spec fn depth(self) -> nat
        decreases self,
    {
        match self.children {
            None => 1,
            Some((l, r)) => if l.depth() >= r.depth() {
                1 + l.depth()
            } else {
                1 + r.depth()
            },
        }
    }

    /// The tree is the hierarchy of `boxes[start..end]`: every node holds the
    /// union of its range; a range is a leaf exactly when it has one box or
    /// its centroids coincide; any other range is split at its middle, along
    /// the axis on which its centroids spread widest, with the smaller
    /// centroids in the first half.
    pub open spec fn covers(self, boxes: Seq<Bounds3>, start: int, end: int) -> bool
        decreases self,
    {
        &&& 0 <= start < end <= boxes.len()
        &&& self.bounds == range_union(boxes, start, end)
        &&& match self.children {
            None => {
                &&& self.n_shapes == end - start
                &&& self.first_shape_offset == start
                &&& (end - start == 1 || degenerate(boxes, start, end))
            },
            Some((l, r)) => {
                let mid = (start + end) / 2;
                &&& self.n_shapes == 0
                &&& self.first_shape_offset == 0
                &&& end - start >= 2
                &&& !degenerate(boxes, start, end)
                &&& self.split_axis == split_axis_of(boxes, start, end)
                &&& partitioned(boxes, start, mid, end, self.split_axis)
                &&& l.covers(boxes, start, mid)
                &&& r.covers(boxes, mid, end)
            },
        }
    }

    fn init_leaf(first: usize, n: usize, bounds: Bounds3) -> (node: BVHBuildNode)
        ensures
            node.children is None,
            node.first_shape_offset == first,
            node.n_shapes == n,
            node.bounds == bounds,
    {
        BVHBuildNode {
            first_shape_offset: first,
            n_shapes: n,
            bounds,
            children: None,
            split_axis: Vec3Axis::X,
        }
    }

    fn init_interior(axis: Vec3Axis, c1: Box<BVHBuildNode>, c2: Box<BVHBuildNode>) -> (node:
        BVHBuildNode)
        ensures
            node.children == Some((c1, c2)),
            node.first_shape_offset == 0,
            node.n_shapes == 0,
            node.split_axis == axis,
            node.bounds == Bounds3::spec_union(c1.bounds, c2.bounds),
    {
        BVHBuildNode {
            first_shape_offset: 0,
            n_shapes: 0,
            bounds: Bounds3::union(&c1.bounds, &c2.bounds),
            children: Some((c1, c2)),
            split_axis: axis,
        }
    }
}

/// One of the six faces of a box: the three lower ones, then the three upper.
spec fn face(b: Bounds3, k: int) -> Coord {
    if k == 0 {
        b.pmin.0
    } else if k == 1 {
        b.pmin.1
    } else if k == 2 {
        b.pmin.2
    } else if k == 3 {
        b.pmax.0
    } else if k == 4 {
        b.pmax.1
    } else {
        b.pmax.2
    }
}

/// Face `k` of `u` is face `k` of some box of `boxes[start..end]`.
spec fn touched(boxes: Seq<Bounds3>, start: int, end: int, u: Bounds3, k: int) -> bool {
    exists|i: int| start <= i < end && #[trigger] face(boxes[i], k) == face(u, k)
}

/// The union of a range encloses every box of the range, and each of its
/// faces is a face of some box of the range.
proof fn lemma_range_union_tight(boxes: Seq<Bounds3>, start: int, end: int)
    requires
        0 <= start < end <= boxes.len(),
    ensures
        forall|i: int|
            start <= i < end ==> range_union(boxes, start, end).encloses(#[trigger] boxes[i]),
        forall|k: int|
            0 <= k < 6 ==> #[trigger] touched(boxes, start, end, range_union(boxes, start, end), k),
    decreases end - start,
{
    let u = range_union(boxes, start, end);
    if end - start <= 1 {
        assert forall|k: int| 0 <= k < 6 implies #[trigger] touched(boxes, start, end, u, k) by {
            assert(face(boxes[start], k) == face(u, k));
        }
    } else {
        lemma_range_union_tight(boxes, start, end - 1);
        let v = range_union(boxes, start, end - 1);
        assert forall|k: int| 0 <= k < 6 implies #[trigger] touched(boxes, start, end, u, k) by {
            assert(touched(boxes, start, end - 1, v, k));
            let w = choose|i: int| start <= i < end - 1 && #[trigger] face(boxes[i], k) == face(v, k);
            if face(u, k) == face(v, k) {
                assert(face(boxes[w], k) == face(u, k));
            } else {
                assert(face(boxes[end - 1], k) == face(u, k));
            }
        }
    }
}

/// The union of a range encloses every box of the range.
pub(crate) proof fn lemma_range_union_encloses(boxes: Seq<Bounds3>, start: int, end: int)
    requires
        0 <= start < end <= boxes.len(),
    ensures
        forall|i: int|
            start <= i < end ==> range_union(boxes, start, end).encloses(#[trigger] boxes[i]),
{
    lemma_range_union_tight(boxes, start, end);
}

/// The value `v` stands somewhere in `s[start..end]`.
pub open spec fn occurs<A>(s: Seq<A>, start: int, end: int, v: A) -> bool {
    exists|j: int| start <= j < end && s[j] == v
}

/// Two ranges that hold the same boxes, in whatever order, have the same union.
proof fn lemma_range_union_same_members(
    b1: Seq<Bounds3>,
    s1: int,
    e1: int,
    b2: Seq<Bounds3>,
    s2: int,
    e2: int,
)
    requires
        0 <= s1 < e1 <= b1.len(),
        0 <= s2 < e2 <= b2.len(),
        forall|i: int| s1 <= i < e1 ==> occurs(b2, s2, e2, #[trigger] b1[i]),
        forall|j: int| s2 <= j < e2 ==> occurs(b1, s1, e1, #[trigger] b2[j]),
    ensures
        range_union(b1, s1, e1) == range_union(b2, s2, e2),
{
    let u1 = range_union(b1, s1, e1);
    let u2 = range_union(b2, s2, e2);
    lemma_range_union_tight(b1, s1, e1);
    lemma_range_union_tight(b2, s2, e2);
    assert forall|k: int| 0 <= k < 6 implies face(u1, k) == face(u2, k) by {
        assert(touched(b1, s1, e1, u1, k));
        assert(touched(b2, s2, e2, u2, k));
        let i1 = choose|i: int| s1 <= i < e1 && #[trigger] face(b1[i], k) == face(u1, k);
        assert(occurs(b2, s2, e2, b1[i1]));
        let j1 = choose|j: int| s2 <= j < e2 && b2[j] == b1[i1];
        assert(u2.encloses(b2[j1]));
        let j2 = choose|j: int| s2 <= j < e2 && #[trigger] face(b2[j], k) == face(u2, k);
        assert(occurs(b1, s1, e1, b2[j2]));
        let i2 = choose|i: int| s1 <= i < e1 && b1[i] == b2[j2];
        assert(u1.encloses(b1[i2]));
    }
    assert(face(u1, 0) == face(u2, 0));
    assert(face(u1, 1) == face(u2, 1));
    assert(face(u1, 2) == face(u2, 2));
    assert(face(u1, 3) == face(u2, 3));
    assert(face(u1, 4) == face(u2, 4));
    assert(face(u1, 5) == face(u2, 5));
}

/// The union of a range is the union of the unions of its two parts.
proof fn lemma_range_union_split(boxes: Seq<Bounds3>, start: int, mid: int, end: int)
    requires
        0 <= start < mid < end <= boxes.len(),
    ensures
        Bounds3::spec_union(range_union(boxes, start, mid), range_union(boxes, mid, end))
            == range_union(boxes, start, end),
    decreases end - mid,
{
    if end - mid > 1 {
        lemma_range_union_split(boxes, start, mid, end - 1);
    }
}

/// The elements of a range are those of any rearrangement of it.
proof fn lemma_permuted_range(
    x: Seq<BVHPrimitiveInfo>,
    y: Seq<BVHPrimitiveInfo>,
    start: usize,
    end: usize,
)
    requires
        start <= end <= x.len(),
        x.len() == y.len(),
        range_of(x, start, end).to_multiset() == range_of(y, start, end).to_multiset(),
    ensures
        forall|i: int| start <= i < end ==> occurs(y, start as int, end as int, #[trigger] x[i]),
        forall|j: int| start <= j < end ==> occurs(x, start as int, end as int, #[trigger] y[j]),
{
    let a = range_of(x, start, end);
    let b = range_of(y, start, end);
    a.to_multiset_ensures();
    b.to_multiset_ensures();
    assert forall|i: int| start <= i < end implies occurs(
        y,
        start as int,
        end as int,
        #[trigger] x[i],
    ) by {
        assert(a[i - start] == x[i]);
        assert(a.contains(x[i]));
        assert(a.to_multiset().count(x[i]) > 0);
        assert(b.to_multiset().count(x[i]) > 0);
        assert(b.contains(x[i]));
        let w = choose|w: int| 0 <= w < b.len() && b[w] == x[i];
        assert(y[w + start] == x[i]);
    }
    assert forall|j: int| start <= j < end implies occurs(
        x,
        start as int,
        end as int,
        #[trigger] y[j],
    ) by {
        assert(b[j - start] == y[j]);
        assert(b.contains(y[j]));
        assert(b.to_multiset().count(y[j]) > 0);
        assert(a.to_multiset().count(y[j]) > 0);
        assert(a.contains(y[j]));
        let w = choose|w: int| 0 <= w < a.len() && a[w] == y[j];
        assert(x[w + start] == y[j]);
    }
}

/// Rearranging a range of records changes neither the union of their boxes
/// nor the box around their centroids, and keeps the records well formed.
pub(crate) proof fn lemma_permuted_range_unions(
    x: Seq<BVHPrimitiveInfo>,
    y: Seq<BVHPrimitiveInfo>,
    start: usize,
    end: usize,
)
    requires
        start < end <= x.len(),
        x.len() == y.len(),
        range_of(x, start, end).to_multiset() == range_of(y, start, end).to_multiset(),
        forall|i: int| start <= i < end ==> (#[trigger] x[i]).well_formed(),
    ensures
        forall|i: int| start <= i < end ==> (#[trigger] y[i]).well_formed(),
        range_union(boxes_of(y), start as int, end as int) == range_union(
            boxes_of(x),
            start as int,
            end as int,
        ),
        centroid_bounds(boxes_of(y), start as int, end as int) == centroid_bounds(
            boxes_of(x),
            start as int,
            end as int,
        ),
{
    let s = start as int;
    let e = end as int;
    lemma_permuted_range(x, y, start, end);
    assert forall|i: int| s <= i < e implies (#[trigger] y[i]).well_formed() by {
        assert(occurs(x, s, e, y[i]));
        let w = choose|w: int| s <= w < e && x[w] == y[i];
        assert(x[w].well_formed());
    }
    let bx = boxes_of(x);
    let by = boxes_of(y);
    let cx = centroid_boxes(bx);
    let cy = centroid_boxes(by);
    assert forall|i: int| s <= i < e implies occurs(by, s, e, #[trigger] bx[i]) && occurs(
        cy,
        s,
        e,
        cx[i],
    ) by {
        assert(occurs(y, s, e, x[i]));
        let w = choose|w: int| s <= w < e && y[w] == x[i];
        assert(by[w] == bx[i]);
        assert(cy[w] == cx[i]);
    }
    assert forall|j: int| s <= j < e implies occurs(bx, s, e, #[trigger] by[j]) && occurs(
        cx,
        s,
        e,
        cy[j],
    ) by {
        assert(occurs(x, s, e, y[j]));
        let w = choose|w: int| s <= w < e && x[w] == y[j];
        assert(bx[w] == by[j]);
        assert(cx[w] == cy[j]);
    }
    lemma_range_union_same_members(bx, s, e, by, s, e);
    assert forall|i: int| s <= i < e implies occurs(cy, s, e, #[trigger] cx[i]) by {
        assert(occurs(by, s, e, bx[i]) && occurs(cy, s, e, cx[i]));
    }
    assert forall|j: int| s <= j < e implies occurs(cx, s, e, #[trigger] cy[j]) by {
        assert(occurs(bx, s, e, by[j]) && occurs(cx, s, e, cy[j]));
    }
    lemma_range_union_same_members(cx, s, e, cy, s, e);
}

/// A bound on the centroids of a range along one axis holds of every
/// rearrangement of the range: from above where `upper`, else from below.
proof fn lemma_permuted_range_bound(
    x: Seq<BVHPrimitiveInfo>,
    y: Seq<BVHPrimitiveInfo>,
    start: usize,
    end: usize,
    axis: Vec3Axis,
    pivot: int,
    upper: bool,
)
    requires
        start <= end <= x.len(),
        x.len() == y.len(),
        range_of(x, start, end).to_multiset() == range_of(y, start, end).to_multiset(),
        forall|i: int|
            start <= i < end ==> if upper {
                #[trigger] centroid_along(x, i, axis) <= pivot
            } else {
                centroid_along(x, i, axis) >= pivot
            },
    ensures
        forall|i: int|
            start <= i < end ==> if upper {
                #[trigger] centroid_along(y, i, axis) <= pivot
            } else {
                centroid_along(y, i, axis) >= pivot
            },
{
    lemma_permuted_range(x, y, start, end);
    assert forall|i: int| start <= i < end implies if upper {
        #[trigger] centroid_along(y, i, axis) <= pivot
    } else {
        centroid_along(y, i, axis) >= pivot
    } by {
        assert(occurs(x, start as int, end as int, y[i]));
        let w = choose|w: int| start <= w < end && x[w] == y[i];
        assert(centroid_along(x, w, axis) == centroid_along(y, i, axis));
    }
}

/// The union of a range depends on the boxes of that range only.
proof fn lemma_range_union_frame(b1: Seq<Bounds3>, b2: Seq<Bounds3>, start: int, end: int)
    requires
        0 <= start < end <= b1.len(),
        end <= b2.len(),
        forall|i: int| start <= i < end ==> b1[i] == b2[i],
    ensures
        range_union(b1, start, end) == range_union(b2, start, end),
    decreases end - start,
{
    if end - start > 1 {
        lemma_range_union_frame(b1, b2, start, end - 1);
    }
}

/// Whether a tree is the hierarchy of a range depends on the boxes of that
/// range only.
proof fn lemma_covers_frame(node: BVHBuildNode, b1: Seq<Bounds3>, b2: Seq<Bounds3>, start: int, end: int)
    requires
        node.covers(b1, start, end),
        b1.len() == b2.len(),
        forall|i: int| start <= i < end ==> b1[i] == b2[i],
    ensures
        node.covers(b2, start, end),
    decreases node,
{
    lemma_range_union_frame(b1, b2, start, end);
    lemma_range_union_frame(centroid_boxes(b1), centroid_boxes(b2), start, end);
    match node.children {
        None => {},
        Some((l, r)) => {
            let mid = (start + end) / 2;
            lemma_covers_frame(*l, b1, b2, start, mid);
            lemma_covers_frame(*r, b1, b2, mid, end);
        },
    }
}

/// Appends the primitive numbers of `infos[start..end]` to `ordered_prims`.
fn push_range(info_array: &Vec<BVHPrimitiveInfo>, start: usize, end: usize, ordered_prims: &mut Vec<usize>)
    requires
        start <= end <= info_array.len(),
    ensures
        final(ordered_prims)@ == old(ordered_prims)@ + numbers_of(range_of(info_array@, start, end)),
{
    let mut i: usize = start;
    while i < end
        invariant
            start <= i <= end <= info_array.len(),
            ordered_prims@ == old(ordered_prims)@ + numbers_of(range_of(info_array@, start, i)),
        decreases end - i,
    {
        let prim_num = info_array[i].primitive_number;
        ordered_prims.push(prim_num);
        i += 1;
        assert(ordered_prims@ =~= old(ordered_prims)@ + numbers_of(range_of(info_array@, start, i)));
    }
}

/// The union of the boxes of `infos[start..end]`.
fn bounds_of_range(info_array: &Vec<BVHPrimitiveInfo>, start: usize, end: usize) -> (bounds: Bounds3)
    requires
        start < end <= info_array.len(),
    ensures
        bounds == range_union(boxes_of(info_array@), start as int, end as int),
{
    let mut bounds = info_array[start].bounds;
    let mut i: usize = start + 1;
    while i < end
        invariant
            start < i <= end <= info_array.len(),
            bounds == range_union(boxes_of(info_array@), start as int, i as int),
        decreases end - i,
    {
        bounds = Bounds3::union(&bounds, &info_array[i].bounds);
        i += 1;
    }
    bounds
}

/// The box around the centroids of `infos[start..end]`.
fn centroid_bounds_of_range(info_array: &Vec<BVHPrimitiveInfo>, start: usize, end: usize) -> (bounds:
    Bounds3)
    requires
        start < end <= info_array.len(),
        forall|i: int| start <= i < end ==> (#[trigger] info_array@[i]).well_formed(),
    ensures
        bounds == centroid_bounds(boxes_of(info_array@), start as int, end as int),
{
    let ghost points = centroid_boxes(boxes_of(info_array@));
    let first = info_array[start].centroid;
    let mut bounds = Bounds3::new(first, first);
    assert(info_array@[start as int].well_formed());
    let mut i: usize = start + 1;
    while i < end
        invariant
            start < i <= end <= info_array.len(),
            points == centroid_boxes(boxes_of(info_array@)),
            forall|i: int| start <= i < end ==> (#[trigger] info_array@[i]).well_formed(),
            bounds == range_union(points, start as int, i as int),
        decreases end - i,
    {
        assert(info_array@[i as int].well_formed());
        bounds = bounds.union_vec(&info_array[i].centroid);
        i += 1;
    }
    bounds
}

/// The step of the construction at an interior node: once the range has been
/// split around its median and each half has been built, the node over the two
/// subtrees is the hierarchy of the whole range.
proof fn lemma_interior_covers(
    s0: Seq<BVHPrimitiveInfo>,
    s1: Seq<BVHPrimitiveInfo>,
    s2: Seq<BVHPrimitiveInfo>,
    s3: Seq<BVHPrimitiveInfo>,
    start: usize,
    mid: usize,
    end: usize,
    node: BVHBuildNode,
)
    requires
        start < mid < end <= s0.len(),
        mid == start + (end - start) / 2,
        s1.len() == s0.len(),
        s2.len() == s0.len(),
        s3.len() == s0.len(),
        forall|i: int| start <= i < end ==> (#[trigger] s0[i]).well_formed(),
        range_of(s1, start, end).to_multiset() == range_of(s0, start, end).to_multiset(),
        forall|i: int|
            start <= i < mid ==> #[trigger] centroid_along(s1, i, node.split_axis) <= centroid_along(
                s1,
                mid as int,
                node.split_axis,
            ),
        forall|i: int|
            mid < i < end ==> #[trigger] centroid_along(s1, i, node.split_axis) >= centroid_along(
                s1,
                mid as int,
                node.split_axis,
            ),
        range_of(s2, start, mid).to_multiset() == range_of(s1, start, mid).to_multiset(),
        forall|i: int| mid <= i < end ==> s2[i] == s1[i],
        range_of(s3, mid, end).to_multiset() == range_of(s2, mid, end).to_multiset(),
        forall|i: int| start <= i < mid ==> s3[i] == s2[i],
        node.split_axis == split_axis_of(boxes_of(s0), start as int, end as int),
        !degenerate(boxes_of(s0), start as int, end as int),
        node.n_shapes == 0,
        node.first_shape_offset == 0,
        node.children matches Some((l, r)) && l.covers(boxes_of(s2), start as int, mid as int)
            && r.covers(boxes_of(s3), mid as int, end as int) && node.bounds == Bounds3::spec_union(
            l.bounds,
            r.bounds,
        ),
    ensures
        range_of(s3, start, end).to_multiset() == range_of(s0, start, end).to_multiset(),
        node.covers(boxes_of(s3), start as int, end as int),
{
    let ax = node.split_axis;
    let pivot = centroid_along(s1, mid as int, ax) as int;
    let b3 = boxes_of(s3);
    let (l, r) = node.children->0;
    lemma_permuted_range_bound(s1, s2, start, mid, ax, pivot, true);
    assert forall|i: int| mid <= i < end implies centroid_along(s2, i, ax) >= pivot by {
        assert(s2[i] == s1[i]);
        if i > mid {
            assert(centroid_along(s1, i, ax) >= pivot);
        }
    }
    lemma_permuted_range_bound(s2, s3, mid, end, ax, pivot, false);
    // the whole range is still a rearrangement of what it was
    assert(range_of(s3, start, mid) =~= range_of(s2, start, mid));
    assert(range_of(s2, mid, end) =~= range_of(s1, mid, end));
    assert(range_of(s3, start, end) =~= range_of(s3, start, mid) + range_of(s3, mid, end));
    assert(range_of(s1, start, end) =~= range_of(s1, start, mid) + range_of(s1, mid, end));
    vstd::seq_lib::lemma_multiset_commutative(range_of(s3, start, mid), range_of(s3, mid, end));
    vstd::seq_lib::lemma_multiset_commutative(range_of(s1, start, mid), range_of(s1, mid, end));
    assert(range_of(s3, start, end).to_multiset() == range_of(s0, start, end).to_multiset());
    lemma_permuted_range_unions(s0, s3, start, end);
    // the first subtree is untouched by the second call
    lemma_covers_frame(*l, boxes_of(s2), b3, start as int, mid as int);
    lemma_range_union_split(b3, start as int, mid as int, end as int);
    assert((start + end) / 2 == mid);
    assert(partitioned(b3, start as int, mid as int, end as int, ax)) by {
        assert forall|i: int, j: int| start <= i < mid && mid <= j < end implies (
        #[trigger] b3[i]).spec_centroid().at(ax) <= (#[trigger] b3[j]).spec_centroid().at(ax) by {
            assert(s3[i] == s2[i]);
            assert(centroid_along(s2, i, ax) <= pivot);
            assert(centroid_along(s3, j, ax) >= pivot);
            assert(s3[i].well_formed());
            assert(s3[j].well_formed());
        }
    }
}

/// Builds the hierarchy of `info_array[start..end]`, rearranging that range
/// as it goes, and appends the primitive numbers to `ordered_prims` leaf by
/// leaf. For every node it makes it reserves one place at the end of `nodes`,
/// so that the array is as long as the tree has nodes when the tree is laid
/// out in it.
#[verifier::rlimit(50)]
pub(crate) fn recursive_build(
    info_array: &mut Vec<BVHPrimitiveInfo>,
    start: usize,
    end: usize,
    nodes: &mut Vec<BVHLinearNode>,
    ordered_prims: &mut Vec<usize>,
) -> (node: Box<BVHBuildNode>)
    requires
        start < end <= old(info_array).len(),
        old(ordered_prims).len() == start,
        forall|i: int| start <= i < end ==> (#[trigger] old(info_array)@[i]).well_formed(),
    ensures
        final(info_array).len() == old(info_array).len(),
        forall|i: int|
            0 <= i < start || end <= i < old(info_array).len() ==> final(info_array)@[i] == old(
                info_array,
            )@[i],
        range_of(final(info_array)@, start, end).to_multiset() == range_of(
            old(info_array)@,
            start,
            end,
        ).to_multiset(),
        final(ordered_prims)@ == old(ordered_prims)@ + numbers_of(
            range_of(final(info_array)@, start, end),
        ),
        final(nodes).len() == old(nodes).len() + node.node_count(),
        node.covers(boxes_of(final(info_array)@), start as int, end as int),
    decreases end - start,
{
    // compute bounds for all primitives in the node
    let bounds = bounds_of_range(info_array, start, end);
    nodes.push(BVHLinearNode { bounds, offset: 0, n_primitives: 0, axis: Vec3Axis::X });


    let n_shapes = end - start;
    if n_shapes == 1 {
        push_range(info_array, start, end, ordered_prims);
        let node = BVHBuildNode::init_leaf(start, n_shapes, bounds);
        return Box::new(node);
    }
    // compute bound of primitive centroids
    let centroid_box = centroid_bounds_of_range(info_array, start, end);
    let ax = centroid_box.maximum_extent();

    let mid = start + (end - start) / 2;
    if centroid_box.pmax.get_axis(ax) == centroid_box.pmin.get_axis(ax) {
        push_range(info_array, start, end, ordered_prims);
        let node = BVHBuildNode::init_leaf(start, n_shapes, bounds);
        return Box::new(node);
    }
    // equal-count split: the median centroid along `ax` goes to `mid`
    let ghost s0 = info_array@;
    select_by_centroid(info_array, start, end, mid - start, ax);
    let ghost s1 = info_array@;
    proof {
        lemma_permuted_range_unions(s0, s1, start, end);
    }
    let left = recursive_build(info_array, start, mid, nodes, ordered_prims);
    let ghost s2 = info_array@;
    let right = recursive_build(info_array, mid, end, nodes, ordered_prims);
    let ghost s3 = info_array@;
    let node = BVHBuildNode::init_interior(ax, left, right);
    proof {
        lemma_interior_covers(s0, s1, s2, s3, start, mid, end, node);
        assert(range_of(s3, start, mid) =~= range_of(s2, start, mid));
        assert(ordered_prims@ =~= old(ordered_prims)@ + numbers_of(range_of(s3, start, end)));
    }
    Box::new(node)
}

impl BVHBuildNode {
    /// Every leaf holds at least one primitive and none beyond `limit`, and
    /// every interior node holds none.
    pub open spec fn within(self, limit: int) -> bool
        decreases self,
    {
        match self.children {
            None => 1 <= self.n_shapes && self.first_shape_offset + self.n_shapes <= limit,
            Some((l, r)) => self.n_shapes == 0 && l.within(limit) && r.within(limit),
        }
    }
}

/// The hierarchy of a range refers to primitives of that range only.
pub(crate) proof fn lemma_covers_within(node: BVHBuildNode, boxes: Seq<Bounds3>, start: int, end: int)
    requires
        node.covers(boxes, start, end),
    ensures
        node.within(boxes.len() as int),
    decreases node,
{
    match node.children {
        None => {},
        Some((l, r)) => {
            let mid = (start + end) / 2;
            lemma_covers_within(*l, boxes, start, mid);
            lemma_covers_within(*r, boxes, mid, end);
        },
    }
}

/// `order` lists each of `0..n` once.
pub open spec fn is_permutation(order: Seq<usize>, n: int) -> bool {
    &&& order.len() == n
    &&& forall|i: int| 0 <= i < n ==> 0 <= #[trigger] order[i] < n
    &&& forall|i: int, j: int| 0 <= i < j < n ==> #[trigger] order[i] != #[trigger] order[j]
    &&& forall|k: int| 0 <= k < n ==> #[trigger] occurs(order, 0, n, k as usize)
}

/// A rearrangement of records that were numbered by position lists every
/// number once, and each record can be found again by its number.
pub(crate) proof fn lemma_numbers_permutation(s0: Seq<BVHPrimitiveInfo>, s3: Seq<BVHPrimitiveInfo>)
    requires
        s0.len() == s3.len(),
        s0.len() <= usize::MAX,
        forall|i: int| 0 <= i < s0.len() ==> (#[trigger] s0[i]).primitive_number == i,
        s3.to_multiset() == s0.to_multiset(),
    ensures
        is_permutation(numbers_of(s3), s0.len() as int),
        forall|i: int| 0 <= i < s3.len() ==> #[trigger] s3[i] == s0[s3[i].primitive_number as int],
{
    let n = s0.len() as int;
    let order = numbers_of(s3);
    assert(range_of(s0, 0, n as usize) =~= s0);
    assert(range_of(s3, 0, n as usize) =~= s3);
    lemma_permuted_range(s0, s3, 0, n as usize);
    assert forall|i: int| 0 <= i < n implies #[trigger] s3[i] == s0[s3[i].primitive_number as int]
        && 0 <= s3[i].primitive_number < n by {
        assert(occurs(s0, 0, n, s3[i]));
        let w = choose|w: int| 0 <= w < n && s0[w] == s3[i];
        assert(s0[w].primitive_number == w);
    }
    assert(s0.no_duplicates()) by {
        assert forall|i: int, j: int| 0 <= i < n && 0 <= j < n && i != j implies s0[i] != s0[j] by {
            assert(s0[i].primitive_number == i);
            assert(s0[j].primitive_number == j);
        }
    }
    s0.lemma_multiset_has_no_duplicates();
    s3.lemma_multiset_has_no_duplicates_conv();
    assert forall|i: int, j: int| 0 <= i < j < n implies #[trigger] order[i] != #[trigger] order[j] by {
        assert(s3[i] != s3[j]);
        assert(s3[i] == s0[s3[i].primitive_number as int]);
        assert(s3[j] == s0[s3[j].primitive_number as int]);
    }
    assert forall|k: int| 0 <= k < n implies #[trigger] occurs(order, 0, n, k as usize) by {
        assert(occurs(s3, 0, n, s0[k]));
        let w = choose|w: int| 0 <= w < n && s3[w] == s0[k];
        assert(order[w] == k as usize);
    }
    assert forall|i: int| 0 <= i < n implies 0 <= #[trigger] order[i] < n by {
        assert(s3[i] == s0[s3[i].primitive_number as int]);
    }
}

/// Every tree is at least one node deep and has at least one node.
pub(crate) proof fn lemma_tree_not_empty(node: BVHBuildNode)
    ensures
        node.depth() >= 1,
        node.node_count() >= 1,
{
}

/// A hierarchy of at most `2^k` boxes is at most `k + 1` nodes deep.
proof fn lemma_depth_log(node: BVHBuildNode, boxes: Seq<Bounds3>, start: int, end: int, k: nat)
    requires
        node.covers(boxes, start, end),
        end - start <= pow2(k),
    ensures
        node.depth() <= k + 1,
    decreases node,
{
    match node.children {
        None => {},
        Some((l, r)) => {
            let mid = (start + end) / 2;
            if k == 0 {
                lemma2_to64();
            } else {
                lemma_pow2_unfold(k);
                lemma_depth_log(*l, boxes, start, mid, (k - 1) as nat);
                lemma_depth_log(*r, boxes, mid, end, (k - 1) as nat);
            }
        },
    }
}

/// The hierarchy of a collection that a machine can hold is never deeper
/// than the traversal stack allows for.
pub proof fn lemma_depth_fits_stack(node: BVHBuildNode, boxes: Seq<Bounds3>)
    requires
        node.covers(boxes, 0, boxes.len() as int),
        boxes.len() <= usize::MAX,
    ensures
        node.depth() <= STACK_CAPACITY + 1,
{
    lemma2_to64();
    lemma2_to64_rest();
    lemma_depth_log(node, boxes, 0, boxes.len() as int, 64);
}

} // verus!

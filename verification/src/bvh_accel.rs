//! A bounding-volume hierarchy over a collection of surfaces: built as a
//! binary tree with median splits, laid out in an array, and walked with an
//! explicit stack.

pub use crate::bvh_build::{BVHBuildNode, BVHPrimitiveInfo};
pub use crate::bvh_linear::BVHLinearNode;

use crate::bounds::Bounds3;
use crate::bvh_build::{
    boxes_of, is_permutation, lemma_covers_within, lemma_depth_fits_stack, lemma_numbers_permutation,
    lemma_permuted_range_unions,
    lemma_range_union_encloses, lemma_tree_not_empty, numbers_of, occurs, range_of, range_union,
    recursive_build,
};
use crate::bvh_linear::flatten_tree;
use crate::hitable::{answers, closer, closest, distance, lemma_closest_is_nearest, Hit, Hitable, T_MAX};
use crate::primitive::Primitive;
use crate::ray::{lemma_passes_enclosing, Probe, Ray};
use crate::vec3::{Vec3, Vec3Axis};
use vstd::prelude::*;

verus! {

/// How a range of primitives is split in two. Only the equal-count split is
/// carried out, whichever method is named.
#[derive(Clone, Copy, Debug, PartialEq, Eq, Structural)]
pub enum BVHSplitMethod {
    Equal,
    Middle,
    SAH,
}

/// The boxes of the surfaces, in order.
pub open spec fn shape_boxes<S: Primitive>(shapes: Seq<S>) -> Seq<Bounds3> {
    Seq::new(shapes.len(), |i: int| shapes[i].spec_world_bound())
}

/// The surfaces in the order that `ordered` gives: the surface that was at
/// `ordered[i]` comes to stand at `i`.
fn reorder<S>(shapes: Vec<S>, ordered: &Vec<usize>) -> (out: Vec<S>)
    requires
        is_permutation(ordered@, shapes.len() as int),
    ensures
        out@ == Seq::new(shapes.len() as nat, |i: int| shapes@[ordered@[i] as int]),
{
    let n = shapes.len();
    let ghost given = shapes@;
    let mut shapes = shapes;
    let mut rev: Vec<S> = Vec::with_capacity(n);
    while shapes.len() > 0
        invariant
            shapes.len() + rev.len() == n,
            n == given.len(),
            forall|k: int| 0 <= k < shapes.len() ==> shapes@[k] == given[k],
            forall|k: int| 0 <= k < rev.len() ==> rev@[k] == given[n - 1 - k],
        decreases shapes.len(),
    {
        let s = shapes.pop().unwrap();
        rev.push(s);
    }
    let mut slots: Vec<Option<S>> = Vec::with_capacity(n);
    while rev.len() > 0
        invariant
            slots.len() + rev.len() == n,
            n == given.len(),
            forall|k: int| 0 <= k < rev.len() ==> rev@[k] == given[n - 1 - k],
            forall|k: int| 0 <= k < slots.len() ==> slots@[k] == Some(given[k]),
        decreases rev.len(),
    {
        let s = rev.pop().unwrap();
        slots.push(Some(s));
    }
    let mut out: Vec<S> = Vec::with_capacity(n);
    let mut i: usize = 0;
    while i < n
        invariant
            i <= n,
            n == given.len(),
            slots.len() == n,
            out.len() == i,
            is_permutation(ordered@, n as int),
            forall|j: int| 0 <= j < i ==> out@[j] == given[ordered@[j] as int],
            forall|k: int|
                0 <= k < n ==> #[trigger] slots@[k] == if occurs(ordered@, 0, i as int, k as usize) {
                    None
                } else {
                    Some(given[k])
                },
        decreases n - i,
    {
        let idx = ordered[i];
        proof {
            if occurs(ordered@, 0, i as int, idx) {
                let j = choose|j: int| 0 <= j < i && ordered@[j] == idx;
                assert(ordered@[j] != ordered@[i as int]);
            }
        }
        let taken = slots[idx].take();
        let ghost before = i as int;
        out.push(taken.unwrap());
        i += 1;
        proof {
            assert forall|k: int| 0 <= k < n implies #[trigger] slots@[k] == if occurs(
                ordered@,
                0,
                i as int,
                k as usize,
            ) {
                None
            } else {
                Some(given[k])
            } by {
                if k == idx {
                    assert(ordered@[before] == k as usize);
                } else if occurs(ordered@, 0, before, k as usize) {
                    let j = choose|j: int| 0 <= j < before && ordered@[j] == k as usize;
                    assert(ordered@[j] == k as usize);
                } else if occurs(ordered@, 0, i as int, k as usize) {
                    let j = choose|j: int| 0 <= j < i && ordered@[j] == k as usize;
                    assert(j == before);
                }
            }
        }
    }
    assert(out@ =~= Seq::new(given.len(), |i: int| given[ordered@[i] as int]));
    out
}

/// A bounding-volume hierarchy over a collection of surfaces.
///
/// [`BVHAccel::new`] takes the collection, [`BVHAccel::build`] makes the
/// hierarchy and puts the surfaces in the order of its leaves, and
/// [`BVHAccel::intersect`] answers nearest-hit queries.
pub struct BVHAccel<S> {
    max_prims_in_node: usize,
    split_method: BVHSplitMethod,
    shapes: Vec<S>,
    nodes: Vec<BVHLinearNode>,
    tree: Ghost<Option<BVHBuildNode>>,
    order: Ghost<Seq<usize>>,
}

impl<S: Primitive> BVHAccel<S> {
    /// The surfaces, in the order in which the index holds them.
    pub closed spec fn shapes_view(&self) -> Seq<S> {
        self.shapes@
    }

    /// The array of nodes.
    pub closed spec fn nodes_view(&self) -> Seq<BVHLinearNode> {
        self.nodes@
    }

    /// The tree that the array holds; `None` before the index is built and
    /// for an empty collection.
    pub closed spec fn root(&self) -> Option<BVHBuildNode> {
        self.tree@
    }

    /// The leaf size and the split method that the index was made with.
    pub closed spec fn settings(&self) -> (usize, BVHSplitMethod) {
        (self.max_prims_in_node, self.split_method)
    }

    /// For each position of the built index, the position that its surface
    /// had in the collection the index was made from.
    pub closed spec fn ordered_prims(&self) -> Seq<usize> {
        self.order@
    }

    /// The array holds, in pre-order, the hierarchy of the surfaces' boxes;
    /// or it is empty, and so is the collection.
    pub open spec fn well_formed(&self) -> bool {
        &&& self.shapes_view().len() <= usize::MAX
        &&& match self.root() {
            None => self.shapes_view().len() == 0 && self.nodes_view().len() == 0,
            Some(t) => {
                &&& t.covers(shape_boxes(self.shapes_view()), 0, self.shapes_view().len() as int)
                &&& t.laid_out(self.nodes_view(), 0)
                &&& self.nodes_view().len() == t.node_count()
            },
        }
    }

    pub fn new(max_prims_in_node: usize, split_method: BVHSplitMethod, shapes: Vec<S>) -> (bvh: Self)
        ensures
            bvh.shapes_view() == shapes@,
            bvh.nodes_view().len() == 0,
            bvh.root() is None,
            bvh.settings() == (max_prims_in_node, split_method),
    {
        BVHAccel {
            max_prims_in_node,
            split_method,
            shapes,
            nodes: Vec::new(),
            tree: Ghost(None),
            order: Ghost(Seq::empty()),
        }
    }

    /// The surfaces, in the order in which the index holds them.
    pub fn shapes(&self) -> (shapes: &Vec<S>)
        ensures
            shapes@ == self.shapes_view(),
    {
        &self.shapes
    }

    /// The array of nodes.
    pub fn nodes(&self) -> (nodes: &Vec<BVHLinearNode>)
        ensures
            nodes@ == self.nodes_view(),
    {
        &self.nodes
    }

    /// Builds the hierarchy over the surfaces and reorders them so that the
    /// primitives of every leaf stand side by side.
    pub fn build(self) -> (built: Self)
        ensures
            built.well_formed(),
            is_permutation(built.ordered_prims(), self.shapes_view().len() as int),
            built.shapes_view() == Seq::new(
                self.shapes_view().len(),
                |i: int| self.shapes_view()[built.ordered_prims()[i] as int],
            ),
            self.shapes_view().len() == 0 <==> built.root() is None,
            built.root() matches Some(t) ==> {
                &&& t.depth() <= STACK_CAPACITY + 1
                &&& built.nodes_view()[0].bounds == t.bounds
                &&& t.bounds == range_union(
                    shape_boxes(self.shapes_view()),
                    0,
                    self.shapes_view().len() as int,
                )
                &&& t.bounds == range_union(
                    shape_boxes(built.shapes_view()),
                    0,
                    built.shapes_view().len() as int,
                )
            },
            built.settings() == self.settings(),
    {
        let BVHAccel { max_prims_in_node, split_method, shapes, nodes: _, tree: _, order: _ } = self;
        let n = shapes.len();
        if n == 0 {
            let built = BVHAccel {
                max_prims_in_node,
                split_method,
                shapes,
                nodes: Vec::new(),
                tree: Ghost(None),
                order: Ghost(Seq::empty()),
            };
            assert(built.shapes@ =~= Seq::new(0, |i: int| self.shapes@[built.order@[i] as int]));
            return built;
        }
        // initialize primitive info array
        let mut info_array: Vec<BVHPrimitiveInfo> = Vec::with_capacity(n);
        let mut i: usize = 0;
        while i < n
            invariant
                i <= n,
                n == shapes.len(),
                info_array.len() == i,
                forall|j: int|
                    0 <= j < i ==> {
                        &&& (#[trigger] info_array@[j]).primitive_number == j
                        &&& info_array@[j].bounds == shapes@[j].spec_world_bound()
                        &&& info_array@[j].well_formed()
                    },
            decreases n - i,
        {
            let shape_bounds = shapes[i].world_bound();
            info_array.push(
                BVHPrimitiveInfo {
                    primitive_number: i,
                    bounds: shape_bounds,
                    centroid: shape_bounds.centroid(),
                },
            );
            i += 1;
        }
        let ghost s0 = info_array@;

        // build the tree over the info array
        let mut nodes: Vec<BVHLinearNode> = Vec::new();
        let mut ordered_prims_index: Vec<usize> = Vec::new();
        let root = recursive_build(&mut info_array, 0, n, &mut nodes, &mut ordered_prims_index);
        let ghost s3 = info_array@;
        proof {
            assert(range_of(s0, 0, n) =~= s0);
            assert(range_of(s3, 0, n) =~= s3);
            assert(ordered_prims_index@ =~= numbers_of(s3));
            lemma_numbers_permutation(s0, s3);
        }
        let new_shapes = reorder(shapes, &ordered_prims_index);
        proof {
            lemma_depth_fits_stack(*root, boxes_of(s3));
            lemma_permuted_range_unions(s0, s3, 0, n);
            assert(shape_boxes(self.shapes@) =~= boxes_of(s0));
            assert(shape_boxes(new_shapes@) =~= boxes_of(s3)) by {
                assert forall|i: int| 0 <= i < n implies shape_boxes(new_shapes@)[i] == boxes_of(
                    s3,
                )[i] by {
                    assert(s3[i] == s0[s3[i].primitive_number as int]);
                }
            }
        }

        // lay the tree out in the places kept for its nodes
        let mut offset: usize = 0;
        flatten_tree(&mut nodes, &root, &mut offset);

        BVHAccel {
            max_prims_in_node,
            split_method,
            shapes: new_shapes,
            nodes,
            tree: Ghost(Some(*root)),
            order: Ghost(ordered_prims_index@),
        }
    }
}

/// The number of node indices that the traversal stack holds at most.
///
/// A walk keeps one index for every interior node on the path it is on, so a
/// tree that is `d` nodes deep needs `d - 1` places.
pub const STACK_CAPACITY: usize = 64;

impl BVHBuildNode {
    /// The primitives that a traversal of this tree tests against `ray`, in
    /// the order in which it tests them: none below a box that the ray does
    /// not pass, all of a leaf whose box it passes, and of two subtrees first
    /// those of the one that lies on the side the ray comes from.
    pub open spec fn visit<R: Probe>(self, ray: &R) -> Seq<int>
        decreases self,
    {
        if !ray.spec_intersect_p(self.bounds) {
            Seq::empty()
        } else {
            match self.children {
                None => Seq::new(self.n_shapes as nat, |k: int| self.first_shape_offset + k),
                Some((l, r)) => if ray.spec_dir_is_neg(self.split_axis) {
                    r.visit(ray) + l.visit(ray)
                } else {
                    l.visit(ray) + r.visit(ray)
                },
            }
        }
    }
}

/// What the surfaces at the positions `order` answer to `ray`, in that order.
pub open spec fn tested<S: Hitable>(shapes: Seq<S>, order: Seq<int>, ray: &S::Ray) -> Seq<
    Option<Hit<S::Detail>>,
> {
    Seq::new(order.len(), |k: int| shapes[order[k]].spec_hit(ray))
}

/// What is still to be tested for the subtrees on the stack, the top of the
/// stack first.
spec fn rest_visit<R: Probe>(pending: Seq<BVHBuildNode>, ray: &R) -> Seq<int>
    decreases pending.len(),
{
    if pending.len() == 0 {
        Seq::empty()
    } else {
        pending.last().visit(ray) + rest_visit(pending.drop_last(), ray)
    }
}

/// The number of nodes in the subtrees on the stack.
spec fn pending_count(pending: Seq<BVHBuildNode>) -> nat
    decreases pending.len(),
{
    if pending.len() == 0 {
        0
    } else {
        pending.last().node_count() + pending_count(pending.drop_last())
    }
}

impl<S: Primitive> BVHAccel<S> where S::Ray: Probe {
    /// The hit that a traversal of the index reports for `ray`: the closest
    /// of the answers of the primitives it tests, the earlier one of two that
    /// are equally close.
    pub open spec fn spec_intersect(&self, ray: &S::Ray) -> Option<Hit<S::Detail>> {
        match self.root() {
            None => None,
            Some(t) => closest(tested(self.shapes_view(), t.visit(ray), ray)),
        }
    }

    /// The nearest hit of `ray` with the surfaces of the index, found by
    /// walking the array with an explicit stack: a node whose box the ray
    /// misses is skipped with all below it, and of the two children of a node
    /// the one on the side the ray comes from is walked first.
    #[verifier::rlimit(40)]
    pub fn intersect(&self, ray: &S::Ray) -> (hit: Option<Hit<S::Detail>>)
        requires
            self.well_formed(),
        ensures
            hit == self.spec_intersect(ray),
    {
        let mut hit: Option<Hit<S::Detail>> = None;
        if self.nodes.len() == 0 {
            return hit;
        }
        // precompute the side the ray comes from, per axis
        let neg_x = ray.dir_is_neg(Vec3Axis::X);
        let neg_y = ray.dir_is_neg(Vec3Axis::Y);
        let neg_z = ray.dir_is_neg(Vec3Axis::Z);

        let ghost root = self.tree@->0;
        let ghost limit = self.shapes@.len() as int;
        proof {
            lemma_covers_within(root, shape_boxes(self.shapes@), 0, limit);
            lemma_depth_fits_stack(root, shape_boxes(self.shapes@));
        }
        // follow the ray through the hierarchy
        let mut nodes_to_visit: [usize; STACK_CAPACITY] = [0; STACK_CAPACITY];
        let mut to_visit_offset: usize = 0;
        let mut current_node_index: usize = 0;
        let ghost mut cur = root;
        let ghost mut pending: Seq<BVHBuildNode> = Seq::empty();
        let ghost mut done: Seq<int> = Seq::empty();
        proof {
            assert(tested(self.shapes@, done, ray) =~= Seq::empty());
            assert(root.visit(ray) =~= done + cur.visit(ray) + rest_visit(pending, ray));
        }
        loop
            invariant_except_break
                root.visit(ray) == done + cur.visit(ray) + rest_visit(pending, ray),
            invariant
                limit == self.shapes@.len(),
                limit <= usize::MAX,
                neg_x == ray.spec_dir_is_neg(Vec3Axis::X),
                neg_y == ray.spec_dir_is_neg(Vec3Axis::Y),
                neg_z == ray.spec_dir_is_neg(Vec3Axis::Z),
                cur.laid_out(self.nodes@, current_node_index as int),
                cur.within(limit),
                to_visit_offset == pending.len(),
                to_visit_offset <= STACK_CAPACITY,
                to_visit_offset + cur.depth() <= STACK_CAPACITY + 1,
                forall|k: int|
                    0 <= k < pending.len() ==> {
                        &&& (#[trigger] pending[k]).laid_out(self.nodes@, nodes_to_visit@[k] as int)
                        &&& pending[k].within(limit)
                        &&& k + pending[k].depth() <= STACK_CAPACITY
                    },
                hit == closest(tested(self.shapes@, done, ray)),
            ensures
                root.visit(ray) == done,
                hit == closest(tested(self.shapes@, done, ray)),
            decreases cur.node_count() + pending_count(pending),
        {
            let lnode: &BVHLinearNode = &self.nodes[current_node_index];
            if ray.intersect_p(&lnode.bounds) {
                if lnode.n_primitives > 0 {
                    // intersect with the primitives of the leaf
                    let ghost before = done;
                    let mut i_prim: usize = 0;
                    while i_prim < lnode.n_primitives
                        invariant
                            i_prim <= lnode.n_primitives,
                            lnode.offset + lnode.n_primitives <= self.shapes@.len() <= usize::MAX,
                            done == before + Seq::new(i_prim as nat, |k: int| lnode.offset + k),
                            hit == closest(tested(self.shapes@, done, ray)),
                        decreases lnode.n_primitives - i_prim,
                    {
                        let tmp_hit = self.shapes[lnode.offset + i_prim].hit(ray);
                        proof {
                            let next = done.push(lnode.offset + i_prim);
                            assert(tested(self.shapes@, next, ray).drop_last() =~= tested(
                                self.shapes@,
                                done,
                                ray,
                            ));
                            assert(next =~= before + Seq::new(
                                (i_prim + 1) as nat,
                                |k: int| lnode.offset + k,
                            ));
                            done = next;
                        }
                        hit = closer(hit, tmp_hit);
                        i_prim += 1;
                    }
                    proof {
                        assert(done =~= before + cur.visit(ray));
                    }
                    if to_visit_offset == 0 {
                        proof {
                            assert(root.visit(ray) =~= done);
                        }
                        break;
                    }
                    to_visit_offset -= 1;
                    let next = nodes_to_visit[to_visit_offset];
                    proof {
                        assert(root.visit(ray) =~= done + pending.last().visit(ray) + rest_visit(
                            pending.drop_last(),
                            ray,
                        ));
                        cur = pending.last();
                        pending = pending.drop_last();
                    }
                    current_node_index = next;
                } else {
                    let ghost (l, r) = cur.children->0;
                    proof {
                        lemma_tree_not_empty(*l);
                        lemma_tree_not_empty(*r);
                    }
                    let neg = match lnode.axis {
                        Vec3Axis::X => neg_x,
                        Vec3Axis::Y => neg_y,
                        Vec3Axis::Z => neg_z,
                    };
                    // put the far node on the stack, go on with the near one
                    if neg {
                        nodes_to_visit[to_visit_offset] = current_node_index + 1;
                        to_visit_offset += 1;
                        current_node_index = lnode.offset;
                        proof {
                            assert((pending.push(*l)).drop_last() =~= pending);
                            assert(root.visit(ray) =~= done + r.visit(ray) + rest_visit(
                                pending.push(*l),
                                ray,
                            ));
                            cur = *r;
                            pending = pending.push(*l);
                        }
                    } else {
                        nodes_to_visit[to_visit_offset] = lnode.offset;
                        to_visit_offset += 1;
                        current_node_index += 1;
                        proof {
                            assert((pending.push(*r)).drop_last() =~= pending);
                            assert(root.visit(ray) =~= done + l.visit(ray) + rest_visit(
                                pending.push(*r),
                                ray,
                            ));
                            cur = *l;
                            pending = pending.push(*r);
                        }
                    }
                }
            } else {
                if to_visit_offset == 0 {
                    proof {
                        assert(root.visit(ray) =~= done);
                    }
                    break;
                }
                to_visit_offset -= 1;
                let next = nodes_to_visit[to_visit_offset];
                proof {
                    assert(root.visit(ray) =~= done + pending.last().visit(ray) + rest_visit(
                        pending.drop_last(),
                        ray,
                    ));
                    cur = pending.last();
                    pending = pending.drop_last();
                }
                current_node_index = next;
            }
        }
        hit
    }
}

/// A traversal tests primitives of the range of the tree only.
proof fn lemma_visit_in_range<R: Probe>(node: BVHBuildNode, boxes: Seq<Bounds3>, start: int, end: int, ray: &R)
    requires
        node.covers(boxes, start, end),
    ensures
        forall|k: int| 0 <= k < node.visit(ray).len() ==> start <= #[trigger] node.visit(ray)[k] < end,
    decreases node,
{
    let order = node.visit(ray);
    match node.children {
        None => {
            assert forall|k: int| 0 <= k < order.len() implies start <= #[trigger] order[k] < end by {
                assert(order[k] == node.first_shape_offset + k);
            }
        },
        Some((l, r)) => {
            let mid = (start + end) / 2;
            lemma_visit_in_range(*l, boxes, start, mid, ray);
            lemma_visit_in_range(*r, boxes, mid, end, ray);
            let lv = l.visit(ray);
            let rv = r.visit(ray);
            assert forall|k: int| 0 <= k < order.len() implies start <= #[trigger] order[k] < end by {
                if ray.spec_dir_is_neg(node.split_axis) {
                    if k < rv.len() {
                        assert(order[k] == rv[k]);
                    } else {
                        assert(order[k] == lv[k - rv.len()]);
                    }
                } else {
                    if k < lv.len() {
                        assert(order[k] == lv[k]);
                    } else {
                        assert(order[k] == rv[k - lv.len()]);
                    }
                }
            }
        },
    }
}

/// A traversal tests every primitive of the range whose enclosing boxes the
/// ray passes.
proof fn lemma_visit_reaches<R: Probe>(
    node: BVHBuildNode,
    boxes: Seq<Bounds3>,
    start: int,
    end: int,
    ray: &R,
    i: int,
)
    requires
        node.covers(boxes, start, end),
        start <= i < end,
        forall|b: Bounds3| #[trigger] b.encloses(boxes[i]) ==> ray.spec_intersect_p(b),
    ensures
        occurs(node.visit(ray), 0, node.visit(ray).len() as int, i),
    decreases node,
{
    lemma_range_union_encloses(boxes, start, end);
    assert(node.bounds.encloses(boxes[i]));
    match node.children {
        None => {
            assert(node.visit(ray)[i - start] == i);
        },
        Some((l, r)) => {
            let mid = (start + end) / 2;
            let lv = l.visit(ray);
            let rv = r.visit(ray);
            if i < mid {
                lemma_visit_reaches(*l, boxes, start, mid, ray, i);
                let w = choose|w: int| 0 <= w < lv.len() && lv[w] == i;
                if ray.spec_dir_is_neg(node.split_axis) {
                    assert((rv + lv)[rv.len() + w] == i);
                } else {
                    assert((lv + rv)[w] == i);
                }
            } else {
                lemma_visit_reaches(*r, boxes, mid, end, ray, i);
                let w = choose|w: int| 0 <= w < rv.len() && rv[w] == i;
                if ray.spec_dir_is_neg(node.split_axis) {
                    assert((rv + lv)[w] == i);
                } else {
                    assert((lv + rv)[lv.len() + w] == i);
                }
            }
        },
    }
}

/// The box at the root of a built index is the union of the boxes of all its
/// surfaces, and it is the box of the first node of the array.
pub proof fn lemma_root_is_union<S: Primitive>(bvh: &BVHAccel<S>)
    requires
        bvh.well_formed(),
        bvh.root() is Some,
    ensures
        bvh.root()->0.bounds == range_union(
            shape_boxes(bvh.shapes_view()),
            0,
            bvh.shapes_view().len() as int,
        ),
        bvh.nodes_view()[0].bounds == bvh.root()->0.bounds,
        forall|i: int|
            0 <= i < bvh.shapes_view().len() ==> bvh.root()->0.bounds.encloses(
                #[trigger] bvh.shapes_view()[i].spec_world_bound(),
            ),
{
    let boxes = shape_boxes(bvh.shapes_view());
    lemma_range_union_encloses(boxes, 0, boxes.len() as int);
    assert forall|i: int| 0 <= i < bvh.shapes_view().len() implies bvh.root()->0.bounds.encloses(
        #[trigger] bvh.shapes_view()[i].spec_world_bound(),
    ) by {
        assert(boxes[i] == bvh.shapes_view()[i].spec_world_bound());
    }
}

/// Where the ray passes every box that encloses a surface it hits, the index
/// reports a hit at the same distance as a scan over all the surfaces does,
/// and none where the scan finds none.
pub proof fn lemma_intersect_matches_scan<S: Primitive>(bvh: &BVHAccel<S>, ray: &S::Ray) where
    S::Ray: Probe,

    requires
        bvh.well_formed(),
        forall|i: int, b: Bounds3|
            0 <= i < bvh.shapes_view().len() && bvh.shapes_view()[i].spec_hit(ray) is Some
                && #[trigger] b.encloses(bvh.shapes_view()[i].spec_world_bound())
                ==> ray.spec_intersect_p(b),
    ensures
        distance(bvh.spec_intersect(ray)) == distance(closest(answers(bvh.shapes_view(), ray))),
{
    let shapes = bvh.shapes_view();
    let all = answers(shapes, ray);
    lemma_closest_is_nearest(all);
    match bvh.root() {
        None => {},
        Some(t) => {
            let boxes = shape_boxes(shapes);
            let n = shapes.len() as int;
            let order = t.visit(ray);
            let seen = tested(shapes, order, ray);
            lemma_closest_is_nearest(seen);
            lemma_visit_in_range(t, boxes, 0, n, ray);
            match closest(all) {
                None => {
                    if closest(seen) is Some {
                        let v = closest(seen)->0;
                        let k = choose|k: int| 0 <= k < seen.len() && seen[k] == Some(v);
                        assert(all[order[k]] == seen[k]);
                    }
                },
                Some(a) => {
                    let i = choose|i: int| 0 <= i < all.len() && all[i] == Some(a);
                    assert(shapes[i].spec_hit(ray) is Some);
                    assert forall|b: Bounds3| #[trigger] b.encloses(boxes[i]) implies ray.spec_intersect_p(
                        b,
                    ) by {
                        assert(b.encloses(shapes[i].spec_world_bound()));
                    }
                    lemma_visit_reaches(t, boxes, 0, n, ray, i);
                    let k = choose|k: int| 0 <= k < order.len() && order[k] == i;
                    assert(seen[k] == Some(a));
                    let v = closest(seen)->0;
                    let k2 = choose|k2: int| 0 <= k2 < seen.len() && seen[k2] == Some(v);
                    assert(all[order[k2]] == seen[k2]);
                },
            }
        },
    }
}

/// For rays on the grid: where the ray passes the box of every surface it
/// hits, the index reports a hit at the same distance as a scan over all the
/// surfaces does, and none where the scan finds none.
pub proof fn lemma_intersect_matches_scan_on_grid<S: Primitive<Ray = Ray>>(bvh: &BVHAccel<S>, ray: &Ray)
    requires
        bvh.well_formed(),
        forall|i: int|
            0 <= i < bvh.shapes_view().len() && (#[trigger] bvh.shapes_view()[i]).spec_hit(ray) is Some
                ==> ray.passes(bvh.shapes_view()[i].spec_world_bound(), T_MAX as int),
    ensures
        distance(bvh.spec_intersect(ray)) == distance(closest(answers(bvh.shapes_view(), ray))),
{
    assert forall|i: int, b: Bounds3|
        0 <= i < bvh.shapes_view().len() && bvh.shapes_view()[i].spec_hit(ray) is Some
            && #[trigger] b.encloses(bvh.shapes_view()[i].spec_world_bound()) implies ray.spec_intersect_p(
        b,
    ) by {
        lemma_passes_enclosing(*ray, bvh.shapes_view()[i].spec_world_bound(), b, T_MAX as int);
    }
    lemma_intersect_matches_scan(bvh, ray);
}

/// Over boxes on the grid, met by rays on the grid, the index reports a hit
/// at the same distance as a scan over all the boxes does, and none where the
/// scan finds none.
pub proof fn lemma_boxes_match_scan(bvh: &BVHAccel<Bounds3>, ray: &Ray)
    requires
        bvh.well_formed(),
    ensures
        distance(bvh.spec_intersect(ray)) == distance(closest(answers(bvh.shapes_view(), ray))),
{
    lemma_intersect_matches_scan_on_grid(bvh, ray);
}

} // verus!

//! Median selection of primitive records by centroid.

use crate::bvh_build::{centroid_along, range_of, BVHPrimitiveInfo};
use crate::vec3::Vec3Axis;
use std::cmp::Ordering;
use vstd::prelude::*;

verus! {

/// Orders two primitive records by the coordinate of their centroids along
/// `axis`.
pub fn centroid_order(a: &BVHPrimitiveInfo, b: &BVHPrimitiveInfo, axis: Vec3Axis) -> (o: Ordering)
    ensures
        o == Ordering::Less <==> a.centroid.at(axis) < b.centroid.at(axis),
        o == Ordering::Greater <==> a.centroid.at(axis) > b.centroid.at(axis),
        o == Ordering::Equal <==> a.centroid.at(axis) == b.centroid.at(axis),
{
    let x = a.centroid.get_axis(axis);
    let y = b.centroid.get_axis(axis);
    if x < y {
        Ordering::Less
    } else if x > y {
        Ordering::Greater
    } else {
        Ordering::Equal
    }
}

/// Rearranges `infos[start..end]` around its `k`-th smallest centroid
/// coordinate along `axis`, with `order_stat::kth_by`.
///
/// Believed of `kth_by`, from its documentation: it only moves the elements of
/// the slice it is given, it puts the `k`-th order statistic at position `k`,
/// and it leaves no larger element before that position and no smaller one
/// after it. Which of several equal elements ends up where is left open.
#[verifier::external_body]
pub(crate) fn select_by_centroid(
    infos: &mut Vec<BVHPrimitiveInfo>,
    start: usize,
    end: usize,
    k: usize,
    axis: Vec3Axis,
)
    requires
        start <= end <= old(infos).len(),
        k < end - start,
    ensures
        final(infos)@.len() == old(infos)@.len(),
        forall|i: int| 0 <= i < start || end <= i < old(infos)@.len() ==> final(infos)@[i] == old(infos)@[i],
        range_of(final(infos)@, start, end).to_multiset() == range_of(
            old(infos)@,
            start,
            end,
        ).to_multiset(),
        forall|i: int|
            start <= i < start + k ==> #[trigger] centroid_along(final(infos)@, i, axis) <= centroid_along(
                final(infos)@,
                start + k,
                axis,
            ),
        forall|i: int|
            start + k < i < end ==> #[trigger] centroid_along(final(infos)@, i, axis) >= centroid_along(
                final(infos)@,
                start + k,
                axis,
            ),
{
    order_stat::kth_by(&mut infos[start..end], k, |a, b| centroid_order(a, b, axis));
}

} // verus!

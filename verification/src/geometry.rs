//! Axis-aligned boxes and points of the geometry crate, carried through the
//! library as opaque values, and the few calls into that crate that the
//! library's logic makes.

use parry2d_f64::bounding_volume::Aabb;
use parry2d_f64::bounding_volume::BoundingVolume;
use parry2d_f64::math::Vector2;
use vstd::prelude::*;

verus! {

/// The geometry crate's axis-aligned bounding box, opaque to the library.
#[verifier::external_type_specification]
#[verifier::external_body]
pub struct ExAabb(Aabb);

/// The geometry crate's two-dimensional vector, opaque to the library.
#[verifier::external_type_specification]
#[verifier::external_body]
pub struct ExVector2(Vector2);

/// The box that `BoundingVolume::merged` computes for the boxes `a` and `b`
/// (the smallest box holding both).
pub uninterp spec fn merged_aabb(a: Aabb, b: Aabb) -> Aabb;

/// Whether `Aabb::contains_local_point` holds of the box `b` and the point `p`.
pub uninterp spec fn aabb_holds_point(b: Aabb, p: Vector2) -> bool;

/// Calls `BoundingVolume::merged` of the geometry crate. Its contract claims
/// only that the result is determined by the two boxes: the value is named
/// `merged_aabb(a, b)`.
#[verifier::external_body]
pub(crate) fn aabb_merged(a: &Aabb, b: &Aabb) -> (r: Aabb)
    ensures
        r == merged_aabb(*a, *b),
{
    a.merged(b)
}

/// Calls `Aabb::contains_local_point` of the geometry crate. Its contract claims
/// only that the answer is determined by the box and the point: it is named
/// `aabb_holds_point(b, p)`.
#[verifier::external_body]
pub(crate) fn aabb_contains_point(b: &Aabb, p: &Vector2) -> (r: bool)
    ensures
        r == aabb_holds_point(*b, *p),
{
    b.contains_local_point(*p)
}

/// The box from `start` merged, in order, with each of `boxes`.
pub open spec fn fold_merged(start: Aabb, boxes: Seq<Aabb>) -> Aabb
    decreases boxes.len(),
{
    if boxes.len() == 0 {
        start
    } else {
        merged_aabb(fold_merged(start, boxes.drop_last()), boxes.last())
    }
}

/// Merges the boxes, in order, into `start`: the box covering a group of
/// strokes from their boxes and the empty (invalid) box.
pub fn merge_boxes(start: Aabb, boxes: &Vec<Aabb>) -> (r: Aabb)
    ensures
        r == fold_merged(start, boxes@),
{
    let mut acc = start;
    let n = boxes.len();
    let mut i: usize = 0;
    while i < n
        invariant
            n == boxes@.len(),
            i <= n,
            acc == fold_merged(start, boxes@.take(i as int)),
        decreases n - i,
    {
        assert(boxes@.take(i + 1).drop_last() =~= boxes@.take(i as int));
        acc = aabb_merged(&acc, &boxes[i]);
        i = i + 1;
    }
    assert(boxes@.take(n as int) =~= boxes@);
    acc
}

} // verus!

//! Exact point-in-polygon testing, done by the `geo` crate.

use vstd::prelude::*;

use crate::ty::{Point, Polygon};

verus! {

/// The verdict of `geo`'s `Covers` on the polygon whose exterior ring has
/// the vertices `ring` (closed by `geo` where it is given open, without
/// holes) and on the point `point`.
///
/// By `geo`'s documentation the verdict is `true` where the point lies in
/// the polygon's interior or on its boundary, and `false` where it lies
/// outside.
pub uninterp spec fn polygon_covers(ring: Seq<(int, int)>, point: (int, int)) -> bool;

/// The most vertices a ring may have for the exact test: `geo` counts how
/// often the ring winds around the point in 32 bits, and a ring of this
/// length, once closed, has fewer edges than that count can hold.
pub const MAX_RING_LEN: usize = 0x7fff_fffe;

/// Calls `geo::Covers::covers` on a `geo::Polygon` and a `geo::Point`.
///
/// The polygon is made by `geo::Polygon::new` from the vertices of
/// `polygon` and no interior rings; both it and the point carry the grid
/// positions as `i128`, a width in which no product of two differences of
/// 32-bit positions overflows. The contract claims no more than that the
/// result is `geo`'s verdict on these vertices and this point.
#[verifier::external_body]
pub(crate) fn polygon_covers_point(polygon: &Polygon<i32>, point: &Point<i32>) -> (inside: bool)
    requires
        polygon@.len() <= MAX_RING_LEN,
    ensures
        inside == polygon_covers(polygon@, point@),
{
    let ring: Vec<geo::Coord<i128>> = polygon.exterior.iter().map(
        |vertex| geo::Coord { x: i128::from(vertex.x), y: i128::from(vertex.y) },
    ).collect();
    let shape = geo::Polygon::new(geo::LineString::new(ring), Vec::new());
    geo::Covers::covers(&shape, &geo::Point::new(i128::from(point.x), i128::from(point.y)))
}

} // verus!

//! One region of an index: a polygon, its envelope, and the position of
//! the value it maps to.

use vstd::prelude::*;

use crate::envelope::{within_extent, BoundingBox};
use crate::geometry::{polygon_covers, polygon_covers_point, MAX_RING_LEN};
use crate::ty::{IndexCoordinate, Point, Polygon};

verus! {

/// Why a geometry cannot be indexed.
#[derive(Clone, Copy, Debug, PartialEq, Eq, Structural)]
pub enum GeometryError {
    /// A polygon is degenerate: it has no vertices, and so no envelope, or
    /// more of them than the exact test can take. `definition` is the
    /// position of the definition the polygon belongs to.
    DegenerateGeometry { definition: usize },
}

/// A ring that cannot be indexed: one without vertices, or with more than
/// `MAX_RING_LEN` of them.
pub open spec fn degenerate(ring: Seq<(int, int)>) -> bool {
    ring.len() == 0 || ring.len() > MAX_RING_LEN
}

/// The region with exterior `ring` takes in `point`: the point is within
/// the span of the ring's vertices, and it lies in the polygon or on its
/// boundary.
pub open spec fn region_covers(ring: Seq<(int, int)>, point: (int, int)) -> bool {
    within_extent(ring, point) && polygon_covers(ring, point)
}

/// A polygon with its envelope, computed once, and the position of its
/// value in the index that owns the entry.
pub struct IndexEntry {
    envelope: BoundingBox,
    polygon: Polygon<i32>,
    value_index: usize,
}

impl IndexEntry {
    /// The polygon is one that can be indexed, and the envelope is the
    /// extent of its ring.
    #[verifier::type_invariant]
    pub closed spec fn well_formed(self) -> bool {
        !degenerate(self.polygon@) && self.envelope.is_extent_of(self.polygon@)
    }

    /// The vertices of the entry's polygon.
    pub closed spec fn ring(self) -> Seq<(int, int)> {
        self.polygon@
    }

    /// The entry's envelope.
    pub closed spec fn spec_envelope(&self) -> BoundingBox {
        self.envelope
    }

    /// The position of the entry's value.
    pub closed spec fn spec_value_index(&self) -> usize {
        self.value_index
    }

    /// A well-formed entry's envelope is the extent of its ring; so every
    /// vertex of the ring is within the envelope.
    pub proof fn envelope_is_extent(self)
        requires
            self.well_formed(),
        ensures
            self.spec_envelope().is_extent_of(self.ring()),
            forall|i: int|
                0 <= i < self.ring().len() ==> self.spec_envelope().covers(#[trigger] self.ring()[i]),
    {
    }

    /// The entry for `polygon`, tagged with `value_index`. Its envelope is
    /// the extent of the polygon, so every vertex lies within it. A
    /// degenerate polygon is refused.
    pub fn new<V: IndexCoordinate>(polygon: &Polygon<V>, value_index: usize) -> (made: Result<
        IndexEntry,
        GeometryError,
    >)
        ensures
            made is Err <==> degenerate(polygon@),
            made matches Err(error) ==> error == (GeometryError::DegenerateGeometry {
                definition: value_index,
            }),
            made matches Ok(entry) ==> {
                &&& entry.well_formed()
                &&& entry.ring() == polygon@
                &&& entry.value_index() == value_index
                &&& entry.envelope().is_extent_of(polygon@)
                &&& forall|i: int|
                    0 <= i < polygon@.len() ==> entry.envelope().covers(#[trigger] polygon@[i])
            },
    {
        if polygon.exterior.len() > MAX_RING_LEN {
            return Err(GeometryError::DegenerateGeometry { definition: value_index });
        }
        let polygon = polygon.to_grid();
        match BoundingBox::around(&polygon) {
            None => Err(GeometryError::DegenerateGeometry { definition: value_index }),
            Some(envelope) => Ok(IndexEntry { envelope, polygon, value_index }),
        }
    }

    /// The envelope that was computed when the entry was made.
    #[verifier::when_used_as_spec(spec_envelope)]
    pub fn envelope(&self) -> (envelope: BoundingBox)
        ensures
            envelope == self.spec_envelope(),
            envelope.is_extent_of(self.ring()),
    {
        proof {
            use_type_invariant(self);
        }
        self.envelope
    }

    /// The position of the entry's value in the index that owns it.
    #[verifier::when_used_as_spec(spec_value_index)]
    pub fn value_index(&self) -> (value_index: usize)
        ensures
            value_index == self.spec_value_index(),
    {
        self.value_index
    }

    /// Whether the entry's polygon contains `point`, by the exact test. A
    /// point on the polygon's boundary counts as contained.
    pub fn contains<V: IndexCoordinate>(&self, point: &Point<V>) -> (inside: bool)
        ensures
            inside == polygon_covers(self.ring(), point@),
    {
        proof {
            use_type_invariant(self);
        }
        polygon_covers_point(&self.polygon, &point.to_grid())
    }
}

} // verus!

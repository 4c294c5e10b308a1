//! Axis-aligned bounding boxes on the grid.

use vstd::prelude::*;

use crate::ty::{Point, Polygon};

verus! {

/// An axis-aligned rectangle, given by its lowest and highest grid
/// position on each axis. Its borders belong to it.
#[derive(Clone, Copy, Debug, PartialEq, Eq, Structural)]
pub struct BoundingBox {
    pub min_x: i32,
    pub min_y: i32,
    pub max_x: i32,
    pub max_y: i32,
}

/// `point` lies within the span of the ring's vertices on both axes: some
/// vertex is at or left of it, some at or right of it, some at or below
/// it, some at or above it.
pub open spec fn within_extent(ring: Seq<(int, int)>, point: (int, int)) -> bool {
    &&& exists|i: int| 0 <= i < ring.len() && (#[trigger] ring[i]).0 <= point.0
    &&& exists|i: int| 0 <= i < ring.len() && (#[trigger] ring[i]).0 >= point.0
    &&& exists|i: int| 0 <= i < ring.len() && (#[trigger] ring[i]).1 <= point.1
    &&& exists|i: int| 0 <= i < ring.len() && (#[trigger] ring[i]).1 >= point.1
}

impl BoundingBox {
    /// The lower corner is nowhere above the upper one.
    pub open spec fn well_formed(self) -> bool {
        self.min_x <= self.max_x && self.min_y <= self.max_y
    }

    /// `point` is in the box, borders included.
    pub open spec fn covers(self, point: (int, int)) -> bool {
        self.min_x <= point.0 <= self.max_x && self.min_y <= point.1 <= self.max_y
    }

    /// The box is the smallest one around the vertices of `ring`: every
    /// vertex is in it, and each of its four sides passes through one.
    pub open spec fn is_extent_of(self, ring: Seq<(int, int)>) -> bool {
        &&& forall|i: int| 0 <= i < ring.len() ==> self.covers(#[trigger] ring[i])
        &&& exists|i: int| 0 <= i < ring.len() && (#[trigger] ring[i]).0 == self.min_x
        &&& exists|i: int| 0 <= i < ring.len() && (#[trigger] ring[i]).0 == self.max_x
        &&& exists|i: int| 0 <= i < ring.len() && (#[trigger] ring[i]).1 == self.min_y
        &&& exists|i: int| 0 <= i < ring.len() && (#[trigger] ring[i]).1 == self.max_y
    }

    /// The corner with the lowest position on both axes.
    pub fn min(&self) -> (corner: Point<i32>)
        ensures
            corner.x == self.min_x,
            corner.y == self.min_y,
    {
        Point { x: self.min_x, y: self.min_y }
    }

    /// The corner with the highest position on both axes.
    pub fn max(&self) -> (corner: Point<i32>)
        ensures
            corner.x == self.max_x,
            corner.y == self.max_y,
    {
        Point { x: self.max_x, y: self.max_y }
    }

    /// Whether `point` is in the box, borders included.
    pub fn contains(&self, point: &Point<i32>) -> (inside: bool)
        ensures
            inside == self.covers(point@),
    {
        self.min_x <= point.x && point.x <= self.max_x && self.min_y <= point.y && point.y
            <= self.max_y
    }

    /// The smallest box around the vertices of `polygon`, found in one pass
    /// over them. A polygon without vertices has none.
    pub fn around(polygon: &Polygon<i32>) -> (found: Option<BoundingBox>)
        ensures
            found is None <==> polygon@.len() == 0,
            found matches Some(bounds) ==> bounds.is_extent_of(polygon@),
    {
        let ring = &polygon.exterior;
        if ring.len() == 0 {
            return None;
        }
        let first = &ring[0];
        let mut bounds = BoundingBox {
            min_x: first.x,
            min_y: first.y,
            max_x: first.x,
            max_y: first.y,
        };
        let ghost mut at_min_x: int = 0;
        let ghost mut at_max_x: int = 0;
        let ghost mut at_min_y: int = 0;
        let ghost mut at_max_y: int = 0;
        let mut i: usize = 1;
        while i < ring.len()
            invariant
                1 <= i <= ring.len(),
                ring == &polygon.exterior,
                forall|k: int| 0 <= k < i ==> bounds.covers(#[trigger] polygon@[k]),
                0 <= at_min_x < i && polygon@[at_min_x].0 == bounds.min_x,
                0 <= at_max_x < i && polygon@[at_max_x].0 == bounds.max_x,
                0 <= at_min_y < i && polygon@[at_min_y].1 == bounds.min_y,
                0 <= at_max_y < i && polygon@[at_max_y].1 == bounds.max_y,
            decreases ring.len() - i,
        {
            let vertex = &ring[i];
            assert(polygon@[i as int] == vertex@);
            if vertex.x < bounds.min_x {
                bounds.min_x = vertex.x;
                proof {
                    at_min_x = i as int;
                }
            }
            if vertex.x > bounds.max_x {
                bounds.max_x = vertex.x;
                proof {
                    at_max_x = i as int;
                }
            }
            if vertex.y < bounds.min_y {
                bounds.min_y = vertex.y;
                proof {
                    at_min_y = i as int;
                }
            }
            if vertex.y > bounds.max_y {
                bounds.max_y = vertex.y;
                proof {
                    at_max_y = i as int;
                }
            }
            i += 1;
        }
        Some(bounds)
    }

    /// A ring has at most one extent.
    pub proof fn extent_is_unique(self, other: BoundingBox, ring: Seq<(int, int)>)
        requires
            self.is_extent_of(ring),
            other.is_extent_of(ring),
        ensures
            self == other,
    {
    }

    /// The extent of a ring is a well-formed box.
    pub proof fn extent_is_well_formed(self, ring: Seq<(int, int)>)
        requires
            self.is_extent_of(ring),
        ensures
            self.well_formed(),
    {
    }

    /// The extent of a ring covers exactly the points within the span of
    /// its vertices.
    pub proof fn extent_covers(self, ring: Seq<(int, int)>, point: (int, int))
        requires
            self.is_extent_of(ring),
        ensures
            self.covers(point) <==> within_extent(ring, point),
    {
    }
}

} // verus!

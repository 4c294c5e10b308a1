//! Coordinates, points and polygons as the index sees them.
//!
//! All geometry is done on a signed 32-bit integer grid (fixed-point
//! coordinates). Narrower scalars widen onto that grid without loss, so an
//! index can be fed from lower- and higher-precision sources alike.

use vstd::prelude::*;

verus! {

/// A scalar that can serve as a coordinate: signed, bounded and totally
/// ordered, with an exact place on the 32-bit grid.
pub trait IndexCoordinate: Copy {
    /// The grid position the scalar stands for.
    spec fn as_int(self) -> int;

    /// The scalar on the grid, without loss.
    fn to_i32(self) -> (g: i32)
        ensures
            g as int == self.as_int(),
    ;
}

impl IndexCoordinate for i8 {
    open spec fn as_int(self) -> int {
        self as int
    }

    fn to_i32(self) -> (g: i32) {
        self as i32
    }
}

impl IndexCoordinate for i16 {
    open spec fn as_int(self) -> int {
        self as int
    }

    fn to_i32(self) -> (g: i32) {
        self as i32
    }
}

impl IndexCoordinate for i32 {
    open spec fn as_int(self) -> int {
        self as int
    }

    fn to_i32(self) -> (g: i32) {
        self
    }
}

/// A position in the plane.
#[derive(Clone, Copy, Debug, PartialEq, Eq)]
pub struct Point<V> {
    pub x: V,
    pub y: V,
}

impl<C: IndexCoordinate> View for Point<C> {
    type V = (int, int);

    /// The point as a pair of grid positions, `(x, y)`.
    open spec fn view(&self) -> (int, int) {
        (self.x.as_int(), self.y.as_int())
    }
}

impl<V: IndexCoordinate> Point<V> {
    pub fn new(x: V, y: V) -> (p: Self)
        ensures
            p.x == x,
            p.y == y,
    {
        Point { x, y }
    }

    pub fn x(&self) -> (x: V)
        ensures
            x == self.x,
    {
        self.x
    }

    pub fn y(&self) -> (y: V)
        ensures
            y == self.y,
    {
        self.y
    }

    /// The same position, spelled in grid scalars.
    pub fn to_grid(&self) -> (g: Point<i32>)
        ensures
            g@ == self@,
    {
        Point { x: self.x.to_i32(), y: self.y.to_i32() }
    }
}

/// A region of the plane bounded by one ring of vertices.
///
/// The ring is taken as closed: where the last vertex differs from the
/// first, the edge back to the first vertex is implied. Holes are not
/// modelled.
#[derive(Clone, Debug, PartialEq, Eq)]
pub struct Polygon<V> {
    pub exterior: Vec<Point<V>>,
}

impl<C: IndexCoordinate> View for Polygon<C> {
    type V = Seq<(int, int)>;

    /// The ring's vertices, in order, as grid positions.
    open spec fn view(&self) -> Seq<(int, int)> {
        self.exterior@.map_values(|p: Point<C>| p@)
    }
}

impl<V: IndexCoordinate> Polygon<V> {
    pub fn new(exterior: Vec<Point<V>>) -> (polygon: Self)
        ensures
            polygon.exterior == exterior,
    {
        Polygon { exterior }
    }

    pub fn exterior(&self) -> (ring: &Vec<Point<V>>)
        ensures
            *ring == self.exterior,
    {
        &self.exterior
    }

    /// The same ring, spelled in grid scalars.
    pub fn to_grid(&self) -> (g: Polygon<i32>)
        ensures
            g@ == self@,
    {
        let mut exterior: Vec<Point<i32>> = Vec::new();
        let mut i: usize = 0;
        while i < self.exterior.len()
            invariant
                i <= self.exterior.len(),
                exterior.len() == i,
                forall|k: int| 0 <= k < i ==> (#[trigger] exterior[k])@ == self.exterior[k]@,
            decreases self.exterior.len() - i,
        {
            exterior.push(self.exterior[i].to_grid());
            i += 1;
        }
        let g = Polygon { exterior };
        assert(g@ =~= self@);
        g
    }
}

/// What an index is built from: for each value, the polygons that map to it.
pub type IndexDefinition<T, V = i32> = Vec<(Vec<Polygon<V>>, T)>;

} // verus!

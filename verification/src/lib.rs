//! A geometry index: which value owns this point?
//!
//! An index is built once from a list of definitions, each a set of
//! polygons and the value they map to, plus a default value. A lookup
//! answers with the value of a definition one of whose polygons contains
//! the point, or with the default where none does or no point is given.
//! Nothing changes an index once it is built, so any number of readers may
//! share one.
//!
//! Coordinates are positions on a signed 32-bit grid (fixed-point
//! coordinates); narrower scalars widen onto it. A polygon is one ring of
//! vertices, closed by an implied edge where it is given open, without
//! holes. A point on the boundary of a polygon counts as contained.
//!
//! The envelopes of the polygons are kept in an R-tree of the `rstar`
//! crate, which narrows a lookup down to the regions whose envelope holds
//! the point; the exact containment test on those is that of the `geo`
//! crate. Where regions of different values overlap, the first that the
//! tree yields answers: the index knows no priority among them.
//!
//! The library also holds the rules that a proxy's configuration has to
//! meet and the URL that a request is forwarded to, in [`config`], and the
//! verdict on a socket address given on the command line, in [`cli`].

pub mod cli;
pub mod config;
pub mod definition;
pub mod entry;
pub mod envelope;
pub mod geometry;
pub mod index;
pub mod tree;
pub mod ty;

pub use crate::entry::{GeometryError, IndexEntry};
pub use crate::envelope::BoundingBox;
pub use crate::index::GeoIndex;
pub use crate::ty::{IndexCoordinate, IndexDefinition, Point, Polygon};

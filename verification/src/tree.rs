//! The spatial tree over region envelopes: an R-tree of the `rstar` crate,
//! loaded once and then only queried.

use vstd::multiset::Multiset;
use vstd::prelude::*;

use crate::envelope::BoundingBox;
use crate::ty::Point;

verus! {

/// What the tree stores for one region: the region's envelope and the
/// position of the region among the entries of the index.
#[derive(Clone, Copy, Debug, PartialEq, Eq, Structural)]
pub struct TreeItem {
    pub envelope: BoundingBox,
    pub id: usize,
}

/// An `rstar::RTree` of `GeomWithData<Rectangle<[i32; 2]>, usize>`: one
/// rectangle and one number for each item.
///
/// The tree is opaque to the verifier, which cannot take `RTree` itself
/// for the traits that bound its parameters. What is known of a tree is
/// what `tree_items` and `located_at` say of it, and of those only what
/// the contracts of `bulk_load` and `locate_all_at_point` claim.
#[verifier::external_body]
pub struct EnvelopeTree {
    inner: rstar::RTree<rstar::primitives::GeomWithData<rstar::primitives::Rectangle<[i32; 2]>, usize>>,
}

/// The items a tree holds, each as often as it was loaded.
pub uninterp spec fn tree_items(tree: EnvelopeTree) -> Multiset<TreeItem>;

/// The items that `rstar::RTree::locate_all_at_point` yields for `point`,
/// in the order in which it yields them. The order is that of `rstar`'s
/// walk through the tree; it follows neither the order of loading nor any
/// priority.
pub uninterp spec fn located_at(tree: EnvelopeTree, point: (int, int)) -> Seq<TreeItem>;

/// Calls `rstar::RTree::bulk_load` on one `GeomWithData` per item, its
/// geometry the `Rectangle::from_corners` of the envelope's two corners and
/// its data the item's `id`.
///
/// `from_corners` orders the corners it is given, so for well-formed
/// envelopes it keeps them as they are. The contract claims that the tree
/// holds the items that were given, each as often as given, and no others.
#[verifier::external_body]
pub(crate) fn bulk_load(items: &Vec<TreeItem>) -> (tree: EnvelopeTree)
    requires
        forall|i: int| 0 <= i < items.len() ==> (#[trigger] items[i]).envelope.well_formed(),
    ensures
        tree_items(tree) == items@.to_multiset(),
{
    let elements = items.iter().map(
        |item| rstar::primitives::GeomWithData::new(
            rstar::primitives::Rectangle::from_corners(
                [item.envelope.min_x, item.envelope.min_y],
                [item.envelope.max_x, item.envelope.max_y],
            ),
            item.id,
        ),
    ).collect();
    EnvelopeTree { inner: rstar::RTree::bulk_load(elements) }
}

/// Calls `rstar::RTree::locate_all_at_point` and collects what it yields.
///
/// `rstar` yields the elements whose rectangle contains the point, borders
/// included, each stored element once. The contract claims that the result
/// is, in `rstar`'s order, exactly the items of the tree whose envelope
/// covers the point.
#[verifier::external_body]
pub(crate) fn locate_all_at_point(tree: &EnvelopeTree, point: &Point<i32>) -> (hits: Vec<TreeItem>)
    ensures
        hits@ == located_at(*tree, point@),
        hits@.to_multiset() == tree_items(*tree).filter(
            |item: TreeItem| item.envelope.covers(point@),
        ),
{
    tree.inner.locate_all_at_point([point.x, point.y]).map(
        |found| TreeItem {
            envelope: BoundingBox {
                min_x: found.geom().lower()[0],
                min_y: found.geom().lower()[1],
                max_x: found.geom().upper()[0],
                max_y: found.geom().upper()[1],
            },
            id: found.data,
        },
    ).collect()
}

} // verus!

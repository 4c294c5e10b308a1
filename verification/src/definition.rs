//! The vocabulary of the contracts: what a definition is, when it covers a
//! point, and which answers a lookup may give.

use vstd::prelude::*;

use crate::entry::{degenerate, region_covers};
use crate::ty::{IndexCoordinate, Point, Polygon};

verus! {

/// The vertices of a polygon's exterior, in order, as grid positions.
pub type Ring = Seq<(int, int)>;

/// A definition as the contracts see it: the rings of its polygons, and
/// its value.
pub type Definition<T> = (Seq<Ring>, T);

/// The definitions of `defs`, in order, each with its polygons in order.
pub open spec fn definitions_view<T, V: IndexCoordinate>(
    defs: Seq<(Vec<Polygon<V>>, T)>,
) -> Seq<Definition<T>> {
    defs.map_values(|d: (Vec<Polygon<V>>, T)| (d.0@.map_values(|p: Polygon<V>| p@), d.1))
}

/// The point a lookup is asked about, if any, as a grid position.
pub open spec fn point_view<V: IndexCoordinate>(coords: Option<&Point<V>>) -> Option<(int, int)> {
    match coords {
        Some(point) => Some(point@),
        None => None,
    }
}

/// One of the definition's polygons is degenerate.
pub open spec fn is_degenerate<T>(definition: Definition<T>) -> bool {
    exists|j: int| 0 <= j < definition.0.len() && degenerate(#[trigger] definition.0[j])
}

/// One of the definition's regions takes in `point`.
pub open spec fn definition_covers<T>(definition: Definition<T>, point: (int, int)) -> bool {
    exists|j: int| 0 <= j < definition.0.len() && region_covers(#[trigger] definition.0[j], point)
}

/// `value` is an answer that a lookup of `point` may give on an index with
/// these definitions and this default: the default where no point is given
/// or no definition covers the point, and else the value of a definition
/// that covers it. Where definitions with different values cover the same
/// point, each of their values is admitted: which of them a lookup gives
/// is not a matter of priority.
pub open spec fn lookup_admits<T>(
    definitions: Seq<Definition<T>>,
    default: T,
    point: Option<(int, int)>,
    value: T,
) -> bool {
    match point {
        None => value == default,
        Some(p) => if exists|i: int|
            0 <= i < definitions.len() && definition_covers(#[trigger] definitions[i], p) {
            exists|i: int|
                0 <= i < definitions.len() && definition_covers(#[trigger] definitions[i], p)
                    && value == definitions[i].1
        } else {
            value == default
        },
    }
}

/// All definitions that cover `point` have the same value.
pub open spec fn unambiguous_at<T>(definitions: Seq<Definition<T>>, point: (int, int)) -> bool {
    forall|i: int, j: int|
        0 <= i < definitions.len() && 0 <= j < definitions.len() && definition_covers(
            #[trigger] definitions[i],
            point,
        ) && definition_covers(#[trigger] definitions[j], point) ==> definitions[i].1
            == definitions[j].1
}

/// `region` is a polygon of one of the definitions, with that definition's
/// value.
pub open spec fn stems_from<T>(definitions: Seq<Definition<T>>, region: (Ring, T)) -> bool {
    exists|i: int, j: int|
        0 <= i < definitions.len() && 0 <= j < definitions[i].0.len()
            && #[trigger] definitions[i].0[j] == region.0 && definitions[i].1 == region.1
}

/// The rings of one definition, in order, each with the definition's value.
pub open spec fn tagged<T>(rings: Seq<Ring>, value: T) -> Seq<(Ring, T)> {
    Seq::new(rings.len(), |j: int| (rings[j], value))
}

/// The regions of the definitions, in the order in which an index numbers
/// them: definition by definition, and within a definition polygon by
/// polygon.
pub open spec fn regions_of<T>(definitions: Seq<Definition<T>>) -> Seq<(Ring, T)>
    decreases definitions.len(),
{
    if definitions.len() == 0 {
        Seq::empty()
    } else {
        regions_of(definitions.drop_last()) + tagged(
            definitions.last().0,
            definitions.last().1,
        )
    }
}

/// The regions of the definitions are their polygons, each with the value
/// of its definition: no more and no fewer.
pub proof fn regions_are_the_polygons<T>(definitions: Seq<Definition<T>>)
    ensures
        forall|k: int|
            0 <= k < regions_of(definitions).len() ==> stems_from(
                definitions,
                #[trigger] regions_of(definitions)[k],
            ),
        forall|region: (Ring, T)| #[trigger]
            stems_from(definitions, region) ==> regions_of(definitions).contains(region),
    decreases definitions.len(),
{
    if definitions.len() > 0 {
        let before = definitions.drop_last();
        let last = definitions.last();
        let here = tagged(last.0, last.1);
        regions_are_the_polygons(before);
        assert forall|k: int| 0 <= k < regions_of(definitions).len() implies stems_from(
            definitions,
            #[trigger] regions_of(definitions)[k],
        ) by {
            let region = regions_of(definitions)[k];
            if k < regions_of(before).len() {
                assert(region == regions_of(before)[k]);
                assert(stems_from(before, region));
                let (i, j) = choose|i: int, j: int|
                    0 <= i < before.len() && 0 <= j < before[i].0.len() && #[trigger] before[i].0[j]
                        == region.0 && before[i].1 == region.1;
                assert(definitions[i] == before[i]);
                assert(definitions[i].0[j] == region.0);
            } else {
                let j = k - regions_of(before).len();
                assert(region == here[j]);
                assert(definitions[definitions.len() - 1].0[j] == region.0);
            }
        }
        assert forall|region: (Ring, T)| #[trigger]
            stems_from(definitions, region) implies regions_of(definitions).contains(region) by {
            let (i, j) = choose|i: int, j: int|
                0 <= i < definitions.len() && 0 <= j < definitions[i].0.len()
                    && #[trigger] definitions[i].0[j] == region.0 && definitions[i].1 == region.1;
            if i < before.len() {
                assert(before[i] == definitions[i]);
                assert(before[i].0[j] == region.0);
                assert(stems_from(before, region));
                let k = choose|k: int|
                    0 <= k < regions_of(before).len() && regions_of(before)[k] == region;
                assert(regions_of(definitions)[k] == region);
            } else {
                assert(here[j] == region);
                assert(regions_of(definitions)[regions_of(before).len() + j] == region);
            }
        }
    }
}

/// Every answer that a lookup may give is either the default or the value
/// of one of the definitions: a lookup never comes back empty-handed.
pub proof fn admitted_value_is_known<T>(
    definitions: Seq<Definition<T>>,
    default: T,
    point: Option<(int, int)>,
    value: T,
)
    requires
        lookup_admits(definitions, default, point, value),
    ensures
        value == default || exists|i: int|
            0 <= i < definitions.len() && value == (#[trigger] definitions[i]).1,
{
}

/// A point that no definition covers, and the absence of a point, admit
/// the default and nothing else.
pub proof fn uncovered_point_yields_default<T>(
    definitions: Seq<Definition<T>>,
    default: T,
    point: Option<(int, int)>,
    value: T,
)
    requires
        lookup_admits(definitions, default, point, value),
        point matches Some(p) ==> forall|i: int|
            0 <= i < definitions.len() ==> !definition_covers(#[trigger] definitions[i], p),
    ensures
        value == default,
{
}

/// The two lists of definitions hold the same regions: every polygon of
/// the one, with its value, is a polygon of the other with the same value.
pub open spec fn same_regions<T>(first: Seq<Definition<T>>, second: Seq<Definition<T>>) -> bool {
    forall|region: (Ring, T)|
        #![trigger stems_from(first, region)]
        #![trigger stems_from(second, region)]
        stems_from(first, region) <==> stems_from(second, region)
}

/// A lookup depends on the regions and their values alone, not on how
/// they are grouped or ordered.
///
/// Let two lists of definitions hold the same regions, and let the point
/// be one on which the definitions that cover it agree. Then an answer
/// that a lookup may give on an index built from the one list, and an
/// answer that it may give on an index built from the other with the same
/// default, are the same value.
pub proof fn lookup_depends_on_regions_alone<T>(
    first: Seq<Definition<T>>,
    second: Seq<Definition<T>>,
    default: T,
    point: Option<(int, int)>,
    first_value: T,
    second_value: T,
)
    requires
        same_regions(first, second),
        point matches Some(p) ==> unambiguous_at(first, p),
        lookup_admits(first, default, point, first_value),
        lookup_admits(second, default, point, second_value),
    ensures
        first_value == second_value,
{
    if let Some(p) = point {
        if exists|i: int| 0 <= i < first.len() && definition_covers(#[trigger] first[i], p) {
            let i = choose|i: int|
                0 <= i < first.len() && definition_covers(#[trigger] first[i], p) && first_value
                    == first[i].1;
            covering_definition_carries_over(first, second, i, p);
            let n = choose|n: int|
                0 <= n < second.len() && definition_covers(#[trigger] second[n], p)
                    && second_value == second[n].1;
            covering_definition_carries_over(second, first, n, p);
        } else {
            if exists|n: int| 0 <= n < second.len() && definition_covers(#[trigger] second[n], p) {
                let n = choose|n: int|
                    0 <= n < second.len() && definition_covers(#[trigger] second[n], p);
                covering_definition_carries_over(second, first, n, p);
            }
        }
    }
}

/// Where two lists hold the same regions and a definition of the one
/// covers a point, a definition of the other with the same value covers
/// it too.
proof fn covering_definition_carries_over<T>(
    from: Seq<Definition<T>>,
    to: Seq<Definition<T>>,
    i: int,
    point: (int, int),
)
    requires
        same_regions(from, to) || same_regions(to, from),
        0 <= i < from.len(),
        definition_covers(from[i], point),
    ensures
        exists|n: int|
            0 <= n < to.len() && definition_covers(#[trigger] to[n], point) && to[n].1 == from[i].1,
{
    let j = choose|j: int|
        0 <= j < from[i].0.len() && region_covers(#[trigger] from[i].0[j], point);
    let region = (from[i].0[j], from[i].1);
    assert(stems_from(from, region));
    assert(stems_from(to, region));
    let (n, m) = choose|n: int, m: int|
        0 <= n < to.len() && 0 <= m < to[n].0.len() && #[trigger] to[n].0[m] == region.0
            && to[n].1 == region.1;
    assert(region_covers(to[n].0[m], point));
    assert(definition_covers(to[n], point));
}

/// Lists that hold the same definitions, each as often in one as in the
/// other, hold the same regions.
pub proof fn reordered_definitions_hold_same_regions<T>(
    first: Seq<Definition<T>>,
    second: Seq<Definition<T>>,
)
    requires
        first.to_multiset() == second.to_multiset(),
    ensures
        same_regions(first, second),
{
    first.to_multiset_ensures();
    second.to_multiset_ensures();
    assert forall|region: (Ring, T)| stems_from(first, region) implies stems_from(
        second,
        region,
    ) by {
        let (i, j) = choose|i: int, j: int|
            0 <= i < first.len() && 0 <= j < first[i].0.len() && #[trigger] first[i].0[j]
                == region.0 && first[i].1 == region.1;
        assert(first.contains(first[i]));
        assert(second.to_multiset().count(first[i]) > 0);
        assert(second.contains(first[i]));
        let n = choose|n: int| 0 <= n < second.len() && second[n] == first[i];
        assert(second[n].0[j] == region.0);
    }
    assert forall|region: (Ring, T)| stems_from(second, region) implies stems_from(
        first,
        region,
    ) by {
        let (i, j) = choose|i: int, j: int|
            0 <= i < second.len() && 0 <= j < second[i].0.len() && #[trigger] second[i].0[j]
                == region.0 && second[i].1 == region.1;
        assert(second.contains(second[i]));
        assert(first.to_multiset().count(second[i]) > 0);
        assert(first.contains(second[i]));
        let n = choose|n: int| 0 <= n < first.len() && first[n] == second[i];
        assert(first[n].0[j] == region.0);
    }
}

/// Lists whose definitions differ only in the order of their polygons hold
/// the same regions.
pub proof fn reordered_polygons_hold_same_regions<T>(
    first: Seq<Definition<T>>,
    second: Seq<Definition<T>>,
)
    requires
        first.len() == second.len(),
        forall|i: int|
            0 <= i < first.len() ==> (#[trigger] first[i]).1 == second[i].1
                && first[i].0.to_multiset() == second[i].0.to_multiset(),
    ensures
        same_regions(first, second),
{
    assert forall|region: (Ring, T)| stems_from(first, region) implies stems_from(
        second,
        region,
    ) by {
        let (i, j) = choose|i: int, j: int|
            0 <= i < first.len() && 0 <= j < first[i].0.len() && #[trigger] first[i].0[j]
                == region.0 && first[i].1 == region.1;
        ring_carries_over(first[i].0, second[i].0, j);
        let m = choose|m: int| 0 <= m < second[i].0.len() && second[i].0[m] == first[i].0[j];
        assert(second[i].0[m] == region.0);
    }
    assert forall|region: (Ring, T)| stems_from(second, region) implies stems_from(
        first,
        region,
    ) by {
        let (i, j) = choose|i: int, j: int|
            0 <= i < second.len() && 0 <= j < second[i].0.len() && #[trigger] second[i].0[j]
                == region.0 && second[i].1 == region.1;
        assert(first[i].1 == second[i].1);
        ring_carries_over(second[i].0, first[i].0, j);
        let m = choose|m: int| 0 <= m < first[i].0.len() && first[i].0[m] == second[i].0[j];
        assert(first[i].0[m] == region.0);
    }
}

/// A ring of one list is a ring of any list that holds the same rings.
proof fn ring_carries_over(from: Seq<Ring>, to: Seq<Ring>, j: int)
    requires
        from.to_multiset() == to.to_multiset(),
        0 <= j < from.len(),
    ensures
        to.contains(from[j]),
{
    from.to_multiset_ensures();
    to.to_multiset_ensures();
    assert(from.contains(from[j]));
    assert(to.to_multiset().count(from[j]) > 0);
}

/// The order of the definitions does not matter to a lookup.
///
/// Let two lists hold the same definitions, each as often in one as in the
/// other, and let the point be one on which the definitions that cover it
/// agree. Then an answer that a lookup may give on an index built from the
/// one list, and an answer that it may give on an index built from the
/// other with the same default, are the same value.
///
/// Where definitions with different values cover the point, nothing of the
/// kind holds: which of them answers is left to the shape of the tree.
pub proof fn lookup_ignores_definition_order<T>(
    first: Seq<Definition<T>>,
    second: Seq<Definition<T>>,
    default: T,
    point: Option<(int, int)>,
    first_value: T,
    second_value: T,
)
    requires
        first.to_multiset() == second.to_multiset(),
        point matches Some(p) ==> unambiguous_at(first, p),
        lookup_admits(first, default, point, first_value),
        lookup_admits(second, default, point, second_value),
    ensures
        first_value == second_value,
{
    reordered_definitions_hold_same_regions(first, second);
    lookup_depends_on_regions_alone(first, second, default, point, first_value, second_value);
}

/// The order of the polygons within a definition does not matter to a
/// lookup, under the same condition on the point.
pub proof fn lookup_ignores_polygon_order<T>(
    first: Seq<Definition<T>>,
    second: Seq<Definition<T>>,
    default: T,
    point: Option<(int, int)>,
    first_value: T,
    second_value: T,
)
    requires
        first.len() == second.len(),
        forall|i: int|
            0 <= i < first.len() ==> (#[trigger] first[i]).1 == second[i].1
                && first[i].0.to_multiset() == second[i].0.to_multiset(),
        point matches Some(p) ==> unambiguous_at(first, p),
        lookup_admits(first, default, point, first_value),
        lookup_admits(second, default, point, second_value),
    ensures
        first_value == second_value,
{
    reordered_polygons_hold_same_regions(first, second);
    lookup_depends_on_regions_alone(first, second, default, point, first_value, second_value);
}

} // verus!

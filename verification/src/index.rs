//! The index itself: construction and lookup.

use core::marker::PhantomData;
use vstd::multiset::axiom_filter_count;
use vstd::prelude::*;

use crate::definition::{
    definition_covers, definitions_view, is_degenerate, lookup_admits, point_view,
    regions_are_the_polygons, regions_of, stems_from, tagged, Definition, Ring,
};
use crate::entry::{degenerate, region_covers, GeometryError, IndexEntry};
use crate::envelope::within_extent;
use crate::geometry::polygon_covers;
use crate::tree::{bulk_load, located_at, locate_all_at_point, tree_items, EnvelopeTree, TreeItem};
use crate::ty::{IndexCoordinate, IndexDefinition, Point};

verus! {

/// What the tree is loaded with: for each entry its envelope, under the
/// entry's position.
pub open spec fn items_of(entries: Seq<IndexEntry>) -> Seq<TreeItem> {
    Seq::new(
        entries.len(),
        |e: int| (TreeItem { envelope: entries[e].spec_envelope(), id: e as usize }),
    )
}

/// The regions that the entries stand for: for each entry its ring, with
/// the value that the entry points to.
pub open spec fn regions_from<T>(entries: Seq<IndexEntry>, values: Seq<T>) -> Seq<(Ring, T)> {
    Seq::new(
        entries.len(),
        |e: int| (entries[e].ring(), values[entries[e].spec_value_index() as int]),
    )
}

/// The definitions with these rings and these values.
pub open spec fn definitions_from<T>(rings: Seq<Seq<Ring>>, values: Seq<T>) -> Seq<Definition<T>> {
    Seq::new(values.len(), |i: int| (rings[i], values[i]))
}

/// The parts of an index fit together: the tree holds the envelope of every
/// entry under the entry's position; every entry is well-formed and points
/// to a value; and the entries stand for the polygons of the definitions,
/// definition by definition and polygon by polygon.
pub open spec fn fit_together<T>(
    index: EnvelopeTree,
    entries: Seq<IndexEntry>,
    values: Seq<T>,
    rings: Seq<Seq<Ring>>,
) -> bool {
    &&& rings.len() == values.len()
    &&& entries.len() <= usize::MAX
    &&& tree_items(index) == items_of(entries).to_multiset()
    &&& forall|e: int|
        0 <= e < entries.len() ==> (#[trigger] entries[e]).well_formed()
            && entries[e].spec_value_index() < values.len()
    &&& regions_from(entries, values) == regions_of(definitions_from(rings, values))
}

/// A geometry index over values of type `T`, with coordinates given in `V`.
///
/// It owns its tree, its entries, its values and its default, and nothing
/// changes any of them once it is built.
pub struct GeoIndex<T, V: IndexCoordinate = i32> {
    index: EnvelopeTree,
    entries: Vec<IndexEntry>,
    values: Vec<T>,
    default: T,
    rings: Ghost<Seq<Seq<Ring>>>,
    scalar: PhantomData<V>,
}

impl<T, V: IndexCoordinate> GeoIndex<T, V> {
    /// The parts of the index fit together.
    #[verifier::type_invariant]
    pub closed spec fn well_formed(self) -> bool {
        fit_together(self.index, self.entries@, self.values@, self.rings@)
    }

    /// The definitions the index was built from.
    pub closed spec fn definitions(&self) -> Seq<Definition<T>> {
        definitions_from(self.rings@, self.values@)
    }

    /// The value a lookup falls back to.
    pub closed spec fn default_value(&self) -> T {
        self.default
    }

    /// The regions of the index, each with the value it maps to, in the
    /// order in which the index numbers them.
    pub closed spec fn regions(&self) -> Seq<(Ring, T)> {
        regions_from(self.entries@, self.values@)
    }

    /// The numbers of the regions that the tree yields for `point`, in the
    /// tree's order.
    pub closed spec fn candidate_ids(&self, point: (int, int)) -> Seq<usize> {
        located_at(self.index, point).map_values(|item: TreeItem| item.id)
    }

    /// Builds the index for `defs`, with `default` to fall back to.
    ///
    /// Every polygon of every definition becomes a region that maps to the
    /// definition's value; the regions are numbered definition by
    /// definition, and within a definition polygon by polygon. A definition
    /// without polygons is in order: it has no region, and no point reaches
    /// its value. A degenerate polygon, such as one without vertices, is
    /// not: the first definition that holds one is reported, and no index
    /// is built.
    pub fn new(defs: IndexDefinition<T, V>, default: T) -> (built: Result<Self, GeometryError>)
        ensures
            built is Err <==> exists|i: int|
                0 <= i < defs.len() && is_degenerate(#[trigger] definitions_view(defs@)[i]),
            built matches Err(GeometryError::DegenerateGeometry { definition }) ==> {
                &&& definition < defs.len()
                &&& is_degenerate(definitions_view(defs@)[definition as int])
                &&& forall|n: int|
                    0 <= n < definition ==> !is_degenerate(#[trigger] definitions_view(defs@)[n])
            },
            built matches Ok(index) ==> {
                &&& index.well_formed()
                &&& index.definitions() == definitions_view(defs@)
                &&& index.regions() == regions_of(definitions_view(defs@))
                &&& index.default_value() == default
            },
    {
        let ghost taken = defs@;
        let ghost given = definitions_view(taken);
        let ghost owed = Seq::new(given.len(), |n: int| given[n].1);
        let mut entries: Vec<IndexEntry> = Vec::new();
        let mut items: Vec<TreeItem> = Vec::new();
        let mut values: Vec<T> = Vec::new();
        assert(given.take(0) =~= Seq::empty());
        assert(regions_from(entries@, owed) =~= regions_of(given.take(0)));
        for definition in it: defs
            invariant
                it.seq() == taken,
                taken == defs@,
                given == definitions_view(taken),
                owed.len() == given.len(),
                forall|n: int| 0 <= n < owed.len() ==> #[trigger] owed[n] == given[n].1,
                values.len() == it.index(),
                forall|n: int| 0 <= n < values.len() ==> (#[trigger] values[n]) == taken[n].1,
                items@ == items_of(entries@),
                forall|e: int|
                    0 <= e < entries.len() ==> (#[trigger] entries[e]).well_formed()
                        && entries[e].spec_value_index() < values.len(),
                regions_from(entries@, owed) == regions_of(given.take(values.len() as int)),
                forall|n: int| 0 <= n < values.len() ==> !is_degenerate(#[trigger] given[n]),
        {
            let (polygons, value) = definition;
            let i = values.len();
            let ghost before = regions_of(given.take(i as int));
            let mut j: usize = 0;
            assert(before + tagged(given[i as int].0.take(0), given[i as int].1) =~= before);
            while j < polygons.len()
                invariant
                    i == values.len(),
                    i < given.len(),
                    j <= polygons.len(),
                    polygons == taken[i as int].0,
                    taken == defs@,
                    given == definitions_view(taken),
                    owed.len() == given.len(),
                    forall|n: int| 0 <= n < owed.len() ==> #[trigger] owed[n] == given[n].1,
                    items@ == items_of(entries@),
                    forall|e: int|
                        0 <= e < entries.len() ==> (#[trigger] entries[e]).well_formed()
                            && entries[e].spec_value_index() <= i,
                    regions_from(entries@, owed) == before + tagged(
                        given[i as int].0.take(j as int),
                        given[i as int].1,
                    ),
                    forall|m: int| 0 <= m < j ==> !degenerate(#[trigger] given[i as int].0[m]),
                    forall|n: int| 0 <= n < i ==> !is_degenerate(#[trigger] given[n]),
                decreases polygons.len() - j,
            {
                assert(given[i as int].0[j as int] == polygons[j as int]@);
                match IndexEntry::new(&polygons[j], i) {
                    Err(error) => {
                        assert(is_degenerate(given[i as int]));
                        return Err(error);
                    },
                    Ok(entry) => {
                        let ghost earlier = regions_from(entries@, owed);
                        items.push(TreeItem { envelope: entry.envelope(), id: entries.len() });
                        entries.push(entry);
                        proof {
                            let ring = given[i as int].0[j as int];
                            let value = given[i as int].1;
                            assert(items@ =~= items_of(entries@));
                            assert(regions_from(entries@, owed) =~= earlier.push((ring, value)));
                            assert(tagged(given[i as int].0.take(j + 1), value) =~= tagged(
                                given[i as int].0.take(j as int),
                                value,
                            ).push((ring, value)));
                            assert(before + tagged(given[i as int].0.take(j + 1), value)
                                =~= earlier.push((ring, value)));
                        }
                    },
                }
                j += 1;
            }
            proof {
                let next = given.take(i + 1);
                assert(given[i as int].0.take(j as int) =~= given[i as int].0);
                assert(next.drop_last() =~= given.take(i as int));
                assert(next.last() == given[i as int]);
            }
            values.push(value);
        }
        proof {
            assert forall|e: int| 0 <= e < items.len() implies #[trigger]
                items[e].envelope.well_formed() by {
                entries[e].envelope_is_extent();
                entries[e].spec_envelope().extent_is_well_formed(entries[e].ring());
            }
        }
        let index = bulk_load(&items);
        let ghost rings = Seq::new(given.len(), |n: int| given[n].0);
        proof {
            assert(given.take(values.len() as int) =~= given);
            assert(values@ =~= owed);
            assert(definitions_from(rings, values@) =~= given);
            assert(entries@.len() == entries.len());
            assert(fit_together(index, entries@, values@, rings));
        }
        Ok(GeoIndex { index, entries, values, default, rings: Ghost(rings), scalar: PhantomData })
    }

    /// The region with the number `id` holds `point` in its polygon. A
    /// number that is no region's holds nothing.
    pub open spec fn region_holds(&self, id: usize, point: (int, int)) -> bool {
        id < self.regions().len() && polygon_covers(self.regions()[id as int].0, point)
    }

    /// The value that the candidates settle on, taken in their order: that
    /// of the first whose polygon contains the point, or the default where
    /// none does.
    pub open spec fn settled(&self, candidates: Seq<usize>, point: (int, int)) -> T
        decreases candidates.len(),
    {
        if candidates.len() == 0 {
            self.default_value()
        } else if self.region_holds(candidates[0], point) {
            self.regions()[candidates[0] as int].1
        } else {
            self.settled(candidates.drop_first(), point)
        }
    }

    /// The answer of a lookup.
    pub open spec fn lookup_value(&self, point: Option<(int, int)>) -> T {
        match point {
            None => self.default_value(),
            Some(p) => self.settled(self.candidate_ids(p), p),
        }
    }

    /// The regions of a well-formed index are the polygons of its
    /// definitions, numbered definition by definition and polygon by
    /// polygon: each stems from a definition and maps to its value, and none
    /// is missing.
    pub proof fn regions_are_the_definitions(&self)
        requires
            self.well_formed(),
        ensures
            self.regions() == regions_of(self.definitions()),
            forall|id: int|
                0 <= id < self.regions().len() ==> stems_from(
                    self.definitions(),
                    #[trigger] self.regions()[id],
                ),
            forall|region: (Ring, T)| #[trigger]
                stems_from(self.definitions(), region) ==> self.regions().contains(region),
    {
        regions_are_the_polygons(self.definitions());
    }

    /// What the candidates settle on is the value of one of them whose
    /// polygon contains the point, if there is any, and else the default.
    pub proof fn settled_is_a_match(&self, candidates: Seq<usize>, point: (int, int))
        ensures
            if exists|k: int|
                0 <= k < candidates.len() && self.region_holds(#[trigger] candidates[k], point) {
                exists|k: int|
                    0 <= k < candidates.len() && self.region_holds(#[trigger] candidates[k], point)
                        && self.settled(candidates, point) == self.regions()[candidates[k] as int].1
            } else {
                self.settled(candidates, point) == self.default_value()
            },
        decreases candidates.len(),
    {
        if candidates.len() > 0 {
            let rest = candidates.drop_first();
            self.settled_is_a_match(rest, point);
            if !self.region_holds(candidates[0], point) {
                assert forall|k: int|
                    0 <= k < rest.len() && self.region_holds(
                        #[trigger] rest[k],
                        point,
                    ) implies self.region_holds(candidates[k + 1], point) by {
                    assert(rest[k] == candidates[k + 1]);
                }
                if exists|k: int|
                    0 <= k < candidates.len() && self.region_holds(#[trigger] candidates[k], point) {
                    let k = choose|k: int|
                        0 <= k < candidates.len() && self.region_holds(
                            #[trigger] candidates[k],
                            point,
                        );
                    assert(rest[k - 1] == candidates[k]);
                    let r = choose|r: int|
                        0 <= r < rest.len() && self.region_holds(#[trigger] rest[r], point)
                            && self.settled(rest, point) == self.regions()[rest[r] as int].1;
                    assert(candidates[r + 1] == rest[r]);
                }
            }
        }
    }

    /// How many regions the index holds: one for each polygon of each
    /// definition.
    pub fn region_count(&self) -> (count: usize)
        ensures
            count == self.regions().len(),
    {
        self.entries.len()
    }

    /// The regions whose envelope contains `point`, by their numbers, each
    /// once, in the order in which the tree yields them. The order follows
    /// the tree's shape: neither the order of the definitions nor any
    /// priority.
    pub fn candidates(&self, point: &Point<V>) -> (ids: Vec<usize>)
        ensures
            ids@ == self.candidate_ids(point@),
            ids@.no_duplicates(),
            forall|id: usize|
                ids@.contains(id) <==> id < self.regions().len() && within_extent(
                    self.regions()[id as int].0,
                    point@,
                ),
    {
        let grid = point.to_grid();
        let hits = locate_all_at_point(&self.index, &grid);
        let mut ids: Vec<usize> = Vec::new();
        let mut k: usize = 0;
        while k < hits.len()
            invariant
                k <= hits.len(),
                ids.len() == k,
                forall|n: int| 0 <= n < k ==> ids[n] == (#[trigger] hits[n]).id,
            decreases hits.len() - k,
        {
            ids.push(hits[k].id);
            k += 1;
        }
        proof {
            use_type_invariant(self);
            let within = |item: TreeItem| item.envelope.covers(point@);
            assert forall|item: TreeItem| #[trigger]
                hits@.to_multiset().count(item) == if item.envelope.covers(point@) {
                    tree_items(self.index).count(item)
                } else {
                    0
                } by {
                axiom_filter_count(tree_items(self.index), within, item);
            }
            assert(ids@ =~= self.candidate_ids(point@));
            self.hits_are_the_regions_in_extent(hits@, ids@, point@);
        }
        ids
    }

    /// Items that are, each as often as the tree holds it, the items of the
    /// tree whose envelope covers the point, are the regions within whose
    /// extent the point lies, each once.
    proof fn hits_are_the_regions_in_extent(
        &self,
        hits: Seq<TreeItem>,
        ids: Seq<usize>,
        point: (int, int),
    )
        requires
            self.well_formed(),
            forall|item: TreeItem| #[trigger]
                hits.to_multiset().count(item) == if item.envelope.covers(point) {
                    tree_items(self.index).count(item)
                } else {
                    0
                },
            ids.len() == hits.len(),
            forall|n: int| 0 <= n < hits.len() ==> ids[n] == (#[trigger] hits[n]).id,
        ensures
            ids.no_duplicates(),
            forall|id: usize|
                ids.contains(id) <==> id < self.regions().len() && within_extent(
                    self.regions()[id as int].0,
                    point,
                ),
    {
        let items = items_of(self.entries@);
        assert(tree_items(self.index) == items.to_multiset());
        hits.to_multiset_ensures();
        items.to_multiset_ensures();
        assert(items.no_duplicates());
        items.lemma_multiset_has_no_duplicates();
        assert forall|id: usize| ids.contains(id) implies id < self.regions().len()
            && within_extent(self.regions()[id as int].0, point) by {
            let n = choose|n: int| 0 <= n < ids.len() && ids[n] == id;
            assert(hits.contains(hits[n]));
            assert(hits.to_multiset().count(hits[n]) > 0);
            assert(items.contains(hits[n]));
            let e = choose|e: int| 0 <= e < items.len() && items[e] == hits[n];
            self.entries@[e].envelope_is_extent();
            self.entries@[e].spec_envelope().extent_covers(self.entries@[e].ring(), point);
        }
        assert forall|id: usize|
            id < self.regions().len() && within_extent(
                self.regions()[id as int].0,
                point,
            ) implies ids.contains(id) by {
            let e = id as int;
            self.entries@[e].envelope_is_extent();
            self.entries@[e].spec_envelope().extent_covers(self.entries@[e].ring(), point);
            assert(items.contains(items[e]));
            assert(hits.to_multiset().count(items[e]) > 0);
            assert(hits.contains(items[e]));
            let n = choose|n: int| 0 <= n < hits.len() && hits[n] == items[e];
            assert(ids[n] == id);
        }
        assert forall|item: TreeItem| hits.to_multiset().contains(item) implies hits.to_multiset().count(
            item,
        ) == 1 by {
            assert(items.to_multiset().contains(item));
        }
        hits.lemma_multiset_has_no_duplicates_conv();
        assert forall|a: int, b: int| 0 <= a < ids.len() && 0 <= b < ids.len() && a != b implies ids[a]
            != ids[b] by {
            assert(hits.contains(hits[a]));
            assert(hits.contains(hits[b]));
            assert(hits.to_multiset().count(hits[a]) > 0);
            assert(hits.to_multiset().count(hits[b]) > 0);
            assert(items.contains(hits[a]));
            assert(items.contains(hits[b]));
            let ea = choose|e: int| 0 <= e < items.len() && items[e] == hits[a];
            let eb = choose|e: int| 0 <= e < items.len() && items[e] == hits[b];
            if ids[a] == ids[b] {
                assert(ea == eb);
            }
        }
    }

    /// The value of the first of `candidates`, in their order, whose polygon
    /// contains `point`, or the default where none does. A candidate is the
    /// number of a region; a number that is no region's is passed over.
    pub fn first_match(&self, candidates: &Vec<usize>, point: &Point<V>) -> (value: &T)
        ensures
            *value == self.settled(candidates@, point@),
    {
        proof {
            use_type_invariant(self);
        }
        assert(candidates@.skip(0) =~= candidates@);
        let mut k: usize = 0;
        while k < candidates.len()
            invariant
                k <= candidates.len(),
                self.well_formed(),
                self.settled(candidates@, point@) == self.settled(
                    candidates@.skip(k as int),
                    point@,
                ),
            decreases candidates.len() - k,
        {
            let id = candidates[k];
            assert(candidates@.skip(k as int)[0] == id);
            if id < self.entries.len() {
                let entry = &self.entries[id];
                if entry.contains(point) {
                    return &self.values[entry.value_index()];
                }
            }
            assert(candidates@.skip(k as int).drop_first() =~= candidates@.skip(k as int + 1));
            k += 1;
        }
        &self.default
    }

    /// The value that owns `coords`: the value of the first region, in the
    /// tree's order, whose envelope and whose polygon contain the point; the
    /// default where there is none, or where no point is given.
    ///
    /// A lookup always answers, and it answers the same on the same index
    /// and point every time. It changes nothing.
    pub fn lookup_coords(&self, coords: Option<&Point<V>>) -> (value: &T)
        ensures
            *value == self.lookup_value(point_view(coords)),
            lookup_admits(self.definitions(), self.default_value(), point_view(coords), *value),
            coords is None ==> *value == self.default_value(),
            *value == self.default_value() || exists|i: int|
                0 <= i < self.definitions().len() && *value == (#[trigger] self.definitions()[i]).1,
    {
        match coords {
            None => &self.default,
            Some(point) => {
                let candidates = self.candidates(point);
                let value = self.first_match(&candidates, point);
                proof {
                    use_type_invariant(self);
                    self.settled_admitted(candidates@, point@);
                }
                value
            },
        }
    }

    /// A lookup is a function of the index and the point alone: asked
    /// again on the same index about the same point, it answers the same.
    pub proof fn lookup_is_repeatable(&self, point: Option<(int, int)>, first: T, second: T)
        requires
            first == self.lookup_value(point),
            second == self.lookup_value(point),
        ensures
            first == second,
    {
    }

    /// On a well-formed index, what the regions within whose extent the
    /// point lies settle on is an answer that a lookup may give.
    proof fn settled_admitted(&self, candidates: Seq<usize>, point: (int, int))
        requires
            self.well_formed(),
            forall|id: usize|
                candidates.contains(id) <==> id < self.regions().len() && within_extent(
                    self.regions()[id as int].0,
                    point,
                ),
        ensures
            lookup_admits(
                self.definitions(),
                self.default_value(),
                Some(point),
                self.settled(candidates, point),
            ),
    {
        let definitions = self.definitions();
        let regions = self.regions();
        let value = self.settled(candidates, point);
        self.settled_is_a_match(candidates, point);
        self.regions_are_the_definitions();
        if exists|k: int|
            0 <= k < candidates.len() && self.region_holds(#[trigger] candidates[k], point) {
            let k = choose|k: int|
                0 <= k < candidates.len() && self.region_holds(#[trigger] candidates[k], point)
                    && value == regions[candidates[k] as int].1;
            let region = regions[candidates[k] as int];
            assert(candidates.contains(candidates[k]));
            assert(stems_from(definitions, region));
            let (i, j) = choose|i: int, j: int|
                0 <= i < definitions.len() && 0 <= j < definitions[i].0.len()
                    && #[trigger] definitions[i].0[j] == region.0 && definitions[i].1 == region.1;
            assert(region_covers(definitions[i].0[j], point));
            assert(definition_covers(definitions[i], point));
        } else {
            assert forall|i: int| 0 <= i < definitions.len() implies !definition_covers(
                #[trigger] definitions[i],
                point,
            ) by {
                if definition_covers(definitions[i], point) {
                    let j = choose|j: int|
                        0 <= j < definitions[i].0.len() && region_covers(
                            #[trigger] definitions[i].0[j],
                            point,
                        );
                    let region = (definitions[i].0[j], definitions[i].1);
                    assert(stems_from(definitions, region));
                    assert(regions.contains(region));
                    let e = choose|e: int| 0 <= e < regions.len() && regions[e] == region;
                    let id = e as usize;
                    assert(candidates.contains(id));
                    let k = choose|k: int| 0 <= k < candidates.len() && candidates[k] == id;
                    assert(self.region_holds(candidates[k], point));
                }
            }
        }
    }
}

} // verus!

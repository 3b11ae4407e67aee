//! In-memory tables filled by the collection passes of small inputs: point
//! coordinates by id, and the resolved coordinates of each way by id.

use vstd::prelude::*;
use std::collections::HashMap;
use crate::geometry::Coord;
use crate::osm::OsmWay;

verus! {

broadcast use vstd::std_specs::hash::group_hash_axioms;

/// The table after storing `entries` in order; a later entry for the same id
/// replaces an earlier one.
pub open spec fn spec_store(m: Map<i64, Coord>, entries: Seq<(i64, i32, i32)>) -> Map<i64, Coord>
    decreases entries.len(),
{
    if entries.len() == 0 {
        m
    } else {
        let e = entries.last();
        spec_store(m, entries.drop_last()).insert(e.0, Coord { lat: e.1, lon: e.2 })
    }
}

/// The coordinate stored for `id`, if any.
pub open spec fn spec_lookup(m: Map<i64, Coord>, id: i64) -> Option<Coord> {
    if m.contains_key(id) {
        Some(m[id])
    } else {
        None
    }
}

/// One lookup per id, in the order of the ids.
pub open spec fn spec_fetch(m: Map<i64, Coord>, ids: Seq<i64>) -> Seq<Option<Coord>> {
    ids.map_values(|id: i64| spec_lookup(m, id))
}

/// The coordinates present among lookups, in order; misses are dropped.
pub open spec fn present(lookups: Seq<Option<Coord>>) -> Seq<Coord>
    decreases lookups.len(),
{
    if lookups.len() == 0 {
        Seq::empty()
    } else {
        let rest = present(lookups.drop_last());
        match lookups.last() {
            Some(c) => rest.push(c),
            None => rest,
        }
    }
}

/// The coordinates present among `lookups`, in order.
pub fn present_coords(lookups: &Vec<Option<Coord>>) -> (r: Vec<Coord>)
    ensures
        r@ == present(lookups@),
{
    let mut r: Vec<Coord> = Vec::new();
    let mut i: usize = 0;
    while i < lookups.len()
        invariant
            i <= lookups.len(),
            r@ == present(lookups@.subrange(0, i as int)),
        decreases lookups.len() - i,
    {
        assert(lookups@.subrange(0, i + 1).drop_last() =~= lookups@.subrange(0, i as int));
        match lookups[i] {
            Some(c) => r.push(c),
            None => {},
        }
        i = i + 1;
    }
    assert(lookups@.subrange(0, lookups.len() as int) =~= lookups@);
    r
}

/// Point coordinates by point id.
pub struct CoordinateTable {
    map: HashMap<i64, Coord>,
}

impl View for CoordinateTable {
    type V = Map<i64, Coord>;

    closed spec fn view(&self) -> Map<i64, Coord> {
        self.map@
    }
}

impl CoordinateTable {
    /// An empty table.
    pub fn new() -> (r: CoordinateTable)
        ensures
            r@ == Map::<i64, Coord>::empty(),
    {
        CoordinateTable { map: HashMap::new() }
    }

    /// Stores one coordinate under `id`, replacing any earlier one.
    pub fn store_node(&mut self, id: i64, lat: i32, lon: i32)
        ensures
            final(self)@ == old(self)@.insert(id, Coord { lat, lon }),
    {
        self.map.insert(id, Coord { lat, lon });
    }

    /// Stores each `(id, lat, lon)` in order.
    pub fn store_nodes(&mut self, nodes: &[(i64, i32, i32)])
        ensures
            final(self)@ == spec_store(old(self)@, nodes@),
    {
        let mut i: usize = 0;
        while i < nodes.len()
            invariant
                i <= nodes@.len(),
                self@ == spec_store(old(self)@, nodes@.subrange(0, i as int)),
            decreases nodes@.len() - i,
        {
            let (id, lat, lon) = nodes[i];
            assert(nodes@.subrange(0, i + 1).drop_last() =~= nodes@.subrange(0, i as int));
            self.store_node(id, lat, lon);
            i = i + 1;
        }
        assert(nodes@.subrange(0, nodes@.len() as int) =~= nodes@);
    }

    /// The coordinate stored under `id`, if any.
    pub fn get_node(&self, id: i64) -> (r: Option<Coord>)
        ensures
            r == spec_lookup(self@, id),
    {
        match self.map.get(&id) {
            Some(c) => Some(*c),
            None => None,
        }
    }

    /// One lookup per id, in the order of `ids`.
    pub fn get_nodes(&self, ids: &[i64]) -> (r: Vec<Option<Coord>>)
        ensures
            r@ == spec_fetch(self@, ids@),
    {
        let mut r: Vec<Option<Coord>> = Vec::new();
        let mut i: usize = 0;
        while i < ids.len()
            invariant
                i <= ids@.len(),
                r@ == spec_fetch(self@, ids@.subrange(0, i as int)),
            decreases ids@.len() - i,
        {
            r.push(self.get_node(ids[i]));
            i = i + 1;
            assert(r@ =~= spec_fetch(self@, ids@.subrange(0, i as int)));
        }
        assert(ids@.subrange(0, ids@.len() as int) =~= ids@);
        r
    }
}

/// Storing entries with distinct ids and then fetching those ids gives back
/// exactly the stored positions, in order; an id stored neither before nor
/// among the entries is not found.
pub proof fn lemma_store_then_fetch(m: Map<i64, Coord>, entries: Seq<(i64, i32, i32)>, absent: i64)
    requires
        forall|a: int, b: int| 0 <= a < b < entries.len() ==> entries[a].0 != entries[b].0,
        !m.contains_key(absent),
        forall|a: int| 0 <= a < entries.len() ==> entries[a].0 != absent,
    ensures
        spec_fetch(spec_store(m, entries), entries.map_values(|e: (i64, i32, i32)| e.0))
            == entries.map_values(|e: (i64, i32, i32)| Some(Coord { lat: e.1, lon: e.2 })),
        spec_lookup(spec_store(m, entries), absent) is None,
    decreases entries.len(),
{
    let ids = entries.map_values(|e: (i64, i32, i32)| e.0);
    let want = entries.map_values(|e: (i64, i32, i32)| Some(Coord { lat: e.1, lon: e.2 }));
    if entries.len() > 0 {
        let t = entries.drop_last();
        lemma_store_then_fetch(m, t, absent);
        assert forall|i: int| 0 <= i < entries.len() implies spec_fetch(spec_store(m, entries), ids)[i] == want[i] by {
            if i < entries.len() - 1 {
                assert(t.map_values(|e: (i64, i32, i32)| e.0)[i] == ids[i]);
                assert(t.map_values(|e: (i64, i32, i32)| Some(Coord { lat: e.1, lon: e.2 }))[i] == want[i]);
                assert(entries[i].0 != entries.last().0);
            }
        }
        assert(spec_fetch(spec_store(m, entries), ids) =~= want);
    } else {
        assert(spec_fetch(spec_store(m, entries), ids) =~= want);
    }
}

/// Resolved way coordinates by way id; only ways with at least one resolved
/// point are held.
pub struct WayGeometryTable {
    map: HashMap<i64, Vec<Coord>>,
}

impl View for WayGeometryTable {
    type V = Map<i64, Seq<Coord>>;

    closed spec fn view(&self) -> Map<i64, Seq<Coord>> {
        self.map@.map_values(|v: Vec<Coord>| v@)
    }
}

impl WayGeometryTable {
    /// An empty table.
    pub fn new() -> (r: WayGeometryTable)
        ensures
            r@ == Map::<i64, Seq<Coord>>::empty(),
    {
        let r = WayGeometryTable { map: HashMap::new() };
        assert(r@ =~= Map::<i64, Seq<Coord>>::empty());
        r
    }

    /// Resolves `way` through `nodes` and keeps its coordinates when at least
    /// one of its points resolved.
    pub fn collect_way(&mut self, way: &OsmWay, nodes: &CoordinateTable)
        ensures
            ({
                let coords = present(spec_fetch(nodes@, way.node_refs@));
                final(self)@ == if coords.len() > 0 {
                    old(self)@.insert(way.id, coords)
                } else {
                    old(self)@
                }
            }),
    {
        let lookups = nodes.get_nodes(way.node_refs.as_slice());
        let coords = present_coords(&lookups);
        if coords.len() > 0 {
            let ghost c = coords@;
            self.map.insert(way.id, coords);
            assert(self@ =~= old(self)@.insert(way.id, c));
        }
    }

    /// The coordinates held for way `id`, if any.
    pub fn get_way(&self, id: i64) -> (r: Option<&Vec<Coord>>)
        ensures
            match r {
                Some(v) => self@.contains_key(id) && self@[id] == v@,
                None => !self@.contains_key(id),
            },
    {
        self.map.get(&id)
    }
}

} // verus!

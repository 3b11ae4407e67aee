//! Which elements are written out, and with what geometry, under each
//! processing strategy.
//!
//! A way's shape comes from the points it references. A relation's shape
//! comes, in the three-pass strategy, from the resolved coordinates of its
//! member ways, else from its member points; in the two-pass strategy from
//! its member points only. Without any resolved position the record is
//! written plainly (a way with its point ids, a relation with its members).

use vstd::prelude::*;
use crate::filter::{filter_matches, groups_view};
use crate::geometry::{calculate_bounds, calculate_centroid, spec_bounds, spec_centroid, Bounds, Coord};
use crate::osm::{MemberType, OsmElement, OsmRelation, OsmRelationMember};
use crate::strategy::{collects_geometry, spec_strategy, GeometryLevel, Strategy, LARGE_INPUT_BYTES};
use crate::tables::{present, present_coords, spec_fetch, CoordinateTable, WayGeometryTable};

verus! {

/// Centroid and bounds of a resolved shape.
#[derive(Clone, Copy, Debug, PartialEq, Eq, Structural)]
pub struct Geometry {
    pub centroid: Coord,
    pub bounds: Bounds,
}

/// How a selected element is written: plainly, or with its geometry.
#[derive(Clone, Copy, Debug, PartialEq, Eq, Structural)]
pub enum Shape {
    Plain,
    Resolved(Geometry),
}

/// `g` is the centroid and bounds of `s`.
pub open spec fn is_geometry_of(g: Geometry, s: Seq<Coord>) -> bool {
    &&& (g.centroid.lat as int, g.centroid.lon as int) == spec_centroid(s)
    &&& (g.bounds.north as int, g.bounds.south as int, g.bounds.east as int, g.bounds.west as int)
        == spec_bounds(s)
}

/// `sh` is the shape written for the positions `s`: plain when there are none.
pub open spec fn is_shape_of(sh: Shape, s: Seq<Coord>) -> bool {
    match sh {
        Shape::Plain => s.len() == 0,
        Shape::Resolved(g) => s.len() > 0 && is_geometry_of(g, s),
    }
}

/// The shape for the positions `coords`.
pub fn shape_of(coords: &[Coord]) -> (r: Shape)
    ensures
        is_shape_of(r, coords@),
{
    if coords.len() == 0 {
        Shape::Plain
    } else {
        Shape::Resolved(Geometry { centroid: calculate_centroid(coords), bounds: calculate_bounds(coords) })
    }
}

/// The shape for the positions found by a lookup per referenced point.
pub fn shape_from_lookups(lookups: &Vec<Option<Coord>>) -> (r: Shape)
    ensures
        is_shape_of(r, present(lookups@)),
{
    let coords = present_coords(lookups);
    shape_of(coords.as_slice())
}

/// The ids of the point members, in member order.
pub open spec fn node_member_ids(ms: Seq<OsmRelationMember>) -> Seq<i64>
    decreases ms.len(),
{
    if ms.len() == 0 {
        Seq::empty()
    } else {
        let rest = node_member_ids(ms.drop_last());
        if ms.last().member_type == MemberType::Node {
            rest.push(ms.last().member_id)
        } else {
            rest
        }
    }
}

/// The resolved coordinates of the way members, concatenated in member order.
pub open spec fn way_member_coords(ms: Seq<OsmRelationMember>, ways: Map<i64, Seq<Coord>>) -> Seq<Coord>
    decreases ms.len(),
{
    if ms.len() == 0 {
        Seq::empty()
    } else {
        let rest = way_member_coords(ms.drop_last(), ways);
        let m = ms.last();
        if m.member_type == MemberType::Way && ways.contains_key(m.member_id) {
            rest + ways[m.member_id]
        } else {
            rest
        }
    }
}

/// The ids of the point members of `relation`, in member order.
pub fn node_members(relation: &OsmRelation) -> (r: Vec<i64>)
    ensures
        r@ == node_member_ids(relation.members@),
{
    let ms = &relation.members;
    let mut r: Vec<i64> = Vec::new();
    let mut i: usize = 0;
    while i < ms.len()
        invariant
            i <= ms.len(),
            r@ == node_member_ids(ms@.subrange(0, i as int)),
        decreases ms.len() - i,
    {
        assert(ms@.subrange(0, i + 1).drop_last() =~= ms@.subrange(0, i as int));
        if ms[i].member_type == MemberType::Node {
            r.push(ms[i].member_id);
        }
        i = i + 1;
    }
    assert(ms@.subrange(0, ms.len() as int) =~= ms@);
    r
}

/// The resolved coordinates of the way members of `relation`, in member order.
pub fn way_members_coords(relation: &OsmRelation, ways: &WayGeometryTable) -> (r: Vec<Coord>)
    ensures
        r@ == way_member_coords(relation.members@, ways@),
{
    let ms = &relation.members;
    let mut r: Vec<Coord> = Vec::new();
    let mut i: usize = 0;
    while i < ms.len()
        invariant
            i <= ms.len(),
            r@ == way_member_coords(ms@.subrange(0, i as int), ways@),
        decreases ms.len() - i,
    {
        assert(ms@.subrange(0, i + 1).drop_last() =~= ms@.subrange(0, i as int));
        if ms[i].member_type == MemberType::Way {
            match ways.get_way(ms[i].member_id) {
                Some(cs) => {
                    let ghost before = r@;
                    let mut k: usize = 0;
                    while k < cs.len()
                        invariant
                            k <= cs.len(),
                            r@ == before + cs@.subrange(0, k as int),
                        decreases cs.len() - k,
                    {
                        r.push(cs[k]);
                        k = k + 1;
                        assert(r@ =~= before + cs@.subrange(0, k as int));
                    }
                    assert(cs@.subrange(0, cs.len() as int) =~= cs@);
                },
                None => {},
            }
        }
        i = i + 1;
    }
    assert(ms@.subrange(0, ms.len() as int) =~= ms@);
    r
}

/// The relation's shape in the three-pass strategy: from its member ways,
/// else from its member points, else plain.
pub open spec fn three_pass_relation_positions(
    relation: OsmRelation,
    nodes: Map<i64, Coord>,
    ways: Map<i64, Seq<Coord>>,
) -> Seq<Coord> {
    let wc = way_member_coords(relation.members@, ways);
    if wc.len() > 0 {
        wc
    } else {
        present(spec_fetch(nodes, node_member_ids(relation.members@)))
    }
}

/// The shape of a relation in the three-pass strategy.
pub fn relation_shape_three_pass(
    relation: &OsmRelation,
    nodes: &CoordinateTable,
    ways: &WayGeometryTable,
) -> (r: Shape)
    ensures
        is_shape_of(r, three_pass_relation_positions(*relation, nodes@, ways@)),
{
    let wc = way_members_coords(relation, ways);
    if wc.len() > 0 {
        shape_of(wc.as_slice())
    } else {
        let ids = node_members(relation);
        let lookups = nodes.get_nodes(ids.as_slice());
        shape_from_lookups(&lookups)
    }
}


/// The filter as character sequences.
pub open spec fn filter_view(f: Option<Vec<Vec<String>>>) -> Option<Seq<Seq<Seq<char>>>> {
    match f {
        Some(g) => Some(groups_view(g@)),
        None => None,
    }
}

/// An element is written when it passes the filter (if any) and has a tag.
pub open spec fn spec_selected(e: OsmElement, f: Option<Seq<Seq<Seq<char>>>>) -> bool {
    &&& match f {
        Some(g) => filter_matches(e.spec_tags()@, g),
        None => true,
    }
    &&& e.spec_tags()@.dom().len() > 0
}

/// The positions a selected element's shape is taken from under a strategy;
/// `None` when it is always written plainly.
pub open spec fn record_positions(
    e: OsmElement,
    st: Strategy,
    nodes: Map<i64, Coord>,
    ways: Map<i64, Seq<Coord>>,
) -> Option<Seq<Coord>> {
    if st == Strategy::SinglePass {
        None
    } else {
        match e {
            OsmElement::Node(_) => None,
            OsmElement::Way(w) => Some(present(spec_fetch(nodes, w.node_refs@))),
            OsmElement::Relation(r) => if st == Strategy::ThreePass {
                Some(three_pass_relation_positions(r, nodes, ways))
            } else {
                Some(present(spec_fetch(nodes, node_member_ids(r.members@))))
            },
        }
    }
}

/// `r` is what is written for `e`: nothing when it is not selected, else the
/// shape of its positions.
pub open spec fn is_record_of(
    r: Option<Shape>,
    e: OsmElement,
    f: Option<Seq<Seq<Seq<char>>>>,
    st: Strategy,
    nodes: Map<i64, Coord>,
    ways: Map<i64, Seq<Coord>>,
) -> bool {
    if !spec_selected(e, f) {
        r is None
    } else {
        match r {
            None => false,
            Some(sh) => match record_positions(e, st, nodes, ways) {
                None => sh == Shape::Plain,
                Some(s) => is_shape_of(sh, s),
            },
        }
    }
}

/// Whether `e` is written at all under `filter`.
pub fn is_selected(e: &OsmElement, filter: &Option<Vec<Vec<String>>>) -> (b: bool)
    requires
        e.wf(),
    ensures
        b == spec_selected(*e, filter_view(*filter)),
{
    let passes = match filter {
        Some(g) => e.matches_filter(g.as_slice()),
        None => true,
    };
    passes && !e.tags().is_empty()
}

/// What is written for `e` under `strategy`, with positions taken from the
/// tables filled by the collection passes.
pub fn transform(
    e: &OsmElement,
    filter: &Option<Vec<Vec<String>>>,
    strategy: Strategy,
    nodes: &CoordinateTable,
    ways: &WayGeometryTable,
) -> (r: Option<Shape>)
    requires
        e.wf(),
    ensures
        is_record_of(r, *e, filter_view(*filter), strategy, nodes@, ways@),
{
    if !is_selected(e, filter) {
        return None;
    }
    match strategy {
        Strategy::SinglePass => Some(Shape::Plain),
        _ => match e {
            OsmElement::Node(_) => Some(Shape::Plain),
            OsmElement::Way(w) => {
                let lookups = nodes.get_nodes(w.node_refs.as_slice());
                Some(shape_from_lookups(&lookups))
            },
            OsmElement::Relation(rel) => {
                match strategy {
                    Strategy::ThreePass => Some(relation_shape_three_pass(rel, nodes, ways)),
                    _ => {
                        let ids = node_members(rel);
                        let lookups = nodes.get_nodes(ids.as_slice());
                        Some(shape_from_lookups(&lookups))
                    },
                }
            },
        },
    }
}

/// A shape is determined by its positions.
pub proof fn lemma_shape_unique(a: Shape, b: Shape, s: Seq<Coord>)
    requires
        is_shape_of(a, s),
        is_shape_of(b, s),
    ensures
        a == b,
{
}

/// The records of a pass over `es`: each selected element with the positions
/// its shape is taken from, in element order.
pub open spec fn pass_records(
    es: Seq<OsmElement>,
    f: Option<Seq<Seq<Seq<char>>>>,
    st: Strategy,
    nodes: Map<i64, Coord>,
    ways: Map<i64, Seq<Coord>>,
) -> Seq<(OsmElement, Option<Seq<Coord>>)>
    decreases es.len(),
{
    if es.len() == 0 {
        Seq::empty()
    } else {
        let rest = pass_records(es.drop_last(), f, st, nodes, ways);
        let e = es.last();
        if spec_selected(e, f) {
            rest.push((e, record_positions(e, st, nodes, ways)))
        } else {
            rest
        }
    }
}

/// The records of consecutive batches are the records of each batch in turn.
pub proof fn lemma_pass_records_concat(
    a: Seq<OsmElement>,
    b: Seq<OsmElement>,
    f: Option<Seq<Seq<Seq<char>>>>,
    st: Strategy,
    nodes: Map<i64, Coord>,
    ways: Map<i64, Seq<Coord>>,
)
    ensures
        pass_records(a + b, f, st, nodes, ways) == pass_records(a, f, st, nodes, ways) + pass_records(
            b,
            f,
            st,
            nodes,
            ways,
        ),
    decreases b.len(),
{
    if b.len() == 0 {
        assert(a + b =~= a);
        assert(pass_records(a, f, st, nodes, ways) + pass_records(b, f, st, nodes, ways) =~= pass_records(a, f, st, nodes, ways));
    } else {
        lemma_pass_records_concat(a, b.drop_last(), f, st, nodes, ways);
        assert((a + b).drop_last() =~= a + b.drop_last());
        assert((a + b).last() == b.last());
        let pa = pass_records(a, f, st, nodes, ways);
        let pb = pass_records(b.drop_last(), f, st, nodes, ways);
        let e = b.last();
        if spec_selected(e, f) {
            assert(pa + pb.push((e, record_positions(e, st, nodes, ways))) =~= (pa + pb).push((e, record_positions(e, st, nodes, ways))));
        }
    }
}

/// Processing the same elements twice, split into batches handled in either
/// order, yields the same multiset of records.
pub proof fn lemma_pass_order_independent(
    a: Seq<OsmElement>,
    b: Seq<OsmElement>,
    f: Option<Seq<Seq<Seq<char>>>>,
    st: Strategy,
    nodes: Map<i64, Coord>,
    ways: Map<i64, Seq<Coord>>,
)
    ensures
        pass_records(a + b, f, st, nodes, ways).to_multiset() == pass_records(b + a, f, st, nodes, ways).to_multiset(),
{
    lemma_pass_records_concat(a, b, f, st, nodes, ways);
    lemma_pass_records_concat(b, a, f, st, nodes, ways);
    let pa = pass_records(a, f, st, nodes, ways);
    let pb = pass_records(b, f, st, nodes, ways);
    vstd::seq_lib::lemma_multiset_commutative(pa, pb);
    vstd::seq_lib::lemma_multiset_commutative(pb, pa);
    assert(pa.to_multiset().add(pb.to_multiset()) =~= pb.to_multiset().add(pa.to_multiset()));
}

/// A large input at the `auto` level takes the single pass, which runs no
/// collection pass, and then no record carries a geometry.
pub proof fn lemma_large_auto_has_no_geometry(
    size: u64,
    r: Option<Shape>,
    e: OsmElement,
    f: Option<Seq<Seq<Seq<char>>>>,
    nodes: Map<i64, Coord>,
    ways: Map<i64, Seq<Coord>>,
)
    requires
        size > LARGE_INPUT_BYTES,
        is_record_of(r, e, f, spec_strategy(size, GeometryLevel::Auto), nodes, ways),
    ensures
        spec_strategy(size, GeometryLevel::Auto) == Strategy::SinglePass,
        !collects_geometry(spec_strategy(size, GeometryLevel::Auto)),
        r is None || r == Some(Shape::Plain),
{
}

} // verus!

//! The layout of a written record: which fields it carries, in which order,
//! and the names written for the element kind and the centroid kind.

use vstd::prelude::*;
use crate::osm::OsmElement;
use crate::resolve::Shape;

verus! {

/// What the centroid of a record marks: the middle of a way, or the
/// entrance of a relation.
#[derive(Clone, Copy, Debug, PartialEq, Eq, Structural)]
pub enum CentroidKind {
    Centroid,
    Entrance,
}

/// One field of a record.
#[derive(Clone, Copy, Debug, PartialEq, Eq, Structural)]
pub enum Field {
    Id,
    Type,
    Lat,
    Lon,
    Nodes,
    Members,
    Tags,
    Centroid(CentroidKind),
    Bounds,
}

/// The fields of the record written for `e` with `shape`: a point with its
/// position; a way with its point ids, and its centroid and bounds when
/// resolved; a relation with its members when plain, or its entrance and
/// bounds when resolved. Every record has its id, type and tags.
pub open spec fn spec_layout(e: OsmElement, shape: Shape) -> Seq<Field> {
    match e {
        OsmElement::Node(_) => seq![Field::Id, Field::Type, Field::Lat, Field::Lon, Field::Tags],
        OsmElement::Way(_) => match shape {
            Shape::Plain => seq![Field::Id, Field::Type, Field::Nodes, Field::Tags],
            Shape::Resolved(_) => seq![
                Field::Id,
                Field::Type,
                Field::Nodes,
                Field::Tags,
                Field::Centroid(CentroidKind::Centroid),
                Field::Bounds,
            ],
        },
        OsmElement::Relation(_) => match shape {
            Shape::Plain => seq![Field::Id, Field::Type, Field::Members, Field::Tags],
            Shape::Resolved(_) => seq![
                Field::Id,
                Field::Type,
                Field::Tags,
                Field::Centroid(CentroidKind::Entrance),
                Field::Bounds,
            ],
        },
    }
}

/// The fields of the record written for `e` with `shape`, in order.
pub fn record_layout(e: &OsmElement, shape: &Shape) -> (r: Vec<Field>)
    ensures
        r@ == spec_layout(*e, *shape),
{
    let r = match e {
        OsmElement::Node(_) => vec![Field::Id, Field::Type, Field::Lat, Field::Lon, Field::Tags],
        OsmElement::Way(_) => match shape {
            Shape::Plain => vec![Field::Id, Field::Type, Field::Nodes, Field::Tags],
            Shape::Resolved(_) => vec![
                Field::Id,
                Field::Type,
                Field::Nodes,
                Field::Tags,
                Field::Centroid(CentroidKind::Centroid),
                Field::Bounds,
            ],
        },
        OsmElement::Relation(_) => match shape {
            Shape::Plain => vec![Field::Id, Field::Type, Field::Members, Field::Tags],
            Shape::Resolved(_) => vec![
                Field::Id,
                Field::Type,
                Field::Tags,
                Field::Centroid(CentroidKind::Entrance),
                Field::Bounds,
            ],
        },
    };
    assert(r@ =~= spec_layout(*e, *shape));
    r
}

/// The type name written for an element: `node`, `way` or `relation`.
pub fn kind_name(e: &OsmElement) -> (r: &'static str)
    ensures
        r@ == match *e {
            OsmElement::Node(_) => "node"@,
            OsmElement::Way(_) => "way"@,
            OsmElement::Relation(_) => "relation"@,
        },
{
    match e {
        OsmElement::Node(_) => "node",
        OsmElement::Way(_) => "way",
        OsmElement::Relation(_) => "relation",
    }
}

impl CentroidKind {
    /// The name written under the centroid's `type`.
    pub fn label(&self) -> (r: &'static str)
        ensures
            r@ == match *self {
                CentroidKind::Centroid => "centroid"@,
                CentroidKind::Entrance => "entrance"@,
            },
    {
        match self {
            CentroidKind::Centroid => "centroid",
            CentroidKind::Entrance => "entrance",
        }
    }
}

} // verus!

//! OpenStreetMap elements as the map service looks them up: the element
//! table keys each element by a one-letter type prefix and its OSM id.
use vstd::prelude::*;
use vstd::string::StringExecFns;

verus! {

/// The three kinds of OpenStreetMap element.
#[derive(Debug, Clone, Copy, PartialEq, Eq, Structural, Hash)]
pub enum OsmType {
    Node,
    Way,
    Relation,
}

/// The prefix of an element type in the element table: `N`, `W` or `R`.
pub open spec fn osm_type_prefix(osm_type: OsmType) -> Seq<char> {
    match osm_type {
        OsmType::Node => seq!['N'],
        OsmType::Way => seq!['W'],
        OsmType::Relation => seq!['R'],
    }
}

impl OsmType {
    /// The element table's prefix for this type.
    pub fn prefix(self) -> (prefix: String)
        ensures
            prefix@ == osm_type_prefix(self),
    {
        match self {
            OsmType::Node => {
                proof {
                    reveal_strlit("N");
                }
                String::from_str("N")
            },
            OsmType::Way => {
                proof {
                    reveal_strlit("W");
                }
                String::from_str("W")
            },
            OsmType::Relation => {
                proof {
                    reveal_strlit("R");
                }
                String::from_str("R")
            },
        }
    }
}

/// The element table's key for element `osm_key` of type `osm_type`.
pub fn element_key(osm_type: OsmType, osm_key: i64) -> (key: (String, i64))
    ensures
        key.0@ == osm_type_prefix(osm_type),
        key.1 == osm_key,
{
    (osm_type.prefix(), osm_key)
}

} // verus!

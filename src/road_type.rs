//! Road categories and what they imply.

use vstd::prelude::*;
use crate::text::str_eq;

verus! {

/// Road categories taken from the OSM `highway` tag.
#[derive(Clone, Copy, Debug, PartialEq, Eq, Structural)]
pub enum RoadType {
    Motorway,
    Trunk,
    Primary,
    Secondary,
    Tertiary,
    Unclassified,
    Residential,
    MotorwayLink,
    TrunkLink,
    PrimaryLink,
    SecondaryLink,
    TertiaryLink,
    Footway,
    Steps,
    Path,
    /// A `highway` value that has no category of its own.
    NotCovered,
}

/// What `str::to_lowercase` returns for a string.
pub uninterp spec fn lower_of(s: Seq<char>) -> Seq<char>;

/// Relies on `str::to_lowercase`: the result depends on the characters alone.
#[verifier::external_body]
fn lowercase(s: &str) -> (r: String)
    ensures
        r@ == lower_of(s@),
{
    s.to_lowercase()
}

/// The category named by an already lower-cased `highway` value.
pub open spec fn road_type_of_lower(s: Seq<char>) -> RoadType {
    if s == "motorway"@ {
        RoadType::Motorway
    } else if s == "trunk"@ {
        RoadType::Trunk
    } else if s == "primary"@ {
        RoadType::Primary
    } else if s == "secondary"@ {
        RoadType::Secondary
    } else if s == "tertiary"@ {
        RoadType::Tertiary
    } else if s == "residential"@ {
        RoadType::Residential
    } else if s == "unclassified"@ {
        RoadType::Unclassified
    } else if s == "motorway_link"@ {
        RoadType::MotorwayLink
    } else if s == "trunk_link"@ {
        RoadType::TrunkLink
    } else if s == "primary_link"@ {
        RoadType::PrimaryLink
    } else if s == "secondary_link"@ {
        RoadType::SecondaryLink
    } else if s == "tertiary_link"@ {
        RoadType::TertiaryLink
    } else if s == "footway"@ {
        RoadType::Footway
    } else if s == "steps"@ {
        RoadType::Steps
    } else if s == "path"@ {
        RoadType::Path
    } else {
        RoadType::NotCovered
    }
}

/// The category of a `highway` value, compared without regard to case.
pub open spec fn road_type_of(s: Seq<char>) -> RoadType {
    road_type_of_lower(lower_of(s))
}

impl RoadType {
    /// Classifies a `highway` value that is already in lower case.
    pub fn from_lowercase_tag(s: &str) -> (r: RoadType)
        ensures
            r == road_type_of_lower(s@),
    {
        if str_eq(s, "motorway") {
            RoadType::Motorway
        } else if str_eq(s, "trunk") {
            RoadType::Trunk
        } else if str_eq(s, "primary") {
            RoadType::Primary
        } else if str_eq(s, "secondary") {
            RoadType::Secondary
        } else if str_eq(s, "tertiary") {
            RoadType::Tertiary
        } else if str_eq(s, "residential") {
            RoadType::Residential
        } else if str_eq(s, "unclassified") {
            RoadType::Unclassified
        } else if str_eq(s, "motorway_link") {
            RoadType::MotorwayLink
        } else if str_eq(s, "trunk_link") {
            RoadType::TrunkLink
        } else if str_eq(s, "primary_link") {
            RoadType::PrimaryLink
        } else if str_eq(s, "secondary_link") {
            RoadType::SecondaryLink
        } else if str_eq(s, "tertiary_link") {
            RoadType::TertiaryLink
        } else if str_eq(s, "footway") {
            RoadType::Footway
        } else if str_eq(s, "steps") {
            RoadType::Steps
        } else if str_eq(s, "path") {
            RoadType::Path
        } else {
            RoadType::NotCovered
        }
    }

    /// Classifies a `highway` value without regard to case; never fails.
    pub fn from_tag(s: &str) -> (r: RoadType)
        ensures
            r == road_type_of(s@),
    {
        let lower = lowercase(s);
        RoadType::from_lowercase_tag(lower.as_str())
    }
}

/// The usual number of lanes of a road category.
pub open spec fn default_lanes(road_type: RoadType) -> u32 {
    match road_type {
        RoadType::Motorway => 4,
        RoadType::Trunk => 3,
        RoadType::Primary | RoadType::Secondary | RoadType::Tertiary => 2,
        RoadType::MotorwayLink | RoadType::TrunkLink => 2,
        _ => 1,
    }
}

/// The usual number of lanes of a road category.
pub fn road_type_to_default_lanes(road_type: &RoadType) -> (r: u32)
    ensures
        r == default_lanes(*road_type),
        1 <= r <= 4,
{
    match road_type {
        RoadType::Motorway => 4,
        RoadType::Trunk => 3,
        RoadType::Primary => 2,
        RoadType::Secondary => 2,
        RoadType::Tertiary => 2,
        RoadType::Residential => 1,
        RoadType::MotorwayLink => 2,
        RoadType::TrunkLink => 2,
        RoadType::PrimaryLink => 1,
        RoadType::SecondaryLink => 1,
        RoadType::TertiaryLink => 1,
        RoadType::Footway => 1,
        RoadType::Steps => 1,
        RoadType::Path => 1,
        RoadType::Unclassified => 1,
        RoadType::NotCovered => 1,
    }
}

} // verus!

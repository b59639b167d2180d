//! Building classes, roof shapes and land use, read from tags.

use vstd::prelude::*;
use crate::text::str_eq;
use crate::geography::{tag_lookup, BuildingFeature, PlanarPoint};

verus! {

/// Building classes from the OSM `building` tag.
#[derive(Clone, Copy, Debug, PartialEq, Eq, Structural)]
pub enum BuildingType {
    Apartments,
    Barracks,
    Bungalow,
    Cabin,
    Detached,
    Dormitory,
    Farm,
    Hotel,
    House,
    Houseboat,
    Residential,
    SemidetachedHouse,
    StaticCaravan,
    Terrace,
    Commercial,
    Industrial,
    Kiosk,
    Office,
    Retail,
    Supermarket,
    Warehouse,
    Bakehouse,
    Bridge,
    Civic,
    College,
    FireStation,
    Government,
    Hospital,
    Kindergarten,
    Museum,
    Public,
    School,
    Toilets,
    TrainStation,
    Transportation,
    University,
    Other,
}

/// The range of levels that is plausible for a class of building.
pub open spec fn level_range(building_type: BuildingType) -> (i32, i32) {
    match building_type {
        BuildingType::Apartments => (3, 6),
        BuildingType::Barracks => (1, 2),
        BuildingType::Bungalow => (1, 1),
        BuildingType::Cabin => (1, 1),
        BuildingType::Detached => (2, 3),
        BuildingType::Dormitory => (2, 4),
        BuildingType::Farm => (1, 1),
        BuildingType::Hotel => (3, 6),
        BuildingType::House => (2, 2),
        BuildingType::Houseboat => (1, 2),
        BuildingType::Residential => (2, 5),
        BuildingType::SemidetachedHouse => (2, 3),
        BuildingType::StaticCaravan => (1, 1),
        BuildingType::Terrace => (2, 3),
        BuildingType::Commercial => (1, 4),
        BuildingType::Industrial => (2, 4),
        BuildingType::Kiosk => (1, 1),
        BuildingType::Office => (2, 8),
        BuildingType::Retail => (2, 3),
        BuildingType::Supermarket => (1, 1),
        BuildingType::Warehouse => (2, 2),
        BuildingType::Bakehouse => (1, 1),
        BuildingType::Bridge => (1, 1),
        BuildingType::Civic => (2, 4),
        BuildingType::College => (2, 4),
        BuildingType::FireStation => (1, 2),
        BuildingType::Government => (2, 4),
        BuildingType::Hospital => (2, 6),
        BuildingType::Kindergarten => (1, 2),
        BuildingType::Museum => (1, 3),
        BuildingType::Public => (2, 4),
        BuildingType::School => (2, 4),
        BuildingType::Toilets => (1, 1),
        BuildingType::TrainStation => (1, 3),
        BuildingType::Transportation => (1, 3),
        BuildingType::University => (2, 6),
        BuildingType::Other => (1, 1),
    }
}

/// Maps a building class to a range of levels that is reasonable for it.
pub fn get_random_range_building(building_type: BuildingType) -> (r: (i32, i32))
    ensures
        r == level_range(building_type),
        1 <= r.0 <= r.1 <= 8,
{
    match building_type {
        BuildingType::Apartments => (3, 6),
        BuildingType::Barracks => (1, 2),
        BuildingType::Bungalow => (1, 1),
        BuildingType::Cabin => (1, 1),
        BuildingType::Detached => (2, 3),
        BuildingType::Dormitory => (2, 4),
        BuildingType::Farm => (1, 1),
        BuildingType::Hotel => (3, 6),
        BuildingType::House => (2, 2),
        BuildingType::Houseboat => (1, 2),
        BuildingType::Residential => (2, 5),
        BuildingType::SemidetachedHouse => (2, 3),
        BuildingType::StaticCaravan => (1, 1),
        BuildingType::Terrace => (2, 3),
        BuildingType::Commercial => (1, 4),
        BuildingType::Industrial => (2, 4),
        BuildingType::Kiosk => (1, 1),
        BuildingType::Office => (2, 8),
        BuildingType::Retail => (2, 3),
        BuildingType::Supermarket => (1, 1),
        BuildingType::Warehouse => (2, 2),
        BuildingType::Bakehouse => (1, 1),
        BuildingType::Bridge => (1, 1),
        BuildingType::Civic => (2, 4),
        BuildingType::College => (2, 4),
        BuildingType::FireStation => (1, 2),
        BuildingType::Government => (2, 4),
        BuildingType::Hospital => (2, 6),
        BuildingType::Kindergarten => (1, 2),
        BuildingType::Museum => (1, 3),
        BuildingType::Public => (2, 4),
        BuildingType::School => (2, 4),
        BuildingType::Toilets => (1, 1),
        BuildingType::TrainStation => (1, 3),
        BuildingType::Transportation => (1, 3),
        BuildingType::University => (2, 6),
        BuildingType::Other => (1, 1),
    }
}

/// The value `yes`, which marks a building without saying of what class.
#[derive(Clone, Copy, Debug, PartialEq, Eq, Structural)]
pub struct BuildingParseError;

/// The class named by a `building` value: `None` for `yes`, `Other` for a
/// value with no class of its own.
pub open spec fn building_type_of(s: Seq<char>) -> Option<BuildingType> {
    if s == "apartments"@ {
        Some(BuildingType::Apartments)
    } else if s == "barracks"@ {
        Some(BuildingType::Barracks)
    } else if s == "bungalow"@ {
        Some(BuildingType::Bungalow)
    } else if s == "cabin"@ {
        Some(BuildingType::Cabin)
    } else if s == "detached"@ {
        Some(BuildingType::Detached)
    } else if s == "dormitory"@ {
        Some(BuildingType::Dormitory)
    } else if s == "farm"@ {
        Some(BuildingType::Farm)
    } else if s == "hotel"@ {
        Some(BuildingType::Hotel)
    } else if s == "house"@ {
        Some(BuildingType::House)
    } else if s == "houseboat"@ {
        Some(BuildingType::Houseboat)
    } else if s == "residential"@ {
        Some(BuildingType::Residential)
    } else if s == "semidetached_house"@ {
        Some(BuildingType::SemidetachedHouse)
    } else if s == "static_caravan"@ {
        Some(BuildingType::StaticCaravan)
    } else if s == "terrace"@ {
        Some(BuildingType::Terrace)
    } else if s == "commercial"@ {
        Some(BuildingType::Commercial)
    } else if s == "industrial"@ {
        Some(BuildingType::Industrial)
    } else if s == "kiosk"@ {
        Some(BuildingType::Kiosk)
    } else if s == "office"@ {
        Some(BuildingType::Office)
    } else if s == "retail"@ {
        Some(BuildingType::Retail)
    } else if s == "supermarket"@ {
        Some(BuildingType::Supermarket)
    } else if s == "warehouse"@ {
        Some(BuildingType::Warehouse)
    } else if s == "bakehouse"@ {
        Some(BuildingType::Bakehouse)
    } else if s == "bridge"@ {
        Some(BuildingType::Bridge)
    } else if s == "civic"@ {
        Some(BuildingType::Civic)
    } else if s == "college"@ {
        Some(BuildingType::College)
    } else if s == "fire_station"@ {
        Some(BuildingType::FireStation)
    } else if s == "government"@ {
        Some(BuildingType::Government)
    } else if s == "hospital"@ {
        Some(BuildingType::Hospital)
    } else if s == "kindergarten"@ {
        Some(BuildingType::Kindergarten)
    } else if s == "museum"@ {
        Some(BuildingType::Museum)
    } else if s == "public"@ {
        Some(BuildingType::Public)
    } else if s == "school"@ {
        Some(BuildingType::School)
    } else if s == "toilets"@ {
        Some(BuildingType::Toilets)
    } else if s == "train_station"@ {
        Some(BuildingType::TrainStation)
    } else if s == "transportation"@ {
        Some(BuildingType::Transportation)
    } else if s == "university"@ {
        Some(BuildingType::University)
    } else if s == "yes"@ {
        None
    } else {
        Some(BuildingType::Other)
    }
}

impl BuildingType {
    /// Reads a `building` value.
    pub fn from_tag(s: &str) -> (r: Result<BuildingType, BuildingParseError>)
        ensures
            match r {
                Ok(t) => building_type_of(s@) == Some(t),
                Err(_) => building_type_of(s@) is None,
            },
    {
        if str_eq(s, "apartments") {
            Ok(BuildingType::Apartments)
        } else if str_eq(s, "barracks") {
            Ok(BuildingType::Barracks)
        } else if str_eq(s, "bungalow") {
            Ok(BuildingType::Bungalow)
        } else if str_eq(s, "cabin") {
            Ok(BuildingType::Cabin)
        } else if str_eq(s, "detached") {
            Ok(BuildingType::Detached)
        } else if str_eq(s, "dormitory") {
            Ok(BuildingType::Dormitory)
        } else if str_eq(s, "farm") {
            Ok(BuildingType::Farm)
        } else if str_eq(s, "hotel") {
            Ok(BuildingType::Hotel)
        } else if str_eq(s, "house") {
            Ok(BuildingType::House)
        } else if str_eq(s, "houseboat") {
            Ok(BuildingType::Houseboat)
        } else if str_eq(s, "residential") {
            Ok(BuildingType::Residential)
        } else if str_eq(s, "semidetached_house") {
            Ok(BuildingType::SemidetachedHouse)
        } else if str_eq(s, "static_caravan") {
            Ok(BuildingType::StaticCaravan)
        } else if str_eq(s, "terrace") {
            Ok(BuildingType::Terrace)
        } else if str_eq(s, "commercial") {
            Ok(BuildingType::Commercial)
        } else if str_eq(s, "industrial") {
            Ok(BuildingType::Industrial)
        } else if str_eq(s, "kiosk") {
            Ok(BuildingType::Kiosk)
        } else if str_eq(s, "office") {
            Ok(BuildingType::Office)
        } else if str_eq(s, "retail") {
            Ok(BuildingType::Retail)
        } else if str_eq(s, "supermarket") {
            Ok(BuildingType::Supermarket)
        } else if str_eq(s, "warehouse") {
            Ok(BuildingType::Warehouse)
        } else if str_eq(s, "bakehouse") {
            Ok(BuildingType::Bakehouse)
        } else if str_eq(s, "bridge") {
            Ok(BuildingType::Bridge)
        } else if str_eq(s, "civic") {
            Ok(BuildingType::Civic)
        } else if str_eq(s, "college") {
            Ok(BuildingType::College)
        } else if str_eq(s, "fire_station") {
            Ok(BuildingType::FireStation)
        } else if str_eq(s, "government") {
            Ok(BuildingType::Government)
        } else if str_eq(s, "hospital") {
            Ok(BuildingType::Hospital)
        } else if str_eq(s, "kindergarten") {
            Ok(BuildingType::Kindergarten)
        } else if str_eq(s, "museum") {
            Ok(BuildingType::Museum)
        } else if str_eq(s, "public") {
            Ok(BuildingType::Public)
        } else if str_eq(s, "school") {
            Ok(BuildingType::School)
        } else if str_eq(s, "toilets") {
            Ok(BuildingType::Toilets)
        } else if str_eq(s, "train_station") {
            Ok(BuildingType::TrainStation)
        } else if str_eq(s, "transportation") {
            Ok(BuildingType::Transportation)
        } else if str_eq(s, "university") {
            Ok(BuildingType::University)
        } else if str_eq(s, "yes") {
            Err(BuildingParseError)
        } else {
            Ok(BuildingType::Other)
        }
    }
}

/// Roof shapes from the OSM `roof:shape` tag.
#[derive(Clone, Copy, Debug, PartialEq, Eq, Structural)]
pub enum RoofShape {
    Flat,
    Gabled,
    Shed,
    Hipped,
    Gambrel,
    Mansard,
}

/// The shape named by a `roof:shape` value; unknown values mean flat.
pub open spec fn roof_shape_of(s: Seq<char>) -> RoofShape {
    if s == "flat"@ {
        RoofShape::Flat
    } else if s == "gabled"@ {
        RoofShape::Gabled
    } else if s == "shed"@ {
        RoofShape::Shed
    } else if s == "hipped"@ {
        RoofShape::Hipped
    } else if s == "gambrel"@ {
        RoofShape::Gambrel
    } else if s == "mansard"@ {
        RoofShape::Mansard
    } else {
        RoofShape::Flat
    }
}

impl RoofShape {
    /// Reads a `roof:shape` value; never fails.
    pub fn from_tag(s: &str) -> (r: RoofShape)
        ensures
            r == roof_shape_of(s@),
    {
        if str_eq(s, "flat") {
            RoofShape::Flat
        } else if str_eq(s, "gabled") {
            RoofShape::Gabled
        } else if str_eq(s, "shed") {
            RoofShape::Shed
        } else if str_eq(s, "hipped") {
            RoofShape::Hipped
        } else if str_eq(s, "gambrel") {
            RoofShape::Gambrel
        } else if str_eq(s, "mansard") {
            RoofShape::Mansard
        } else {
            RoofShape::Flat
        }
    }
}

/// The land use of the area around a building, used to guess its class.
#[derive(Clone, Copy, Debug, PartialEq, Eq, Structural)]
pub enum BuildingLandUseType {
    Commercial,
    Education,
    Industrial,
    Residential,
    Unknown,
    /// The building's class is known, so its surroundings are not needed.
    NotNecessary,
}

/// The land use named by a `landuse` value; unknown values give `Unknown`.
pub open spec fn land_use_of(s: Seq<char>) -> BuildingLandUseType {
    if s == "commercial"@ || s == "retail"@ {
        BuildingLandUseType::Commercial
    } else if s == "education"@ {
        BuildingLandUseType::Education
    } else if s == "industrial"@ {
        BuildingLandUseType::Industrial
    } else if s == "residential"@ {
        BuildingLandUseType::Residential
    } else {
        BuildingLandUseType::Unknown
    }
}

impl BuildingLandUseType {
    /// Reads a `landuse` value; never fails.
    pub fn from_tag(s: &str) -> (r: BuildingLandUseType)
        ensures
            r == land_use_of(s@),
    {
        if str_eq(s, "commercial") || str_eq(s, "retail") {
            BuildingLandUseType::Commercial
        } else if str_eq(s, "education") {
            BuildingLandUseType::Education
        } else if str_eq(s, "industrial") {
            BuildingLandUseType::Industrial
        } else if str_eq(s, "residential") {
            BuildingLandUseType::Residential
        } else {
            BuildingLandUseType::Unknown
        }
    }
}

/// The value of a decimal digit.
pub open spec fn digit_value(c: char) -> int {
    c as int - '0' as int
}

/// Every character is an ASCII digit.
pub open spec fn all_digits(d: Seq<char>) -> bool {
    forall|i: int| 0 <= i < d.len() ==> '0' <= #[trigger] d[i] <= '9'
}

/// The number written by a sequence of decimal digits.
pub open spec fn digits_value(d: Seq<char>) -> int
    decreases d.len(),
{
    if d.len() == 0 {
        0
    } else {
        digits_value(d.drop_last()) * 10 + digit_value(d.last())
    }
}

/// An optional `+` or `-` followed by at least one digit, and the number it
/// writes.
pub open spec fn signed_decimal(s: Seq<char>) -> Option<int> {
    if s.len() > 1 && (s[0] == '+' || s[0] == '-') && all_digits(s.drop_first()) {
        Some(
            if s[0] == '-' {
                -digits_value(s.drop_first())
            } else {
                digits_value(s.drop_first())
            },
        )
    } else if s.len() > 0 && all_digits(s) {
        Some(digits_value(s))
    } else {
        None
    }
}

/// The `i32` that a string writes in decimal, if it fits.
pub open spec fn parsed_i32(s: Seq<char>) -> Option<i32> {
    match signed_decimal(s) {
        Some(v) => if i32::MIN <= v <= i32::MAX {
            Some(v as i32)
        } else {
            None
        },
        None => None,
    }
}

/// Relies on `str::parse::<i32>`: an optional sign followed by one or more
/// decimal digits, whose value fits an `i32`; anything else is an error.
#[verifier::external_body]
fn parse_i32(s: &str) -> (r: Option<i32>)
    ensures
        r == parsed_i32(s@),
{
    s.parse::<i32>().ok()
}

/// What the tags of a building give before its shape is generated.
pub struct PartialBuilding {
    pub id: u64,
    pub building_type: Option<BuildingType>,
    pub levels: Option<i32>,
    pub base: Vec<PlanarPoint>,
    pub roof_shape: Option<RoofShape>,
    pub roof_levels: Option<i32>,
    pub inside_area: BuildingLandUseType,
}

/// A number-valued tag: `None` when absent or not an `i32`.
pub open spec fn tag_i32(tags: Seq<(Seq<char>, Seq<char>)>, key: Seq<char>) -> Option<i32> {
    match tag_lookup(tags, key) {
        Some(v) => parsed_i32(v),
        None => None,
    }
}

fn get_tag_i32(building: &BuildingFeature, key: &str) -> (r: Option<i32>)
    ensures
        r == tag_i32(building.tags@, key@),
{
    match building.tags.get(key) {
        Some(v) => parse_i32(v.as_str()),
        None => None,
    }
}

/// Reads what a building's tags say: its class (none for an absent tag or
/// `yes`), its levels and roof levels, and its roof shape. The land use
/// around it is needed only when its class is unknown.
pub fn get_partial_building_from_tags(id: u64, building: &BuildingFeature, base: Vec<PlanarPoint>) -> (r:
    PartialBuilding)
    ensures
        r.id == id,
        r.building_type == match tag_lookup(building.tags@, "building"@) {
            Some(v) => building_type_of(v),
            None => None,
        },
        r.levels == tag_i32(building.tags@, "building:levels"@),
        r.base@ == base@,
        r.roof_shape == match tag_lookup(building.tags@, "roof:shape"@) {
            Some(v) => Some(roof_shape_of(v)),
            None => None,
        },
        r.roof_levels == tag_i32(building.tags@, "roof:levels"@),
        r.inside_area == if r.building_type is Some {
            BuildingLandUseType::NotNecessary
        } else {
            BuildingLandUseType::Unknown
        },
{
    let building_type = match building.tags.get("building") {
        Some(s) => match BuildingType::from_tag(s.as_str()) {
            Ok(t) => Some(t),
            Err(_) => None,
        },
        None => None,
    };
    let roof_shape = match building.tags.get("roof:shape") {
        Some(s) => Some(RoofShape::from_tag(s.as_str())),
        None => None,
    };
    let inside_area = match building_type {
        Some(_) => BuildingLandUseType::NotNecessary,
        None => BuildingLandUseType::Unknown,
    };
    PartialBuilding {
        id,
        building_type,
        levels: get_tag_i32(building, "building:levels"),
        base,
        roof_shape,
        roof_levels: get_tag_i32(building, "roof:levels"),
        inside_area,
    }
}

} // verus!

use city_model::building_type::{
    get_partial_building_from_tags, get_random_range_building, BuildingLandUseType, BuildingParseError, BuildingType,
    RoofShape,
};
use city_model::geography::{Feature, Tags};
use city_model::common::{AppError, DataFormat};
use city_model::geography::{ChunkIndex, PlanarPoint, CHUNK_SIZE};
use city_model::query::{format_of_extension, parse_data_query, DataQuery, InputQueryType, CITY_QUERY_HEAD, CITY_QUERY_TAIL};
use city_model::road_type::RoadType;
use city_model::simplification::simplify_polygon;
use city_model::traffic_graph::OneWay;

fn p(x: i64, y: i64) -> PlanarPoint {
    PlanarPoint { x, y }
}

#[test]
fn road_type_ignores_case() {
    assert_eq!(RoadType::from_tag("MOTORWAY"), RoadType::Motorway);
    assert_eq!(RoadType::from_tag("Trunk_Link"), RoadType::TrunkLink);
    assert_eq!(RoadType::from_tag("footway"), RoadType::Footway);
    assert_eq!(RoadType::from_tag("cycleway"), RoadType::NotCovered);
    assert_eq!(RoadType::from_lowercase_tag("PATH"), RoadType::NotCovered);
}

#[test]
fn oneway_values() {
    assert_eq!(OneWay::from_tag("yes"), OneWay::Yes);
    assert_eq!(OneWay::from_tag("1"), OneWay::Yes);
    assert_eq!(OneWay::from_tag("true"), OneWay::Yes);
    assert_eq!(OneWay::from_tag("-1"), OneWay::Reversed);
    assert_eq!(OneWay::from_tag("reverse"), OneWay::Reversed);
    assert_eq!(OneWay::from_tag("no"), OneWay::No);
    assert_eq!(OneWay::from_tag(""), OneWay::No);
    assert_eq!(OneWay::from_tag("alternating"), OneWay::No);
}

#[test]
fn building_values() {
    assert_eq!(BuildingType::from_tag("house"), Ok(BuildingType::House));
    assert_eq!(BuildingType::from_tag("fire_station"), Ok(BuildingType::FireStation));
    assert_eq!(BuildingType::from_tag("castle"), Ok(BuildingType::Other));
    assert_eq!(BuildingType::from_tag("yes"), Err(BuildingParseError));
    assert_eq!(get_random_range_building(BuildingType::Office), (2, 8));
    assert_eq!(get_random_range_building(BuildingType::House), (2, 2));
    assert_eq!(RoofShape::from_tag("hipped"), RoofShape::Hipped);
    assert_eq!(RoofShape::from_tag("dome"), RoofShape::Flat);
    assert_eq!(BuildingLandUseType::from_tag("retail"), BuildingLandUseType::Commercial);
    assert_eq!(BuildingLandUseType::from_tag("forest"), BuildingLandUseType::Unknown);
}

#[test]
fn chunk_index_floors() {
    assert_eq!(ChunkIndex::from_vec2(p(0, 0)), ChunkIndex { x: 0, z: 0 });
    assert_eq!(ChunkIndex::from_vec2(p(CHUNK_SIZE - 1, 5)), ChunkIndex { x: 0, z: 0 });
    assert_eq!(ChunkIndex::from_vec2(p(CHUNK_SIZE, 5)), ChunkIndex { x: 1, z: 0 });
    assert_eq!(ChunkIndex::from_vec2(p(-1, -CHUNK_SIZE)), ChunkIndex { x: -1, z: -1 });
    assert_eq!(ChunkIndex::from_vec2(p(-CHUNK_SIZE - 1, 0)), ChunkIndex { x: -2, z: 0 });
    assert_eq!(ChunkIndex::from_vec2(p(i64::MIN, i64::MAX)), ChunkIndex { x: i64::MIN.div_euclid(CHUNK_SIZE), z: i64::MAX / CHUNK_SIZE });
}

#[test]
fn chunk_index_one_tile_apart() {
    let a = ChunkIndex::from_vec2(p(123_456, -987_654));
    let b = ChunkIndex::from_vec2(p(123_456 + CHUNK_SIZE, -987_654));
    let c = ChunkIndex::from_vec2(p(123_456, -987_654 + CHUNK_SIZE));
    assert_eq!(b.x, a.x + 1);
    assert_eq!(b.z, a.z);
    assert_eq!(c.z, a.z + 1);
}

#[test]
fn square_with_midpoint_loses_midpoint() {
    let square = vec![p(0, 0), p(1000, 0), p(2000, 0), p(2000, 2000), p(0, 2000)];
    let r = simplify_polygon(square, 1_000_000);
    assert_eq!(r, vec![p(0, 0), p(2000, 0), p(2000, 2000), p(0, 2000)]);
}

#[test]
fn zero_threshold_keeps_bent_midpoint() {
    let square = vec![p(0, 0), p(1000, 1), p(2000, 0), p(2000, 2000), p(0, 2000)];
    let r = simplify_polygon(square.clone(), 0);
    assert_eq!(r, square);
}

#[test]
fn zero_threshold_removes_zero_area_vertex() {
    let square = vec![p(0, 0), p(1000, 0), p(2000, 0), p(2000, 2000), p(0, 2000)];
    let r = simplify_polygon(square, 0);
    assert_eq!(r.len(), 4);
}

#[test]
fn small_polygons_unchanged() {
    let tri = vec![p(0, 0), p(5, 0), p(0, 5)];
    assert_eq!(simplify_polygon(tri.clone(), 1_000_000), tri);
    assert_eq!(simplify_polygon(vec![], 10), vec![]);
}

#[test]
fn simplification_stops_at_four_points() {
    let poly = vec![p(0, 0), p(10, 0), p(20, 1), p(30, 0), p(30, 30), p(15, 31), p(0, 30)];
    let r = simplify_polygon(poly, u64::MAX / 4);
    assert_eq!(r.len(), 4);
}

#[test]
fn simplification_removes_smallest_first() {
    // the triangle at (10, 1) has area 10, every other one more; a threshold of 10 admits only it
    let poly = vec![p(0, 0), p(10, 1), p(20, 0), p(20, 3), p(40, 0), p(40, 40), p(0, 40)];
    let r = simplify_polygon(poly, 10);
    assert_eq!(r, vec![p(0, 0), p(20, 0), p(20, 3), p(40, 0), p(40, 40), p(0, 40)]);
}

#[test]
fn city_query_is_wrapped() {
    match parse_data_query(InputQueryType::City, "Eindhoven") {
        Ok(DataQuery::OverpassQL { value }) => {
            assert_eq!(value, format!("{}Eindhoven{}", CITY_QUERY_HEAD, CITY_QUERY_TAIL));
            assert!(value.contains("area[name=\"Eindhoven\"]"));
        },
        _ => panic!("expected an Overpass query"),
    }
}

#[test]
fn city_query_rejects_quotes() {
    assert!(matches!(parse_data_query(InputQueryType::City, "Ein\"dhoven"), Err(AppError::InputSyntax { .. })));
}

#[test]
fn overpass_query_passes_through() {
    match parse_data_query(InputQueryType::Overpass, "node(1);out;") {
        Ok(DataQuery::OverpassQL { value }) => assert_eq!(value, "node(1);out;"),
        _ => panic!("expected an Overpass query"),
    }
}

#[test]
fn file_query_by_extension() {
    match parse_data_query(InputQueryType::File, "data/city.json") {
        Ok(DataQuery::File { format, file_path }) => {
            assert_eq!(format, DataFormat::OsmJson);
            assert_eq!(file_path, "data/city.json");
        },
        _ => panic!("expected a file query"),
    }
    assert!(matches!(parse_data_query(InputQueryType::File, "x.geojson"), Ok(DataQuery::File { format: DataFormat::GeoJson, .. })));
    assert!(matches!(parse_data_query(InputQueryType::File, "x.csv"), Err(AppError::InputSyntax { .. })));
    assert!(matches!(parse_data_query(InputQueryType::File, "noextension"), Err(AppError::InputSyntax { .. })));
    assert!(matches!(format_of_extension(Some("json")), Ok(DataFormat::OsmJson)));
    assert!(matches!(format_of_extension(None), Err(AppError::InputSyntax { .. })));
}

#[test]
fn json_error_conversion() {
    let e = serde_json::from_str::<serde_json::Value>("{\n  \"a\": ]").unwrap_err();
    match AppError::from_json_error(e, DataFormat::OsmJson) {
        AppError::DataSyntax { format, line, character, .. } => {
            assert_eq!(format, DataFormat::OsmJson);
            assert_eq!(line, Some(2));
            assert!(character.is_some());
        },
        _ => panic!("expected a data syntax error"),
    }
    assert_eq!(DataFormat::GeoJson.name(), "geojson");
}

fn building(tags: &[(&str, &str)]) -> Feature {
    Feature {
        nodes: vec![1, 2, 3],
        tags: Tags { entries: tags.iter().map(|(k, v)| (k.to_string(), v.to_string())).collect() },
    }
}

#[test]
fn partial_building_reads_tags() {
    let b = building(&[("building", "house"), ("building:levels", "3"), ("roof:shape", "gabled"), ("roof:levels", "+1")]);
    let r = get_partial_building_from_tags(42, &b, vec![p(0, 0), p(1, 0), p(0, 1)]);
    assert_eq!(r.id, 42);
    assert_eq!(r.building_type, Some(BuildingType::House));
    assert_eq!(r.levels, Some(3));
    assert_eq!(r.roof_shape, Some(RoofShape::Gabled));
    assert_eq!(r.roof_levels, Some(1));
    assert_eq!(r.inside_area, BuildingLandUseType::NotNecessary);
    assert_eq!(r.base.len(), 3);
}

#[test]
fn partial_building_defaults() {
    let b = building(&[("building", "yes"), ("building:levels", "2.5"), ("roof:levels", "-1")]);
    let r = get_partial_building_from_tags(7, &b, vec![]);
    assert_eq!(r.building_type, None);
    assert_eq!(r.levels, None);
    assert_eq!(r.roof_shape, None);
    assert_eq!(r.roof_levels, Some(-1));
    assert_eq!(r.inside_area, BuildingLandUseType::Unknown);
    let b = building(&[("building:levels", "99999999999"), ("roof:shape", "onion")]);
    let r = get_partial_building_from_tags(8, &b, vec![]);
    assert_eq!(r.levels, None);
    assert_eq!(r.roof_shape, Some(RoofShape::Flat));
}

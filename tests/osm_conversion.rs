use city_model::common::{AppError, DataFormat};
use city_model::geography::{find_feature_type, ChunkIndex, FeatureType, GeoLocation, PlanarPoint, Tags};
use city_model::json::{JsonNumber, JsonValue};
use city_model::osm::convert_osm_json;

fn text(s: &str) -> JsonValue {
    JsonValue::String(s.to_string())
}

fn integer(v: u64) -> JsonValue {
    JsonValue::Number(JsonNumber { unsigned: Some(v), degrees_e7: i32::try_from(v.saturating_mul(10_000_000)).ok() })
}

fn degrees(v: f64) -> JsonValue {
    JsonValue::Number(JsonNumber { unsigned: None, degrees_e7: Some((v * 1e7).round() as i32) })
}

fn object(members: Vec<(&str, JsonValue)>) -> JsonValue {
    JsonValue::Object(members.into_iter().map(|(k, v)| (k.to_string(), v)).collect())
}

fn tags(pairs: &[(&str, &str)]) -> JsonValue {
    object(pairs.iter().map(|(k, v)| (*k, text(v))).collect())
}

fn node(id: u64, lon: f64, lat: f64, t: &[(&str, &str)]) -> JsonValue {
    let mut m = vec![("type", text("node")), ("id", integer(id)), ("lon", degrees(lon)), ("lat", degrees(lat))];
    if !t.is_empty() {
        m.push(("tags", tags(t)));
    }
    object(m)
}

fn way(id: u64, nodes: &[u64], t: &[(&str, &str)]) -> JsonValue {
    object(vec![
        ("type", text("way")),
        ("id", integer(id)),
        ("nodes", JsonValue::Array(nodes.iter().map(|n| integer(*n)).collect())),
        ("tags", tags(t)),
    ])
}

fn document(elements: Vec<JsonValue>) -> JsonValue {
    object(vec![("elements", JsonValue::Array(elements))])
}

/// The renderer's projection with a zero origin, in thousandths of a world unit.
fn project_zero(l: GeoLocation) -> PlanarPoint {
    let lon = l.longitude as f64 / 1e7;
    let lat = (l.latitude as f64 / 1e7).to_radians();
    let x = (lon + 180.0) / 360.0 * 6_400_000.0 * 1000.0;
    let y = (1.0 - lat.tan().asinh() / std::f64::consts::PI) / 2.0 * 6_400_000.0 * 1000.0;
    PlanarPoint { x: x.round() as i64, y: y.round() as i64 }
}

fn identity(l: GeoLocation) -> PlanarPoint {
    PlanarPoint { x: l.longitude as i64, y: l.latitude as i64 }
}

fn assert_data_syntax(r: Result<city_model::geography::GeoData, AppError>) {
    match r {
        Err(AppError::DataSyntax { format, .. }) => assert_eq!(format, DataFormat::OsmJson),
        _ => panic!("expected a data syntax error"),
    }
}

#[test]
fn tagged_node_lands_in_chunk_of_origin() {
    let doc = document(vec![node(1, 0.0, 0.0, &[("building", "house")])]);
    let data = convert_osm_json(&doc, &project_zero).unwrap();
    let expected = ChunkIndex::from_vec2(project_zero(GeoLocation { longitude: 0, latitude: 0 }));
    assert_eq!(expected, ChunkIndex { x: 4000, z: 4000 });
    let c = data.find_chunk(expected).unwrap();
    assert!(data.chunks[c].nodes.get(1).is_some());
    assert_eq!(data.node_locations.get(1), Some(&GeoLocation { longitude: 0, latitude: 0 }));
}

#[test]
fn node_with_building_yes_is_still_a_node() {
    let doc = document(vec![node(1, 0.0, 0.0, &[("building", "yes")])]);
    let data = convert_osm_json(&doc, &project_zero).unwrap();
    assert_eq!(data.chunks.len(), 1);
    assert!(data.chunks[0].nodes.get(1).is_some());
}

#[test]
fn untagged_node_only_records_location() {
    let doc = document(vec![node(7, 1.5, 2.5, &[])]);
    let data = convert_osm_json(&doc, &identity).unwrap();
    assert!(data.chunks.is_empty());
    assert_eq!(data.node_locations.get(7), Some(&GeoLocation { longitude: 15_000_000, latitude: 25_000_000 }));
}

#[test]
fn way_classification_follows_tag_priority() {
    let doc = document(vec![
        node(1, 0.0, 0.0, &[]),
        way(10, &[1], &[("highway", "primary"), ("building", "yes")]),
        way(11, &[1], &[("highway", "primary"), ("waterway", "river")]),
        way(12, &[1], &[("highway", "primary"), ("landuse", "grass")]),
        way(13, &[1], &[("landuse", "grass"), ("natural", "water")]),
        way(14, &[1], &[("natural", "water")]),
        way(15, &[1], &[("natural", "wood")]),
    ]);
    let data = convert_osm_json(&doc, &identity).unwrap();
    assert_eq!(data.chunks.len(), 1);
    let c = &data.chunks[0];
    assert!(c.building_features.get(10).is_some());
    assert!(c.river_features.get(11).is_some());
    assert!(c.road_features.get(12).is_some());
    assert!(c.land_use_features.get(13).is_some());
    assert!(c.lake_features.get(14).is_some());
    for id in [15u64] {
        assert!(c.building_features.get(id).is_none());
        assert!(c.road_features.get(id).is_none());
        assert!(c.land_use_features.get(id).is_none());
        assert!(c.lake_features.get(id).is_none());
        assert!(c.river_features.get(id).is_none());
    }
}

#[test]
fn way_is_placed_by_mean_of_located_nodes() {
    // nodes 1 and 2 are 2 chunks apart; node 99 has no location and is skipped
    let doc = document(vec![
        node(1, 0.0, 0.0, &[]),
        node(2, 0.16, 0.0, &[]),
        way(5, &[1, 99, 2], &[("highway", "residential")]),
    ]);
    let data = convert_osm_json(&doc, &identity).unwrap();
    // mean longitude 800_000 units: chunk 1
    let c = data.find_chunk(ChunkIndex { x: 1, z: 0 }).unwrap();
    let f = data.chunks[c].road_features.get(5).unwrap();
    assert_eq!(f.nodes, vec![1, 99, 2]);
    assert_eq!(data.chunks.len(), 1);
}

#[test]
fn way_without_located_nodes_is_dropped() {
    let doc = document(vec![way(5, &[3, 4], &[("highway", "residential")])]);
    let data = convert_osm_json(&doc, &identity).unwrap();
    assert!(data.chunks.is_empty());
    assert!(data.is_empty());
}

#[test]
fn mean_rounds_down() {
    let doc = document(vec![
        object(vec![("type", text("node")), ("id", integer(1)), ("lon", degrees(-0.0000001)), ("lat", degrees(0.0))]),
        node(2, 0.0, 0.0, &[]),
        way(5, &[1, 2], &[("building", "house")]),
    ]);
    // mean longitude is -0.5 units, rounded down to -1: chunk -1
    let data = convert_osm_json(&doc, &identity).unwrap();
    assert!(data.find_chunk(ChunkIndex { x: -1, z: 0 }).is_some());
}

#[test]
fn relations_and_unknown_types_are_ignored() {
    let doc = document(vec![
        object(vec![("type", text("relation")), ("id", integer(3)), ("tags", tags(&[("building", "yes")]))]),
        object(vec![("type", text("area")), ("id", integer(4))]),
    ]);
    let data = convert_osm_json(&doc, &identity).unwrap();
    assert!(data.is_empty());
}

#[test]
fn root_must_be_object() {
    assert_data_syntax(convert_osm_json(&JsonValue::Array(vec![]), &identity));
}

#[test]
fn root_needs_elements_array() {
    assert_data_syntax(convert_osm_json(&object(vec![("elements", integer(3))]), &identity));
    assert_data_syntax(convert_osm_json(&object(vec![]), &identity));
}

#[test]
fn element_must_be_object() {
    assert_data_syntax(convert_osm_json(&document(vec![text("node")]), &identity));
}

#[test]
fn element_needs_string_type() {
    assert_data_syntax(convert_osm_json(&document(vec![object(vec![("id", integer(1))])]), &identity));
    assert_data_syntax(convert_osm_json(&document(vec![object(vec![("type", integer(1)), ("id", integer(1))])]), &identity));
}

#[test]
fn element_needs_integer_id() {
    let neg = JsonValue::Number(JsonNumber { unsigned: None, degrees_e7: Some(-10_000_000) });
    assert_data_syntax(convert_osm_json(&document(vec![object(vec![("type", text("way")), ("id", neg)])]), &identity));
    assert_data_syntax(convert_osm_json(&document(vec![object(vec![("type", text("node"))])]), &identity));
}

#[test]
fn tags_must_map_strings_to_strings() {
    let bad = object(vec![("type", text("relation")), ("id", integer(1)), ("tags", object(vec![("k", integer(2))]))]);
    assert_data_syntax(convert_osm_json(&document(vec![bad]), &identity));
    let not_object = object(vec![("type", text("relation")), ("id", integer(1)), ("tags", text("x"))]);
    assert_data_syntax(convert_osm_json(&document(vec![not_object]), &identity));
}

#[test]
fn tagged_node_needs_location() {
    let n = object(vec![("type", text("node")), ("id", integer(1)), ("tags", tags(&[("amenity", "bench")]))]);
    assert_data_syntax(convert_osm_json(&document(vec![n]), &identity));
}

#[test]
fn way_needs_integer_nodes() {
    let no_nodes = object(vec![("type", text("way")), ("id", integer(1))]);
    assert_data_syntax(convert_osm_json(&document(vec![no_nodes]), &identity));
    let frac = JsonValue::Number(JsonNumber { unsigned: None, degrees_e7: Some(15_000_000) });
    let bad = object(vec![("type", text("way")), ("id", integer(1)), ("nodes", JsonValue::Array(vec![integer(1), frac]))]);
    assert_data_syntax(convert_osm_json(&document(vec![bad]), &identity));
}

#[test]
fn later_node_location_replaces_earlier() {
    let doc = document(vec![node(1, 1.0, 1.0, &[]), node(1, 2.0, 2.0, &[])]);
    let data = convert_osm_json(&doc, &identity).unwrap();
    assert_eq!(data.node_locations.get(1), Some(&GeoLocation { longitude: 20_000_000, latitude: 20_000_000 }));
}

#[test]
fn feature_type_classifier() {
    let t = Tags { entries: vec![("natural".to_string(), "water".to_string())] };
    assert_eq!(find_feature_type(&t), Some(FeatureType::Lake));
    let t = Tags { entries: vec![("natural".to_string(), "wood".to_string())] };
    assert_eq!(find_feature_type(&t), None);
}

#[test]
fn every_chunk_holds_something_and_relations_change_nothing() {
    let base = || {
        vec![
            node(1, 0.0, 0.0, &[]),
            node(2, 0.16, 0.0, &[("amenity", "bench")]),
            way(5, &[1, 2], &[("building", "house")]),
            way(6, &[99], &[("highway", "primary")]),
        ]
    };
    let mut with_relation = base();
    with_relation.push(object(vec![("type", text("relation")), ("id", integer(9))]));
    let a = convert_osm_json(&document(base()), &identity).unwrap();
    let b = convert_osm_json(&document(with_relation), &identity).unwrap();
    for data in [&a, &b] {
        assert_eq!(data.chunks.len(), 2);
        for c in &data.chunks {
            let n = c.nodes.len() + c.building_features.len() + c.road_features.len() + c.land_use_features.len()
                + c.lake_features.len() + c.river_features.len();
            assert!(n > 0);
        }
    }
    let ia: Vec<ChunkIndex> = a.chunks.iter().map(|c| c.index).collect();
    let ib: Vec<ChunkIndex> = b.chunks.iter().map(|c| c.index).collect();
    assert_eq!(ia, ib);
}

#[test]
fn error_carries_no_position() {
    let n = object(vec![("type", text("node")), ("id", integer(7)), ("tags", tags(&[("amenity", "bench")]))]);
    match convert_osm_json(&document(vec![n]), &identity) {
        Err(AppError::DataSyntax { line, character, .. }) => {
            assert_eq!(line, None);
            assert_eq!(character, None);
        },
        _ => panic!("expected a data syntax error"),
    }
}

use city_model::geography::{GeoData, GeoLocation, PlanarPoint};
use city_model::id_map::IdMap;
use city_model::json::{JsonNumber, JsonValue};
use city_model::osm::convert_osm_json;
use city_model::recenter::{find_bounds, offset_too_far, Offset, World, MAX_DISTANCE};

fn identity(l: GeoLocation) -> PlanarPoint {
    PlanarPoint { x: l.longitude as i64, y: l.latitude as i64 }
}

fn num(v: i32) -> JsonValue {
    JsonValue::Number(JsonNumber { unsigned: if v >= 0 { Some(v as u64) } else { None }, degrees_e7: Some(v) })
}

fn s(v: &str) -> JsonValue {
    JsonValue::String(v.to_string())
}

fn batch(first_id: u64, x: i32) -> GeoData {
    let node = |id: u64, lon: i32| {
        JsonValue::Object(vec![
            ("type".to_string(), s("node")),
            ("id".to_string(), num(id as i32)),
            ("lon".to_string(), num(lon)),
            ("lat".to_string(), num(0)),
        ])
    };
    let way = JsonValue::Object(vec![
        ("type".to_string(), s("way")),
        ("id".to_string(), num(first_id as i32 + 100)),
        ("nodes".to_string(), JsonValue::Array(vec![num(first_id as i32), num(first_id as i32 + 1)])),
        ("tags".to_string(), JsonValue::Object(vec![("highway".to_string(), s("primary"))])),
    ]);
    let doc = JsonValue::Object(vec![(
        "elements".to_string(),
        JsonValue::Array(vec![node(first_id, x), node(first_id + 1, x + 10), way]),
    )]);
    convert_osm_json(&doc, &identity).unwrap()
}

#[test]
fn first_batch_sets_origin() {
    let mut w = World::new();
    assert!(w.begin_batch(Offset { x: 5, y: 6 }));
    assert_eq!(w.offset, Some(Offset { x: 5, y: 6 }));
    assert_eq!(w.traffic_graph.get_size(), 0);
}

#[test]
fn near_batch_is_additive_far_batch_resets() {
    let mut w = World::new();
    assert!(w.begin_batch(Offset { x: 0, y: 0 }));
    assert!(w.add_batch_roads(&batch(1, 0), &identity));
    assert_eq!(w.traffic_graph.get_size(), 2);
    assert!(!w.begin_batch(Offset { x: MAX_DISTANCE, y: 0 }));
    assert_eq!(w.offset, Some(Offset { x: 0, y: 0 }));
    assert!(w.add_batch_roads(&batch(10, 50), &identity));
    assert_eq!(w.traffic_graph.get_size(), 4);
    assert!(w.traffic_graph.get_index(1).is_some());
    assert!(w.begin_batch(Offset { x: MAX_DISTANCE, y: 1 }));
    assert_eq!(w.offset, Some(Offset { x: MAX_DISTANCE, y: 1 }));
    assert_eq!(w.traffic_graph.get_size(), 0);
}

#[test]
fn distance_threshold_is_euclidean() {
    let o = Some(Offset { x: 0, y: 0 });
    assert!(offset_too_far(None, Offset { x: 0, y: 0 }));
    assert!(!offset_too_far(o, Offset { x: 0, y: 0 }));
    assert!(!offset_too_far(o, Offset { x: 0, y: -MAX_DISTANCE }));
    assert!(offset_too_far(o, Offset { x: MAX_DISTANCE, y: MAX_DISTANCE / 2 }));
    assert!(!offset_too_far(o, Offset { x: 58_000_000_000, y: 59_000_000_000 }));
    assert!(offset_too_far(o, Offset { x: 59_000_000_000, y: 59_000_000_000 }));
    assert!(offset_too_far(o, Offset { x: i64::MAX, y: i64::MIN }));
}

#[test]
fn bounds_and_median() {
    let mut locs = IdMap::new();
    assert!(find_bounds(&locs).is_none());
    locs.insert(1, GeoLocation { longitude: 10, latitude: 10 });
    locs.insert(2, GeoLocation { longitude: -5, latitude: 3 });
    locs.insert(3, GeoLocation { longitude: 1000, latitude: -40 });
    locs.insert(4, GeoLocation { longitude: 7, latitude: 8 });
    let (lo, median, hi) = find_bounds(&locs).unwrap();
    assert_eq!(lo, GeoLocation { longitude: -5, latitude: -40 });
    assert_eq!(hi, GeoLocation { longitude: 1000, latitude: 10 });
    // sums: 20, -2, 960, 15; lower middle of four is 15
    assert_eq!(median, GeoLocation { longitude: 7, latitude: 8 });
    locs.insert(5, GeoLocation { longitude: 0, latitude: 0 });
    let (_, median, _) = find_bounds(&locs).unwrap();
    // sums: -2, 0, 15, 20, 960
    assert_eq!(median, GeoLocation { longitude: 7, latitude: 8 });
}

#[test]
fn id_map_replaces_values() {
    let mut m = IdMap::new();
    m.insert(3, "a");
    m.insert(4, "b");
    m.insert(3, "c");
    assert_eq!(m.len(), 2);
    assert_eq!(m.get(3), Some(&"c"));
    assert_eq!(m.entry_at(1), (4, &"b"));
    assert!(!m.contains_key(5));
}

use city_model::agent::{agent_speed_on_road_type, road_type_allowed_for_agent_type, AgentType};
use city_model::geography::{Feature, GeoLocation, PlanarPoint, Tags};
use city_model::id_map::IdMap;
use city_model::road_type::{road_type_to_default_lanes, RoadType};
use city_model::traffic_graph::{add_road, distance, edge_cost_of, update_traffic_graph, OneWay, TrafficGraph};

fn p(x: i64, y: i64) -> PlanarPoint {
    PlanarPoint { x, y }
}

fn identity(l: GeoLocation) -> PlanarPoint {
    PlanarPoint { x: l.longitude as i64, y: l.latitude as i64 }
}

fn road(nodes: &[u64], tags: &[(&str, &str)]) -> Feature {
    Feature {
        nodes: nodes.to_vec(),
        tags: Tags { entries: tags.iter().map(|(k, v)| (k.to_string(), v.to_string())).collect() },
    }
}

#[test]
fn add_node_is_idempotent() {
    let mut g = TrafficGraph::new();
    let a = g.add_node(10, p(0, 0));
    let b = g.add_node(20, p(5, 5));
    let a2 = g.add_node(10, p(9, 9));
    assert_eq!(a, a2);
    assert_ne!(a, b);
    assert_eq!(g.get_size(), 2);
    assert_eq!(g.get_node_location(a), p(0, 0));
    assert_eq!(g.get_index(20), Some(b));
    assert_eq!(g.get_index(30), None);
}

#[test]
fn two_way_connection_adds_both_edges() {
    let mut g = TrafficGraph::new();
    g.add_connection(1, p(0, 0), 2, p(3, 4), OneWay::No, RoadType::Residential);
    assert_eq!(g.get_edge_count(), 2);
    let a = g.get_index(1).unwrap();
    let b = g.get_index(2).unwrap();
    assert_eq!(g.get_edge(0), (5, RoadType::Residential));
    assert_eq!(g.get_edge(1), (5, RoadType::Residential));
    assert_eq!(g.get_road_type(a, b), RoadType::Residential);
    assert_eq!(g.get_road_type(b, a), RoadType::Residential);
}

#[test]
fn one_way_connections_follow_direction() {
    let mut g = TrafficGraph::new();
    g.add_connection(1, p(0, 0), 2, p(6, 8), OneWay::Yes, RoadType::Primary);
    g.add_connection(3, p(0, 0), 4, p(0, 2), OneWay::Reversed, RoadType::Path);
    assert_eq!(g.get_edge_count(), 2);
    let (a, b) = (g.get_index(1).unwrap(), g.get_index(2).unwrap());
    let (c, d) = (g.get_index(3).unwrap(), g.get_index(4).unwrap());
    assert_eq!(g.get_road_type(a, b), RoadType::Primary);
    assert_eq!(g.get_road_type(b, a), RoadType::NotCovered);
    assert_eq!(g.get_road_type(d, c), RoadType::Path);
    assert_eq!(g.get_road_type(c, d), RoadType::NotCovered);
    assert_eq!(g.get_edge(0).0, 10);
}

#[test]
fn duplicate_connections_are_kept() {
    let mut g = TrafficGraph::new();
    g.add_connection(1, p(0, 0), 2, p(1, 0), OneWay::Yes, RoadType::Primary);
    g.add_connection(1, p(0, 0), 2, p(1, 0), OneWay::Yes, RoadType::Primary);
    assert_eq!(g.get_edge_count(), 2);
    assert_eq!(g.get_size(), 2);
}

#[test]
fn distance_rounds_up() {
    assert_eq!(distance(p(0, 0), p(3, 4)), 5);
    assert_eq!(distance(p(0, 0), p(1, 1)), 2);
    assert_eq!(distance(p(-2, -2), p(-2, -2)), 0);
}

#[test]
fn disallowed_category_path_is_found_at_higher_cost() {
    let mut g = TrafficGraph::new();
    g.add_connection(1, p(0, 0), 2, p(100, 0), OneWay::Yes, RoadType::Motorway);
    g.add_connection(2, p(100, 0), 3, p(200, 0), OneWay::Yes, RoadType::Motorway);
    let a = g.get_index(1).unwrap();
    let b = g.get_index(2).unwrap();
    let c = g.get_index(3).unwrap();
    assert_eq!(g.get_shortest_path(a, c, AgentType::Pedestrian), Some(vec![a, b, c]));
    assert_eq!(g.get_shortest_path(a, c, AgentType::Car), Some(vec![a, b, c]));
    assert_eq!(g.get_shortest_path(c, a, AgentType::Car), None);
    let walk = edge_cost_of(100, RoadType::Motorway, AgentType::Pedestrian);
    let drive = edge_cost_of(100, RoadType::Motorway, AgentType::Car);
    assert_eq!(walk, 2_400_000);
    assert_eq!(drive, 1_000);
    assert!(walk > drive);
}

#[test]
fn router_prefers_allowed_roads() {
    // a direct motorway and a longer footway detour between the same points
    let mut g = TrafficGraph::new();
    g.add_connection(1, p(0, 0), 3, p(300, 0), OneWay::No, RoadType::Motorway);
    g.add_connection(1, p(0, 0), 2, p(150, 100), OneWay::No, RoadType::Footway);
    g.add_connection(2, p(150, 100), 3, p(300, 0), OneWay::No, RoadType::Footway);
    let a = g.get_index(1).unwrap();
    let b = g.get_index(2).unwrap();
    let c = g.get_index(3).unwrap();
    assert_eq!(g.get_shortest_path(a, c, AgentType::Pedestrian), Some(vec![a, b, c]));
    assert_eq!(g.get_shortest_path(a, c, AgentType::Car), Some(vec![a, c]));
}

#[test]
fn path_to_self_and_disconnected() {
    let mut g = TrafficGraph::new();
    let a = g.add_node(1, p(0, 0));
    let b = g.add_node(2, p(10, 0));
    assert_eq!(g.get_shortest_path(a, a, AgentType::Car), Some(vec![a]));
    assert_eq!(g.get_shortest_path(a, b, AgentType::Car), None);
}

#[test]
fn reset_clears_graph() {
    let mut g = TrafficGraph::new();
    g.add_connection(1, p(0, 0), 2, p(3, 4), OneWay::No, RoadType::Residential);
    g.reset();
    assert_eq!(g.get_size(), 0);
    assert_eq!(g.get_edge_count(), 0);
    assert_eq!(g.get_index(1), None);
}

#[test]
fn random_node_is_a_vertex() {
    let mut g = TrafficGraph::new();
    g.add_node(1, p(0, 0));
    g.add_node(2, p(1, 0));
    for _ in 0..20 {
        assert!(g.get_random_node_index() < 2);
    }
}

#[test]
fn road_chain_skips_unlocated_nodes() {
    let mut locs = IdMap::new();
    locs.insert(1, GeoLocation { longitude: 0, latitude: 0 });
    locs.insert(3, GeoLocation { longitude: 30, latitude: 40 });
    let mut g = TrafficGraph::new();
    assert!(add_road(&mut g, &locs, &road(&[1, 2, 3], &[("highway", "Residential"), ("oneway", "yes")]), &identity));
    assert_eq!(g.get_size(), 2);
    assert_eq!(g.get_edge_count(), 1);
    assert_eq!(g.get_edge(0), (50, RoadType::Residential));
    assert_eq!(g.get_index(2), None);
}

#[test]
fn road_defaults_two_way_uncategorised() {
    let mut locs = IdMap::new();
    locs.insert(1, GeoLocation { longitude: 0, latitude: 0 });
    locs.insert(2, GeoLocation { longitude: 0, latitude: 7 });
    let mut roads = IdMap::new();
    roads.insert(9, road(&[1, 2], &[]));
    roads.insert(10, road(&[2, 1], &[("highway", "cycleway"), ("oneway", "-1")]));
    let mut g = TrafficGraph::new();
    assert!(update_traffic_graph(&locs, &roads, &mut g, &identity));
    assert_eq!(g.get_size(), 2);
    assert_eq!(g.get_edge_count(), 3);
    assert_eq!(g.get_edge(0), (7, RoadType::NotCovered));
    assert_eq!(g.get_edge(2), (7, RoadType::NotCovered));
    let (a, b) = (g.get_index(1).unwrap(), g.get_index(2).unwrap());
    assert_eq!(g.get_road_type(a, b), RoadType::NotCovered);
}

#[test]
fn agent_tables() {
    assert!(road_type_allowed_for_agent_type(RoadType::Motorway, AgentType::Car));
    assert!(!road_type_allowed_for_agent_type(RoadType::Footway, AgentType::Car));
    assert!(road_type_allowed_for_agent_type(RoadType::Footway, AgentType::Pedestrian));
    assert!(!road_type_allowed_for_agent_type(RoadType::Primary, AgentType::Pedestrian));
    assert_eq!(agent_speed_on_road_type(5, AgentType::Car, RoadType::Motorway), 120);
    assert_eq!(agent_speed_on_road_type(5, AgentType::Car, RoadType::Secondary), 80);
    assert_eq!(agent_speed_on_road_type(5, AgentType::Car, RoadType::Footway), 30);
    assert_eq!(agent_speed_on_road_type(5, AgentType::Pedestrian, RoadType::Motorway), 5);
    assert_eq!(road_type_to_default_lanes(&RoadType::Motorway), 4);
    assert_eq!(road_type_to_default_lanes(&RoadType::Trunk), 3);
    assert_eq!(road_type_to_default_lanes(&RoadType::Path), 1);
}

#[test]
fn new_vertices_lie_at_projections() {
    let mut locs = IdMap::new();
    locs.insert(1, GeoLocation { longitude: 0, latitude: 0 });
    locs.insert(2, GeoLocation { longitude: 10, latitude: 0 });
    let mut roads = IdMap::new();
    roads.insert(10, road(&[1, 99, 2], &[]));
    let shifted = |l: GeoLocation| PlanarPoint { x: l.longitude as i64 * 3, y: l.latitude as i64 + 4 };
    let mut g = TrafficGraph::new();
    assert!(update_traffic_graph(&locs, &roads, &mut g, &shifted));
    assert_eq!(g.get_size(), 2);
    assert_eq!(g.get_index(99), None);
    let (a, b) = (g.get_index(1).unwrap(), g.get_index(2).unwrap());
    assert_eq!(g.get_node_location(a), p(0, 4));
    assert_eq!(g.get_node_location(b), p(30, 4));
    assert_eq!(g.get_edge_count(), 2);
    assert_eq!(g.get_edge(0), (30, RoadType::NotCovered));
    assert_eq!(g.get_edge(1), (30, RoadType::NotCovered));
}

#[test]
fn existing_vertices_keep_locations() {
    let mut locs = IdMap::new();
    locs.insert(1, GeoLocation { longitude: 0, latitude: 0 });
    locs.insert(2, GeoLocation { longitude: 0, latitude: 6 });
    let mut g = TrafficGraph::new();
    let a = g.add_node(1, p(100, 100));
    assert!(add_road(&mut g, &locs, &road(&[1, 2], &[("oneway", "yes")]), &identity));
    assert_eq!(g.get_node_location(a), p(100, 100));
    assert_eq!(g.get_size(), 2);
    assert_eq!(g.get_edge(0), (6, RoadType::NotCovered));
}

#[test]
fn route_has_no_repeated_vertex() {
    let mut g = TrafficGraph::new();
    g.add_connection(1, p(0, 0), 2, p(10, 0), OneWay::No, RoadType::Residential);
    g.add_connection(2, p(10, 0), 3, p(20, 0), OneWay::No, RoadType::Residential);
    g.add_connection(3, p(20, 0), 1, p(0, 0), OneWay::No, RoadType::Residential);
    let a = g.get_index(1).unwrap();
    let c = g.get_index(3).unwrap();
    let path = g.get_shortest_path(a, c, AgentType::Car).unwrap();
    let mut seen = path.clone();
    seen.sort();
    seen.dedup();
    assert_eq!(seen.len(), path.len());
    assert_eq!(path, vec![a, c]);
}

//! Geographic ingestion and routing core: OSM-style document conversion,
//! spatial chunking, polygon simplification and a traffic graph with A*.

mod text;
pub mod id_map;
pub mod common;
pub mod json;
pub mod road_type;
pub mod geography;
pub mod osm;
pub mod query;
pub mod recenter;
pub mod simplification;
pub mod agent;
pub mod building_type;
pub mod graph_store;
pub mod traffic_graph;

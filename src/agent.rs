//! Agent classes: which roads they may use and how fast they move on them.

use vstd::prelude::*;
use crate::road_type::RoadType;

verus! {

/// The classes of routing consumers.
#[derive(Clone, Copy, Debug, PartialEq, Eq, Structural)]
pub enum AgentType {
    Car,
    Pedestrian,
}

/// How many times the reference (walking) speed an agent class moves on a
/// road category.
pub open spec fn speed_multiplier(agent_type: AgentType, road_type: RoadType) -> u64 {
    match agent_type {
        AgentType::Car => match road_type {
            RoadType::Motorway | RoadType::Trunk => 24,
            RoadType::Primary => 20,
            RoadType::Secondary => 16,
            RoadType::Tertiary => 12,
            _ => 6,
        },
        AgentType::Pedestrian => 1,
    }
}

/// The speed multiplier of an agent class on a road category.
pub fn speed_multiplier_of(agent_type: AgentType, road_type: RoadType) -> (r: u64)
    ensures
        r == speed_multiplier(agent_type, road_type),
        1 <= r <= 24,
{
    match agent_type {
        AgentType::Car => match road_type {
            RoadType::Motorway => 24,
            RoadType::Trunk => 24,
            RoadType::Primary => 20,
            RoadType::Secondary => 16,
            RoadType::Tertiary => 12,
            RoadType::Residential => 6,
            RoadType::Unclassified => 6,
            _ => 6,
        },
        AgentType::Pedestrian => 1,
    }
}

/// The speed of an agent class on a road category, given the reference
/// speed of a pedestrian.
pub fn agent_speed_on_road_type(reference_speed: u64, agent_type: AgentType, road_type: RoadType) -> (r: u64)
    requires
        reference_speed <= u64::MAX / 24,
    ensures
        r == speed_multiplier(agent_type, road_type) * reference_speed,
{
    speed_multiplier_of(agent_type, road_type) * reference_speed
}

/// Whether an agent class may use a road category without penalty.
pub open spec fn road_allowed(road_type: RoadType, agent_type: AgentType) -> bool {
    match agent_type {
        AgentType::Car => match road_type {
            RoadType::Footway | RoadType::Steps | RoadType::Path | RoadType::Unclassified => false,
            _ => true,
        },
        AgentType::Pedestrian => match road_type {
            RoadType::Tertiary | RoadType::Residential | RoadType::Footway | RoadType::Steps
            | RoadType::Path | RoadType::Unclassified | RoadType::NotCovered => true,
            _ => false,
        },
    }
}

/// Whether an agent class may use a road category without penalty.
pub fn road_type_allowed_for_agent_type(road_type: RoadType, agent_type: AgentType) -> (r: bool)
    ensures
        r == road_allowed(road_type, agent_type),
{
    match agent_type {
        AgentType::Car => match road_type {
            RoadType::Motorway => true,
            RoadType::Trunk => true,
            RoadType::Primary => true,
            RoadType::Secondary => true,
            RoadType::Tertiary => true,
            RoadType::Residential => true,
            RoadType::TrunkLink => true,
            RoadType::PrimaryLink => true,
            RoadType::SecondaryLink => true,
            RoadType::TertiaryLink => true,
            RoadType::MotorwayLink => true,
            RoadType::NotCovered => true,
            _ => false,
        },
        AgentType::Pedestrian => match road_type {
            RoadType::Tertiary => true,
            RoadType::Residential => true,
            RoadType::Footway => true,
            RoadType::Steps => true,
            RoadType::Path => true,
            RoadType::Unclassified => true,
            RoadType::NotCovered => true,
            _ => false,
        },
    }
}

} // verus!

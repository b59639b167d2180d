//! The routing graph: construction from road features and A* queries.

use vstd::prelude::*;
use std::collections::HashMap;
use crate::agent::{road_allowed, road_type_allowed_for_agent_type, speed_multiplier, speed_multiplier_of, AgentType};
use crate::geography::{point_in_range, tag_lookup, Feature, GeoLocation, PlanarPoint, RoadFeature, COORD_LIMIT};
use crate::id_map::IdMap;
use crate::road_type::road_type_of;
use crate::graph_store::{
    graph_add_edge, graph_add_node, graph_clear, graph_edge_count, graph_edge_weight, graph_edges,
    admissible, graph_astar, graph_find_edge, graph_new, graph_node_count, has_edge, is_route, is_walk,
    walk_along, walk_cost, graph_vertex, graph_vertices, GraphEdge, RoadGraph,
    GRAPH_INDEX_LIMIT,
};
use crate::road_type::RoadType;
use crate::text::str_eq;

verus! {

broadcast use vstd::std_specs::hash::group_hash_axioms;

/// Factor by which the cost of a road that an agent class may not use is raised.
pub const COST_MULTIPLIER_DISALLOWED: u64 = 100;

/// Common multiple of all speed multipliers: an edge's cost is its length
/// times this, divided by the speed multiplier, so that it stays exact.
pub const TIME_SCALE: u64 = 240;

/// Longest edge that points within the coordinate limit can give.
pub const MAX_EDGE_LENGTH: u64 = 0x4000_0000_0000_0000;

/// Direction of travel that a road allows.
#[derive(Clone, Copy, Debug, PartialEq, Eq, Structural)]
pub enum OneWay {
    Yes,
    No,
    Reversed,
}

/// The direction named by a `oneway` value; unknown values mean two-way.
pub open spec fn one_way_of(s: Seq<char>) -> OneWay {
    if s == "yes"@ || s == "true"@ || s == "1"@ {
        OneWay::Yes
    } else if s == "-1"@ || s == "reverse"@ {
        OneWay::Reversed
    } else {
        OneWay::No
    }
}

impl OneWay {
    /// Reads a `oneway` value; never fails.
    pub fn from_tag(s: &str) -> (r: OneWay)
        ensures
            r == one_way_of(s@),
    {
        if str_eq(s, "yes") || str_eq(s, "true") || str_eq(s, "1") {
            OneWay::Yes
        } else if str_eq(s, "-1") || str_eq(s, "reverse") {
            OneWay::Reversed
        } else {
            OneWay::No
        }
    }
}

/// Squared Euclidean distance of two points.
pub open spec fn dist2(a: PlanarPoint, b: PlanarPoint) -> int {
    (a.x - b.x) * (a.x - b.x) + (a.y - b.y) * (a.y - b.y)
}

/// `r` is the square root of `n`, rounded up.
pub open spec fn is_ceil_sqrt(n: int, r: int) -> bool {
    &&& r >= 0
    &&& r * r >= n
    &&& (r == 0 || (r - 1) * (r - 1) < n)
}

/// Square root rounded up.
fn ceil_sqrt(n: u128) -> (r: u64)
    requires
        n <= 0x1000_0000_0000_0000_0000_0000_0000_0000,
    ensures
        is_ceil_sqrt(n as int, r as int),
        r <= 0x4000_0000_0000_0000,
{
    if n == 0 {
        return 0;
    }
    let mut lo: u128 = 0;
    let mut hi: u128 = 0x4000_0000_0000_0000;
    assert(hi * hi == 0x1000_0000_0000_0000_0000_0000_0000_0000) by (nonlinear_arith)
        requires
            hi == 0x4000_0000_0000_0000u128,
    ;
    while hi - lo > 1
        invariant
            lo < hi <= 0x4000_0000_0000_0000,
            lo * lo < n,
            hi * hi >= n,
        decreases hi - lo,
    {
        let mid = lo + (hi - lo) / 2;
        assert(mid * mid <= 0x1000_0000_0000_0000_0000_0000_0000_0000) by (nonlinear_arith)
            requires
                mid <= 0x4000_0000_0000_0000u128,
        ;
        if mid * mid >= n {
            hi = mid;
        } else {
            lo = mid;
        }
    }
    hi as u64
}

/// Euclidean distance of two points, rounded up.
pub fn distance(a: PlanarPoint, b: PlanarPoint) -> (r: u64)
    requires
        point_in_range(a),
        point_in_range(b),
    ensures
        is_ceil_sqrt(dist2(a, b), r as int),
        r <= 0x4000_0000_0000_0000,
{
    let dx = a.x as i128 - b.x as i128;
    let dy = a.y as i128 - b.y as i128;
    let lim: i128 = 2 * COORD_LIMIT as i128;
    assert(dx * dx <= lim * lim && dy * dy <= lim * lim) by (nonlinear_arith)
        requires
            -lim <= dx <= lim,
            -lim <= dy <= lim,
    ;
    assert(lim * lim == 0x400_0000_0000_0000_0000_0000_0000_0000) by (nonlinear_arith)
        requires
            lim == 0x2000_0000_0000_0000i128,
    ;
    assert(dx * dx >= 0 && dy * dy >= 0) by (nonlinear_arith);
    let d2 = (dx * dx + dy * dy) as u128;
    ceil_sqrt(d2)
}

/// The cost for an agent class of an edge of the given length and category:
/// the length, raised by the penalty when the class may not use the
/// category, divided by the class's speed on it.
pub open spec fn edge_cost(length: u64, road_type: RoadType, agent_type: AgentType) -> int {
    let penalty: int = if road_allowed(road_type, agent_type) {
        1
    } else {
        COST_MULTIPLIER_DISALLOWED as int
    };
    length * penalty * TIME_SCALE / speed_multiplier(agent_type, road_type) as int
}

/// The routing cost of an edge for an agent class.
pub fn edge_cost_of(length: u64, road_type: RoadType, agent_type: AgentType) -> (r: u128)
    requires
        length <= 0x4000_0000_0000_0000,
    ensures
        r as int == edge_cost(length, road_type, agent_type),
        r < 0x1_0000_0000_0000_0000_0000,
{
    let penalty: u128 = if road_type_allowed_for_agent_type(road_type, agent_type) {
        1
    } else {
        COST_MULTIPLIER_DISALLOWED as u128
    };
    let m = speed_multiplier_of(agent_type, road_type) as u128;
    assert(length as u128 * penalty <= 0x4000_0000_0000_0000 * 100) by (nonlinear_arith)
        requires
            length <= 0x4000_0000_0000_0000,
            penalty <= 100,
    ;
    let base = length as u128 * penalty;
    let r = base * TIME_SCALE as u128 / m;
    assert((base * 240) as int / m as int <= (base * 240) as int) by (nonlinear_arith)
        requires
            m >= 1,
            base >= 0,
    ;
    r
}

/// The cost for an agent class of the edges `es`, in order.
pub open spec fn route_cost(edges: Seq<GraphEdge>, es: Seq<int>, agent_type: AgentType) -> int
    decreases es.len(),
{
    if es.len() == 0 {
        0
    } else {
        edge_cost(edges[es[0]].2, edges[es[0]].3, agent_type) + route_cost(edges, es.drop_first(), agent_type)
    }
}

/// The sum of the lengths of the edges `es`.
pub open spec fn length_sum(edges: Seq<GraphEdge>, es: Seq<int>) -> int
    decreases es.len(),
{
    if es.len() == 0 {
        0
    } else {
        edges[es[0]].2 + length_sum(edges, es.drop_first())
    }
}

/// Every index of `es` is an edge.
pub open spec fn valid_edges(edges: Seq<GraphEdge>, es: Seq<int>) -> bool {
    forall|k: int| 0 <= k < es.len() ==> 0 <= #[trigger] es[k] < edges.len()
}

proof fn lemma_square_nonneg(x: int)
    ensures
        x * x >= 0,
{
    assert(x * x >= 0) by (nonlinear_arith);
}

proof fn lemma_cauchy_schwarz(ax: int, ay: int, bx: int, by_: int)
    ensures
        (ax * bx + ay * by_) * (ax * bx + ay * by_) <= (ax * ax + ay * ay) * (bx * bx + by_ * by_),
{
    let u = ax * bx;
    let w = ay * by_;
    let m = ax * by_;
    let n = ay * bx;
    assert(u * w == m * n) by (nonlinear_arith)
        requires
            u == ax * bx,
            w == ay * by_,
            m == ax * by_,
            n == ay * bx,
    ;
    assert((ax * ax) * (bx * bx) == u * u) by (nonlinear_arith)
        requires
            u == ax * bx,
    ;
    assert((ay * ay) * (by_ * by_) == w * w) by (nonlinear_arith)
        requires
            w == ay * by_,
    ;
    assert((ax * ax) * (by_ * by_) == m * m) by (nonlinear_arith)
        requires
            m == ax * by_,
    ;
    assert((ay * ay) * (bx * bx) == n * n) by (nonlinear_arith)
        requires
            n == ay * bx,
    ;
    let sa1 = ax * ax;
    let sa2 = ay * ay;
    let sb1 = bx * bx;
    let sb2 = by_ * by_;
    assert((sa1 + sa2) * (sb1 + sb2) == sa1 * sb1 + sa1 * sb2 + sa2 * sb1 + sa2 * sb2) by (nonlinear_arith);
    assert((u + w) * (u + w) == u * u + 2 * (u * w) + w * w) by (nonlinear_arith);
    let t = m - n;
    assert(t * t == m * m - 2 * (m * n) + n * n) by (nonlinear_arith)
        requires
            t == m - n,
    ;
    lemma_square_nonneg(t);
}

/// Triangle inequality for integer vectors whose lengths are bounded by
/// integers.
proof fn lemma_triangle(ax: int, ay: int, bx: int, by_: int, la: int, lb: int)
    requires
        ax * ax + ay * ay <= la * la,
        bx * bx + by_ * by_ <= lb * lb,
        la >= 0,
        lb >= 0,
    ensures
        (ax + bx) * (ax + bx) + (ay + by_) * (ay + by_) <= (la + lb) * (la + lb),
{
    let dot = ax * bx + ay * by_;
    let sa = ax * ax + ay * ay;
    let sb = bx * bx + by_ * by_;
    let qa = la * la;
    let qb = lb * lb;
    lemma_cauchy_schwarz(ax, ay, bx, by_);
    lemma_square_nonneg(ax);
    lemma_square_nonneg(ay);
    lemma_square_nonneg(bx);
    lemma_square_nonneg(by_);
    vstd::arithmetic::mul::lemma_mul_inequality(sa, qa, sb);
    lemma_square_nonneg(la);
    vstd::arithmetic::mul::lemma_mul_inequality(sb, qb, qa);
    assert(sb * qa == qa * sb) by (nonlinear_arith);
    assert(dot * dot <= qa * qb);
    assert(qa * qb == (la * lb) * (la * lb)) by (nonlinear_arith)
        requires
            qa == la * la,
            qb == lb * lb,
    ;
    assert(la * lb >= 0) by (nonlinear_arith)
        requires
            la >= 0,
            lb >= 0,
    ;
    let p = la * lb;
    assert(dot <= p) by (nonlinear_arith)
        requires
            dot * dot <= p * p,
            p >= 0,
    ;
    assert((ax + bx) * (ax + bx) + (ay + by_) * (ay + by_) == sa + 2 * dot + sb) by (nonlinear_arith)
        requires
            dot == ax * bx + ay * by_,
            sa == ax * ax + ay * ay,
            sb == bx * bx + by_ * by_,
    ;
    assert((la + lb) * (la + lb) == qa + 2 * p + qb) by (nonlinear_arith)
        requires
            qa == la * la,
            qb == lb * lb,
            p == la * lb,
    ;
}

proof fn lemma_cost_covers_length(length: u64, road_type: RoadType, agent_type: AgentType)
    ensures
        edge_cost(length, road_type, agent_type) >= length,
{
    let penalty: int = if road_allowed(road_type, agent_type) {
        1
    } else {
        COST_MULTIPLIER_DISALLOWED as int
    };
    let m = speed_multiplier(agent_type, road_type) as int;
    let x = length * penalty * 240;
    assert(1 <= m <= 24);
    assert(x >= length * 240) by (nonlinear_arith)
        requires
            x == length * penalty * 240,
            penalty >= 1,
            length >= 0,
    ;
    assert(x / m >= x / 24) by {
        vstd::arithmetic::div_mod::lemma_div_is_ordered_by_denominator(x, m, 24);
    }
    assert(x / 24 >= (length * 240) / 24) by {
        vstd::arithmetic::div_mod::lemma_div_is_ordered(length * 240, x, 24);
    }
    assert((length * 240) / 24 == length * 10) by {
        vstd::arithmetic::div_mod::lemma_div_by_multiple(length * 10, 24);
    }
}

proof fn lemma_ceil_bounded(d2: int, r: int, len: int)
    requires
        is_ceil_sqrt(d2, r),
        d2 <= len * len,
        len >= 0,
    ensures
        r <= len,
{
    if r > len {
        assert((r - 1) * (r - 1) >= len * len) by (nonlinear_arith)
            requires
                r - 1 >= len,
                len >= 0,
        ;
    }
}

proof fn lemma_walk_cost_is_route_cost(edges: Seq<GraphEdge>, costs: Seq<u128>, es: Seq<int>, agent_type: AgentType)
    requires
        valid_edges(edges, es),
        costs.len() == edges.len(),
        forall|e: int| 0 <= e < costs.len() ==> #[trigger] costs[e] as int == edge_cost(edges[e].2, edges[e].3, agent_type),
    ensures
        walk_cost(costs, es) == route_cost(edges, es, agent_type),
    decreases es.len(),
{
    if es.len() > 0 {
        assert(0 <= es[0] < edges.len());
        assert forall|k: int| 0 <= k < es.drop_first().len() implies 0 <= #[trigger] es.drop_first()[k] < edges.len() by {
            assert(es.drop_first()[k] == es[k + 1]);
        }
        lemma_walk_cost_is_route_cost(edges, costs, es.drop_first(), agent_type);
    }
}

proof fn lemma_walk_valid(edges: Seq<GraphEdge>, es: Seq<int>, from: usize, to: usize)
    requires
        is_walk(edges, es, from, to),
    ensures
        valid_edges(edges, es),
    decreases es.len(),
{
    if es.len() > 0 {
        lemma_walk_valid(edges, es.drop_first(), edges[es[0]].1, to);
        assert forall|k: int| 0 <= k < es.len() implies 0 <= #[trigger] es[k] < edges.len() by {
            if k > 0 {
                assert(es[k] == es.drop_first()[k - 1]);
            }
        }
    }
}

/// Along a walk, the straight-line distance between its ends is at most
/// the sum of the edge lengths, when each edge is at least as long as the
/// distance between its endpoints.
proof fn lemma_walk_length(
    edges: Seq<GraphEdge>,
    verts: Seq<PlanarPoint>,
    es: Seq<int>,
    v: usize,
    goal: usize,
)
    requires
        is_walk(edges, es, v, goal),
        v < verts.len(),
        goal < verts.len(),
        forall|e: int| 0 <= e < edges.len() ==> (#[trigger] edges[e]).0 < verts.len() && edges[e].1 < verts.len(),
        forall|e: int|
            0 <= e < edges.len() ==> dist2(verts[(#[trigger] edges[e]).0 as int], verts[edges[e].1 as int]) <= edges[e].2
                * edges[e].2,
    ensures
        length_sum(edges, es) >= 0,
        dist2(verts[v as int], verts[goal as int]) <= length_sum(edges, es) * length_sum(edges, es),
    decreases es.len(),
{
    if es.len() == 0 {
        assert(dist2(verts[v as int], verts[goal as int]) == 0) by (nonlinear_arith)
            requires
                v == goal,
        ;
    } else {
        let e = es[0];
        let w = edges[e].1;
        lemma_walk_length(edges, verts, es.drop_first(), w, goal);
        let a = verts[v as int];
        let b = verts[w as int];
        let g = verts[goal as int];
        assert(edges[e].0 == v);
        lemma_triangle(
            a.x - b.x,
            a.y - b.y,
            b.x - g.x,
            b.y - g.y,
            edges[e].2 as int,
            length_sum(edges, es.drop_first()),
        );
    }
}

proof fn lemma_route_covers_length(edges: Seq<GraphEdge>, es: Seq<int>, agent_type: AgentType)
    requires
        valid_edges(edges, es),
    ensures
        route_cost(edges, es, agent_type) >= length_sum(edges, es),
    decreases es.len(),
{
    if es.len() > 0 {
        assert(0 <= es[0] < edges.len());
        assert forall|k: int| 0 <= k < es.drop_first().len() implies 0 <= #[trigger] es.drop_first()[k] < edges.len() by {
            assert(es.drop_first()[k] == es[k + 1]);
        }
        lemma_route_covers_length(edges, es.drop_first(), agent_type);
        lemma_cost_covers_length(edges[es[0]].2, edges[es[0]].3, agent_type);
    }
}

/// Relies on `rand::random`: any `usize`.
#[verifier::external_body]
fn random_usize() -> usize {
    rand::random::<usize>()
}

/// Directed graph on which agents travel: one vertex per OSM node id, edges
/// weighted by length and carrying their road category.
pub struct TrafficGraph {
    graph: RoadGraph,
    hashmap: HashMap<u64, usize>,
}

impl TrafficGraph {
    /// The location of each vertex, by handle.
    pub closed spec fn vertices(&self) -> Seq<PlanarPoint> {
        graph_vertices(self.graph)
    }

    /// The directed edges, in order of insertion.
    pub closed spec fn edges(&self) -> Seq<GraphEdge> {
        graph_edges(self.graph)
    }

    /// Every edge is at least as long as the distance between the locations
    /// of its endpoints; it holds unless a node id was added again at
    /// another location.
    pub open spec fn lengths_cover(&self) -> bool {
        forall|e: int|
            0 <= e < self.edges().len() ==> dist2(
                self.vertices()[(#[trigger] self.edges()[e]).0 as int],
                self.vertices()[self.edges()[e].1 as int],
            ) <= self.edges()[e].2 * self.edges()[e].2
    }

    /// The vertex handle of each OSM node id that was added.
    pub closed spec fn ids(&self) -> Map<u64, usize> {
        self.hashmap@
    }

    /// Every handle in the id map is a vertex, no two ids share one, every
    /// vertex lies within the coordinate limit and every edge joins vertices
    /// and is no longer than `MAX_EDGE_LENGTH`.
    pub open spec fn wf(&self) -> bool {
        &&& forall|id: u64| #[trigger] self.ids().contains_key(id) ==> self.ids()[id] < self.vertices().len()
        &&& forall|a: u64, b: u64|
            #[trigger] self.ids().contains_key(a) && #[trigger] self.ids().contains_key(b) && self.ids()[a]
                == self.ids()[b] ==> a == b
        &&& forall|v: int| 0 <= v < self.vertices().len() ==> point_in_range(#[trigger] self.vertices()[v])
        &&& forall|e: int|
            0 <= e < self.edges().len() ==> (#[trigger] self.edges()[e]).0 < self.vertices().len()
                && self.edges()[e].1 < self.vertices().len() && self.edges()[e].2 <= MAX_EDGE_LENGTH
        &&& self.vertices().len() <= GRAPH_INDEX_LIMIT
        &&& self.edges().len() <= GRAPH_INDEX_LIMIT
    }

    /// An empty graph.
    pub fn new() -> (r: TrafficGraph)
        ensures
            r.wf(),
            r.vertices() == Seq::<PlanarPoint>::empty(),
            r.edges() == Seq::<GraphEdge>::empty(),
            r.ids() == Map::<u64, usize>::empty(),
    {
        TrafficGraph { graph: graph_new(), hashmap: HashMap::new() }
    }

    /// The vertex of an OSM node id, added at `location` if the id is new.
    pub fn add_node(&mut self, osm_id: u64, location: PlanarPoint) -> (r: usize)
        requires
            old(self).wf(),
            point_in_range(location),
            old(self).vertices().len() < GRAPH_INDEX_LIMIT,
        ensures
            final(self).wf(),
            final(self).edges() == old(self).edges(),
            final(self).ids().contains_key(osm_id),
            final(self).ids()[osm_id] == r,
            old(self).ids().contains_key(osm_id) ==> {
                &&& r == old(self).ids()[osm_id]
                &&& final(self).vertices() == old(self).vertices()
                &&& final(self).ids() == old(self).ids()
            },
            !old(self).ids().contains_key(osm_id) ==> {
                &&& r == old(self).vertices().len()
                &&& final(self).vertices() == old(self).vertices().push(location)
                &&& final(self).ids() == old(self).ids().insert(osm_id, r)
            },
    {
        match self.hashmap.get(&osm_id) {
            Some(index) => *index,
            None => {
                let index = graph_add_node(&mut self.graph, location);
                self.hashmap.insert(osm_id, index);
                assert(forall|id: u64| #[trigger] old(self).ids().contains_key(id) ==> old(self).ids()[id] != index);
                assert(self.vertices() == old(self).vertices().push(location));
                assert(self.ids() == old(self).ids().insert(osm_id, index));
                assert forall|v: int| 0 <= v < self.vertices().len() implies point_in_range(
                    #[trigger] self.vertices()[v],
                ) by {
                    if v < old(self).vertices().len() {
                        assert(self.vertices()[v] == old(self).vertices()[v]);
                    }
                }
                index
            },
        }
    }

    /// Connects two OSM nodes by a road of the given category: one edge in
    /// the direction of travel, or one each way for a two-way road, each
    /// weighted by the distance of the two locations. Both nodes are added
    /// first; existing edges are kept, duplicates included.
    pub fn add_connection(
        &mut self,
        from_index: u64,
        from_location: PlanarPoint,
        to_index: u64,
        to_location: PlanarPoint,
        oneway: OneWay,
        road_type: RoadType,
    )
        requires
            old(self).wf(),
            point_in_range(from_location),
            point_in_range(to_location),
            old(self).vertices().len() + 2 <= GRAPH_INDEX_LIMIT,
            old(self).edges().len() + 2 <= GRAPH_INDEX_LIMIT,
        ensures
            final(self).wf(),
            ({
                let mid = if old(self).ids().contains_key(from_index) {
                    old(self).vertices()
                } else {
                    old(self).vertices().push(from_location)
                };
                final(self).vertices() == if old(self).ids().insert(from_index, 0).contains_key(to_index) {
                    mid
                } else {
                    mid.push(to_location)
                }
            }),
            final(self).ids().dom() == old(self).ids().dom().insert(from_index).insert(to_index),
            forall|id: u64| #[trigger] old(self).ids().contains_key(id) ==> final(self).ids()[id] == old(self).ids()[id],
            ({
                let a = final(self).ids()[from_index];
                let b = final(self).ids()[to_index];
                exists|d: u64| {
                    &&& is_ceil_sqrt(dist2(from_location, to_location), d as int)
                    &&& final(self).edges() == match oneway {
                        OneWay::Yes => old(self).edges().push((a, b, d, road_type)),
                        OneWay::No => old(self).edges().push((a, b, d, road_type)).push(
                            (b, a, d, road_type),
                        ),
                        OneWay::Reversed => old(self).edges().push((b, a, d, road_type)),
                    }
                }
            }),
    {
        let d = distance(from_location, to_location);
        let a = self.add_node(from_index, from_location);
        let b = self.add_node(to_index, to_location);
        match oneway {
            OneWay::Yes => {
                graph_add_edge(&mut self.graph, a, b, (d, road_type));
            },
            OneWay::No => {
                graph_add_edge(&mut self.graph, a, b, (d, road_type));
                graph_add_edge(&mut self.graph, b, a, (d, road_type));
            },
            OneWay::Reversed => {
                graph_add_edge(&mut self.graph, b, a, (d, road_type));
            },
        }
        assert(final(self).ids() == self.ids());
    }

    /// The vertex of an OSM node id, if it was added.
    pub fn get_index(&self, osm_id: u64) -> (r: Option<usize>)
        ensures
            r == (if self.ids().contains_key(osm_id) {
                Some(self.ids()[osm_id])
            } else {
                None
            }),
    {
        match self.hashmap.get(&osm_id) {
            Some(index) => Some(*index),
            None => None,
        }
    }

    /// Removes all vertices, edges and ids.
    pub fn reset(&mut self)
        ensures
            final(self).wf(),
            final(self).vertices() == Seq::<PlanarPoint>::empty(),
            final(self).edges() == Seq::<GraphEdge>::empty(),
            final(self).ids() == Map::<u64, usize>::empty(),
    {
        graph_clear(&mut self.graph);
        self.hashmap.clear();
    }

    /// The number of vertices.
    pub fn get_size(&self) -> (r: usize)
        ensures
            r == self.vertices().len(),
    {
        graph_node_count(&self.graph)
    }

    /// The number of directed edges.
    pub fn get_edge_count(&self) -> (r: usize)
        ensures
            r == self.edges().len(),
    {
        graph_edge_count(&self.graph)
    }

    /// The location of a vertex.
    pub fn get_node_location(&self, index: usize) -> (r: PlanarPoint)
        requires
            index < self.vertices().len(),
        ensures
            r == self.vertices()[index as int],
    {
        graph_vertex(&self.graph, index)
    }

    /// The length and road category of an edge.
    pub fn get_edge(&self, index: usize) -> (r: (u64, RoadType))
        requires
            index < self.edges().len(),
        ensures
            r.0 == self.edges()[index as int].2,
            r.1 == self.edges()[index as int].3,
    {
        graph_edge_weight(&self.graph, index)
    }

    /// A vertex picked at random.
    pub fn get_random_node_index(&self) -> (r: usize)
        requires
            self.vertices().len() > 0,
        ensures
            r < self.vertices().len(),
    {
        random_usize() % graph_node_count(&self.graph)
    }

    /// The road category of an edge from one vertex to another, or
    /// `NotCovered` when there is none.
    pub fn get_road_type(&self, from_index: usize, to_index: usize) -> (r: RoadType)
        requires
            from_index < self.vertices().len(),
            to_index < self.vertices().len(),
        ensures
            !has_edge(self.edges(), from_index, to_index) ==> r == RoadType::NotCovered,
            has_edge(self.edges(), from_index, to_index) ==> exists|e: int|
                0 <= e < self.edges().len() && (#[trigger] self.edges()[e]).0 == from_index
                    && self.edges()[e].1 == to_index && self.edges()[e].3 == r,
    {
        match graph_find_edge(&self.graph, from_index, to_index) {
            Some(e) => graph_edge_weight(&self.graph, e).1,
            None => RoadType::NotCovered,
        }
    }

    /// A route for an agent class from one vertex to another, by A* search
    /// with edge costs `edge_cost` and the straight-line distance to the goal
    /// as estimate; `None` when the goal cannot be reached.
    pub fn get_shortest_path(&self, from_index: usize, to_index: usize, agent_type: AgentType) -> (r:
        Option<Vec<usize>>)
        requires
            self.wf(),
            from_index < self.vertices().len(),
            to_index < self.vertices().len(),
        ensures
            match r {
                Some(p) => is_route(self.edges(), p@, from_index, to_index) && p@.no_duplicates(),
                None => forall|p: Seq<usize>| !is_route(self.edges(), p, from_index, to_index),
            },
            r is Some && self.lengths_cover() ==> exists|es: Seq<int>|
                #[trigger] walk_along(self.edges(), es, r->Some_0@) && forall|ws: Seq<int>|
                    #[trigger] is_walk(self.edges(), ws, from_index, to_index) ==> route_cost(
                        self.edges(),
                        es,
                        agent_type,
                    ) <= route_cost(self.edges(), ws, agent_type),
    {
        let goal = graph_vertex(&self.graph, to_index);
        let n = graph_node_count(&self.graph);
        let m = graph_edge_count(&self.graph);
        let mut costs: Vec<u128> = Vec::with_capacity(m);
        let mut i: usize = 0;
        while i < m
            invariant
                self.wf(),
                m == self.edges().len(),
                i <= m,
                costs.len() == i,
                forall|j: int| 0 <= j < i ==> #[trigger] costs@[j] < 0x1_0000_0000_0000_0000_0000,
                forall|j: int|
                    0 <= j < i ==> #[trigger] costs@[j] as int == edge_cost(
                        self.edges()[j].2,
                        self.edges()[j].3,
                        agent_type,
                    ),
            decreases m - i,
        {
            let (length, road_type) = graph_edge_weight(&self.graph, i);
            costs.push(edge_cost_of(length, road_type, agent_type));
            i += 1;
        }
        let mut estimates: Vec<u128> = Vec::with_capacity(n);
        let mut v: usize = 0;
        while v < n
            invariant
                self.wf(),
                n == self.vertices().len(),
                to_index < n,
                goal == self.vertices()[to_index as int],
                v <= n,
                estimates.len() == v,
                forall|j: int| 0 <= j < v ==> #[trigger] estimates@[j] < 0x1_0000_0000_0000_0000_0000,
                forall|j: int|
                    0 <= j < v ==> is_ceil_sqrt(dist2(self.vertices()[j], goal), #[trigger] estimates@[j] as int),
            decreases n - v,
        {
            let here = graph_vertex(&self.graph, v);
            estimates.push(distance(here, goal) as u128);
            v += 1;
        }
        let r = graph_astar(&self.graph, from_index, to_index, &costs, &estimates);
        proof {
            if r is Some && self.lengths_cover() {
                let edges = self.edges();
                let verts = self.vertices();
                assert forall|v: usize, es: Seq<int>| #[trigger] is_walk(edges, es, v, to_index) implies estimates@[v as int]
                    <= walk_cost(costs@, es) by {
                    if es.len() > 0 {
                        assert(edges[es[0]].0 == v);
                    }
                    assert(v < n);
                    lemma_walk_length(edges, verts, es, v, to_index);
                    lemma_walk_valid(edges, es, v, to_index);
                    lemma_walk_cost_is_route_cost(edges, costs@, es, agent_type);
                    lemma_route_covers_length(edges, es, agent_type);
                    lemma_ceil_bounded(dist2(verts[v as int], goal), estimates@[v as int] as int, length_sum(edges, es));
                }
                assert(admissible(edges, costs@, estimates@, to_index));
                let es = choose|es: Seq<int>|
                    #[trigger] walk_along(edges, es, r->Some_0@) && forall|ws: Seq<int>|
                        #[trigger] is_walk(edges, ws, from_index, to_index) ==> walk_cost(costs@, es) <= walk_cost(
                            costs@,
                            ws,
                        );
                assert(valid_edges(edges, es));
                lemma_walk_cost_is_route_cost(edges, costs@, es, agent_type);
                assert forall|ws: Seq<int>| #[trigger] is_walk(edges, ws, from_index, to_index) implies route_cost(
                    edges,
                    es,
                    agent_type,
                ) <= route_cost(edges, ws, agent_type) by {
                    lemma_walk_valid(edges, ws, from_index, to_index);
                    lemma_walk_cost_is_route_cost(edges, costs@, ws, agent_type);
                }
            }
        }
        r
    }
}

/// The ids among the first `n` of a road's nodes that have a location.
pub open spec fn located_upto(nodes: Seq<u64>, locs: Map<u64, GeoLocation>, n: int) -> Seq<u64>
    decreases n,
{
    if n <= 0 {
        Seq::empty()
    } else if locs.contains_key(nodes[n - 1]) {
        located_upto(nodes, locs, n - 1).push(nodes[n - 1])
    } else {
        located_upto(nodes, locs, n - 1)
    }
}

/// The ids of a road's nodes that have a location, in order.
pub open spec fn located(nodes: Seq<u64>, locs: Map<u64, GeoLocation>) -> Seq<u64> {
    located_upto(nodes, locs, nodes.len() as int)
}

/// The endpoints and category of the edges for one connection.
pub open spec fn connection_edges(a: usize, b: usize, oneway: OneWay, road_type: RoadType) -> Seq<(usize, usize, RoadType)> {
    match oneway {
        OneWay::Yes => seq![(a, b, road_type)],
        OneWay::No => seq![(a, b, road_type), (b, a, road_type)],
        OneWay::Reversed => seq![(b, a, road_type)],
    }
}

/// The endpoints and categories of the edges that join each of the first
/// `n` ids of `chain` to the next.
pub open spec fn chain_edges(ids: Map<u64, usize>, chain: Seq<u64>, oneway: OneWay, road_type: RoadType, n: int) -> Seq<(usize, usize, RoadType)>
    decreases n,
{
    if n <= 1 {
        Seq::empty()
    } else {
        chain_edges(ids, chain, oneway, road_type, n - 1) + connection_edges(
            ids[chain[n - 2]],
            ids[chain[n - 1]],
            oneway,
            road_type,
        )
    }
}

/// Endpoints and category of each edge.
pub open spec fn edge_ends(edges: Seq<GraphEdge>) -> Seq<(usize, usize, RoadType)> {
    edges.map_values(|e: GraphEdge| (e.0, e.1, e.3))
}

/// The direction of a road: its `oneway` tag, two-way when absent.
pub open spec fn road_oneway(tags: Seq<(Seq<char>, Seq<char>)>) -> OneWay {
    match tag_lookup(tags, "oneway"@) {
        Some(v) => one_way_of(v),
        None => OneWay::No,
    }
}

/// The category of a road: its `highway` tag, `NotCovered` when absent.
pub open spec fn road_category(tags: Seq<(Seq<char>, Seq<char>)>) -> RoadType {
    match tag_lookup(tags, "highway"@) {
        Some(v) => road_type_of(v),
        None => RoadType::NotCovered,
    }
}

proof fn lemma_chain_edges_stable(
    ids1: Map<u64, usize>,
    ids2: Map<u64, usize>,
    chain: Seq<u64>,
    oneway: OneWay,
    road_type: RoadType,
    n: int,
)
    requires
        n <= chain.len(),
        forall|k: int| 0 <= k < n ==> ids1[#[trigger] chain[k]] == ids2[chain[k]],
    ensures
        chain_edges(ids1, chain, oneway, road_type, n) == chain_edges(ids2, chain, oneway, road_type, n),
    decreases n,
{
    if n > 1 {
        lemma_chain_edges_stable(ids1, ids2, chain, oneway, road_type, n - 1);
        assert(ids1[chain[n - 2]] == ids2[chain[n - 2]]);
        assert(ids1[chain[n - 1]] == ids2[chain[n - 1]]);
    }
}

proof fn lemma_chain_edges_prefix(
    ids: Map<u64, usize>,
    c1: Seq<u64>,
    c2: Seq<u64>,
    oneway: OneWay,
    road_type: RoadType,
    n: int,
)
    requires
        n <= c1.len(),
        n <= c2.len(),
        forall|k: int| 0 <= k < n ==> #[trigger] c1[k] == c2[k],
    ensures
        chain_edges(ids, c1, oneway, road_type, n) == chain_edges(ids, c2, oneway, road_type, n),
    decreases n,
{
    if n > 1 {
        lemma_chain_edges_prefix(ids, c1, c2, oneway, road_type, n - 1);
        assert(c1[n - 2] == c2[n - 2]);
        assert(c1[n - 1] == c2[n - 1]);
    }
}

/// An edge joins the vertices of two located ids, and its length is the
/// distance of projections of their locations, rounded up.
pub open spec fn edge_from_projections<F: Fn(GeoLocation) -> PlanarPoint>(
    ids: Map<u64, usize>,
    locs: Map<u64, GeoLocation>,
    project: F,
    e: GraphEdge,
) -> bool {
    exists|a: u64, b: u64, p: PlanarPoint, q: PlanarPoint|
        #![trigger ids[a], ids[b], call_ensures(project, (locs[a],), p), call_ensures(project, (locs[b],), q)]
        ids.contains_key(a) && ids.contains_key(b) && ids[a] == e.0 && ids[b] == e.1 && locs.contains_key(a)
            && locs.contains_key(b) && call_ensures(project, (locs[a],), p) && call_ensures(project, (locs[b],), q)
            && is_ceil_sqrt(dist2(p, q), e.2 as int)
}

/// `new` keeps every vertex, edge and id of `old`; each id it adds has a
/// location and its vertex lies at a projection of it; each edge it adds is
/// as `edge_from_projections` says.
pub open spec fn grows_from<F: Fn(GeoLocation) -> PlanarPoint>(
    old: TrafficGraph,
    new: TrafficGraph,
    locs: Map<u64, GeoLocation>,
    project: F,
) -> bool {
    &&& new.vertices().len() >= old.vertices().len()
    &&& new.vertices().subrange(0, old.vertices().len() as int) == old.vertices()
    &&& new.edges().len() >= old.edges().len()
    &&& new.edges().subrange(0, old.edges().len() as int) == old.edges()
    &&& forall|id: u64| #[trigger] old.ids().contains_key(id) ==> new.ids().contains_key(id) && new.ids()[id]
        == old.ids()[id]
    &&& forall|id: u64|
        #[trigger] new.ids().contains_key(id) && !old.ids().contains_key(id) ==> locs.contains_key(id)
            && call_ensures(project, (locs[id],), new.vertices()[new.ids()[id] as int])
    &&& forall|e: int|
        old.edges().len() <= e < new.edges().len() ==> edge_from_projections(
            new.ids(),
            locs,
            project,
            #[trigger] new.edges()[e],
        )
}

pub(crate) proof fn lemma_grows_refl<F: Fn(GeoLocation) -> PlanarPoint>(g: TrafficGraph, locs: Map<u64, GeoLocation>, project: F)
    ensures
        grows_from(g, g, locs, project),
{
    assert(g.vertices().subrange(0, g.vertices().len() as int) =~= g.vertices());
    assert(g.edges().subrange(0, g.edges().len() as int) =~= g.edges());
}

pub(crate) proof fn lemma_grows_trans<F: Fn(GeoLocation) -> PlanarPoint>(
    a: TrafficGraph,
    b: TrafficGraph,
    c: TrafficGraph,
    locs: Map<u64, GeoLocation>,
    project: F,
)
    requires
        grows_from(a, b, locs, project),
        grows_from(b, c, locs, project),
        b.wf(),
    ensures
        grows_from(a, c, locs, project),
{
    let av = a.vertices().len() as int;
    let bv = b.vertices().len() as int;
    assert forall|i: int| 0 <= i < av implies c.vertices()[i] == a.vertices()[i] by {
        assert(c.vertices().subrange(0, bv)[i] == b.vertices()[i]);
        assert(b.vertices().subrange(0, av)[i] == a.vertices()[i]);
    }
    assert(c.vertices().subrange(0, av) =~= a.vertices());
    let ae = a.edges().len() as int;
    let be = b.edges().len() as int;
    assert forall|i: int| 0 <= i < ae implies c.edges()[i] == a.edges()[i] by {
        assert(c.edges().subrange(0, be)[i] == b.edges()[i]);
        assert(b.edges().subrange(0, ae)[i] == a.edges()[i]);
    }
    assert(c.edges().subrange(0, ae) =~= a.edges());
    assert forall|id: u64| #[trigger] c.ids().contains_key(id) && !a.ids().contains_key(id) implies locs.contains_key(id)
        && call_ensures(project, (locs[id],), c.vertices()[c.ids()[id] as int]) by {
        if b.ids().contains_key(id) {
            let h = b.ids()[id] as int;
            assert(h < bv);
            assert(c.vertices().subrange(0, bv)[h] == b.vertices()[h]);
        }
    }
    assert forall|e: int| ae <= e < c.edges().len() implies edge_from_projections(
        c.ids(),
        locs,
        project,
        #[trigger] c.edges()[e],
    ) by {
        if e < be {
            assert(c.edges().subrange(0, be)[e] == b.edges()[e]);
            assert(edge_from_projections(b.ids(), locs, project, b.edges()[e]));
            let ed = b.edges()[e];
            let (x, y, p, q) = choose|x: u64, y: u64, p: PlanarPoint, q: PlanarPoint|
                #![trigger b.ids()[x], b.ids()[y], call_ensures(project, (locs[x],), p), call_ensures(project, (locs[y],), q)]
                b.ids().contains_key(x) && b.ids().contains_key(y) && b.ids()[x] == ed.0 && b.ids()[y] == ed.1
                    && locs.contains_key(x) && locs.contains_key(y) && call_ensures(project, (locs[x],), p)
                    && call_ensures(project, (locs[y],), q) && is_ceil_sqrt(dist2(p, q), ed.2 as int);
            assert(c.ids()[x] == b.ids()[x]);
            assert(c.ids()[y] == b.ids()[y]);
        }
    }
}

proof fn lemma_dist2_symmetric(p: PlanarPoint, q: PlanarPoint)
    ensures
        dist2(p, q) == dist2(q, p),
{
    assert(dist2(p, q) == dist2(q, p)) by (nonlinear_arith);
}

proof fn lemma_located_len_mono(nodes: Seq<u64>, locs: Map<u64, GeoLocation>, i: int, n: int)
    requires
        0 <= i <= n,
    ensures
        located_upto(nodes, locs, i).len() <= located_upto(nodes, locs, n).len(),
    decreases n - i,
{
    if i < n {
        lemma_located_len_mono(nodes, locs, i, n - 1);
    }
}

/// Adds one road: a vertex for each of its nodes that has a location, at
/// the projection of that location, and a connection from each such node to
/// the next one that has a location (nodes without one are skipped, the
/// chain is not broken). The direction comes from the `oneway` tag and the
/// category from the `highway` tag. Returns `false`, having added a prefix
/// of the road, when the graph reached its size limit.
pub fn add_road<F: Fn(GeoLocation) -> PlanarPoint>(
    graph: &mut TrafficGraph,
    node_locations: &IdMap<GeoLocation>,
    road: &RoadFeature,
    project: &F,
) -> (r: bool)
    requires
        old(graph).wf(),
        node_locations.wf(),
        forall|l: GeoLocation| #[trigger] call_requires(*project, (l,)),
        forall|l: GeoLocation, p: PlanarPoint| #[trigger] call_ensures(*project, (l,), p) ==> point_in_range(p),
    ensures
        final(graph).wf(),
        grows_from(*old(graph), *final(graph), node_locations@, *project),
        final(graph).vertices().len() <= old(graph).vertices().len() + located(road.nodes@, node_locations@).len(),
        final(graph).edges().len() <= old(graph).edges().len() + 2 * located(road.nodes@, node_locations@).len(),
        old(graph).vertices().len() + located(road.nodes@, node_locations@).len() + 2 <= GRAPH_INDEX_LIMIT
            && old(graph).edges().len() + 2 * located(road.nodes@, node_locations@).len() <= GRAPH_INDEX_LIMIT
            ==> r,
        r ==> {
            let chain = located(road.nodes@, node_locations@);
            &&& final(graph).ids().dom() == old(graph).ids().dom() + chain.to_set()
            &&& edge_ends(final(graph).edges()) == edge_ends(old(graph).edges()) + chain_edges(
                final(graph).ids(),
                chain,
                road_oneway(road.tags@),
                road_category(road.tags@),
                chain.len() as int,
            )
        },
{
    let oneway = match road.tags.get("oneway") {
        Some(v) => OneWay::from_tag(v.as_str()),
        None => OneWay::No,
    };
    let road_type = match road.tags.get("highway") {
        Some(v) => RoadType::from_tag(v.as_str()),
        None => RoadType::NotCovered,
    };
    let ghost g0 = *graph;
    let ghost locs = node_locations@;
    proof {
        lemma_grows_refl(g0, locs, *project);
    }
    let mut last: Option<(u64, PlanarPoint)> = None;
    let mut i: usize = 0;
    while i < road.nodes.len()
        invariant
            g0 == *old(graph),
            graph.wf(),
            node_locations.wf(),
            locs == node_locations@,
            oneway == road_oneway(road.tags@),
            road_type == road_category(road.tags@),
            forall|l: GeoLocation| #[trigger] call_requires(*project, (l,)),
            forall|l: GeoLocation, p: PlanarPoint| #[trigger] call_ensures(*project, (l,), p) ==> point_in_range(p),
            i <= road.nodes@.len(),
            grows_from(g0, *graph, locs, *project),
            graph.vertices().len() <= g0.vertices().len() + located_upto(road.nodes@, locs, i as int).len(),
            graph.edges().len() <= g0.edges().len() + 2 * located_upto(road.nodes@, locs, i as int).len(),
            graph.ids().dom() == g0.ids().dom() + located_upto(road.nodes@, locs, i as int).to_set(),
            edge_ends(graph.edges()) == edge_ends(g0.edges()) + chain_edges(
                graph.ids(),
                located_upto(road.nodes@, locs, i as int),
                oneway,
                road_type,
                located_upto(road.nodes@, locs, i as int).len() as int,
            ),
            match last {
                Some(lp) => located_upto(road.nodes@, locs, i as int).len() > 0 && lp.0 == located_upto(
                    road.nodes@,
                    locs,
                    i as int,
                ).last() && point_in_range(lp.1) && locs.contains_key(lp.0) && call_ensures(
                    *project,
                    (locs[lp.0],),
                    lp.1,
                ) && graph.ids().contains_key(lp.0),
                None => located_upto(road.nodes@, locs, i as int).len() == 0,
            },
        decreases road.nodes@.len() - i,
    {
        let id = road.nodes[i];
        let ghost chain = located_upto(road.nodes@, locs, i as int);
        let ghost next_chain = located_upto(road.nodes@, locs, i + 1);
        match node_locations.get(id) {
            Some(geolocation) => {
                assert(next_chain == chain.push(id));
                proof {
                    lemma_located_len_mono(road.nodes@, locs, i + 1, road.nodes@.len() as int);
                }
                if graph.get_size() > GRAPH_INDEX_LIMIT - 3 || graph.get_edge_count() > GRAPH_INDEX_LIMIT - 2 {
                    return false;
                }
                let location = project(*geolocation);
                let ghost before = *graph;
                graph.add_node(id, location);
                let ghost mid = *graph;
                proof {
                    assert(locs.contains_key(id) && locs[id] == *geolocation);
                    assert(grows_from(before, mid, locs, *project)) by {
                        assert(mid.vertices().subrange(0, before.vertices().len() as int) =~= before.vertices());
                        assert(mid.edges().subrange(0, before.edges().len() as int) =~= before.edges());
                    }
                    lemma_grows_trans(g0, before, mid, locs, *project);
                }
                match last {
                    Some((last_id, last_location)) => {
                        graph.add_connection(last_id, last_location, id, location, oneway, road_type);
                        proof {
                            let a = graph.ids()[last_id];
                            let b = graph.ids()[id];
                            assert(graph.ids() == mid.ids());
                            assert(graph.vertices() == mid.vertices());
                            let d = choose|d: u64| {
                                &&& is_ceil_sqrt(dist2(last_location, location), d as int)
                                &&& graph.edges() == match oneway {
                                    OneWay::Yes => mid.edges().push((a, b, d, road_type)),
                                    OneWay::No => mid.edges().push((a, b, d, road_type)).push((b, a, d, road_type)),
                                    OneWay::Reversed => mid.edges().push((b, a, d, road_type)),
                                }
                            };
                            lemma_dist2_symmetric(last_location, location);
                            assert(edge_from_projections(graph.ids(), locs, *project, (a, b, d, road_type)));
                            assert(edge_from_projections(graph.ids(), locs, *project, (b, a, d, road_type)));
                            assert(grows_from(mid, *graph, locs, *project)) by {
                                assert(graph.vertices().subrange(0, mid.vertices().len() as int) =~= mid.vertices());
                                assert(graph.edges().subrange(0, mid.edges().len() as int) =~= mid.edges());
                            }
                            lemma_grows_trans(g0, mid, *graph, locs, *project);
                            assert(mid.ids() == graph.ids());
                            lemma_chain_edges_stable(before.ids(), graph.ids(), chain, oneway, road_type, chain.len() as int);
                            lemma_chain_edges_prefix(graph.ids(), next_chain, chain, oneway, road_type, chain.len() as int);
                            assert(next_chain[chain.len() - 1] == last_id);
                            assert(next_chain[chain.len() as int] == id);
                            assert(chain_edges(graph.ids(), next_chain, oneway, road_type, next_chain.len() as int)
                                =~= chain_edges(graph.ids(), chain, oneway, road_type, chain.len() as int)
                                + connection_edges(graph.ids()[last_id], graph.ids()[id], oneway, road_type));
                            assert(edge_ends(graph.edges()) =~= edge_ends(before.edges()) + connection_edges(
                                graph.ids()[last_id], graph.ids()[id], oneway, road_type));
                        }
                    },
                    None => {
                        proof {
                            assert(chain.len() == 0);
                            assert(chain_edges(graph.ids(), next_chain, oneway, road_type, next_chain.len() as int)
                                =~= Seq::<(usize, usize, RoadType)>::empty());
                        }
                    },
                }
                proof {
                    chain.lemma_push_to_set_commute(id);
                    assert(next_chain.to_set() =~= chain.to_set().insert(id));
                    assert(graph.ids().dom() =~= g0.ids().dom() + next_chain.to_set());
                }
                last = Some((id, location));
            },
            None => {
                assert(next_chain == chain);
            },
        }
        i += 1;
    }
    true
}

impl Default for TrafficGraph {
    /// An empty graph.
    fn default() -> (r: TrafficGraph)
        ensures
            r.wf(),
            r.vertices() == Seq::<PlanarPoint>::empty(),
            r.edges() == Seq::<GraphEdge>::empty(),
            r.ids() == Map::<u64, usize>::empty(),
    {
        TrafficGraph::new()
    }
}

/// The endpoints and categories of the edges for the first `k` roads, in
/// order.
pub open spec fn roads_edges(
    ids: Map<u64, usize>,
    roads: Seq<(u64, Feature)>,
    locs: Map<u64, GeoLocation>,
    k: int,
) -> Seq<(usize, usize, RoadType)>
    decreases k,
{
    if k <= 0 {
        Seq::empty()
    } else {
        let road = roads[k - 1].1;
        let chain = located(road.nodes@, locs);
        roads_edges(ids, roads, locs, k - 1) + chain_edges(
            ids,
            chain,
            road_oneway(road.tags@),
            road_category(road.tags@),
            chain.len() as int,
        )
    }
}

pub(crate) proof fn lemma_roads_edges_stable(
    ids1: Map<u64, usize>,
    ids2: Map<u64, usize>,
    roads: Seq<(u64, Feature)>,
    locs: Map<u64, GeoLocation>,
    k: int,
)
    requires
        k <= roads.len(),
        forall|j: int, n: int|
            0 <= j < k && 0 <= n < located(roads[j].1.nodes@, locs).len() ==> ids1[#[trigger] located(
                roads[j].1.nodes@,
                locs,
            )[n]] == ids2[located(roads[j].1.nodes@, locs)[n]],
    ensures
        roads_edges(ids1, roads, locs, k) == roads_edges(ids2, roads, locs, k),
    decreases k,
{
    if k > 0 {
        lemma_roads_edges_stable(ids1, ids2, roads, locs, k - 1);
        let road = roads[k - 1].1;
        let chain = located(road.nodes@, locs);
        assert forall|n: int| 0 <= n < chain.len() implies ids1[#[trigger] chain[n]] == ids2[chain[n]] by {
            assert(ids1[located(roads[k - 1].1.nodes@, locs)[n]] == ids2[located(roads[k - 1].1.nodes@, locs)[n]]);
        }
        lemma_chain_edges_stable(ids1, ids2, chain, road_oneway(road.tags@), road_category(road.tags@), chain.len() as int);
    }
}

/// The number of located node ids of the first `k` roads, with repeats.
pub open spec fn located_total(roads: Seq<(u64, Feature)>, locs: Map<u64, GeoLocation>, k: int) -> int
    decreases k,
{
    if k <= 0 {
        0
    } else {
        located_total(roads, locs, k - 1) + located(roads[k - 1].1.nodes@, locs).len()
    }
}

/// The located node ids of the first `k` roads.
pub open spec fn roads_ids(roads: Seq<(u64, Feature)>, locs: Map<u64, GeoLocation>, k: int) -> Set<u64> {
    Set::new(
        |x: u64|
            exists|j: int, n: int|
                0 <= j < k && 0 <= n < located(roads[j].1.nodes@, locs).len() && #[trigger] located(
                    roads[j].1.nodes@,
                    locs,
                )[n] == x,
    )
}

pub(crate) proof fn lemma_located_total_mono(roads: Seq<(u64, Feature)>, locs: Map<u64, GeoLocation>, k: int, n: int)
    requires
        0 <= k <= n,
    ensures
        0 <= located_total(roads, locs, k) <= located_total(roads, locs, n),
    decreases n - k,
{
    if k < n {
        lemma_located_total_mono(roads, locs, k, n - 1);
    } else {
        lemma_located_total_nonneg(roads, locs, k);
    }
}

pub(crate) proof fn lemma_located_total_nonneg(roads: Seq<(u64, Feature)>, locs: Map<u64, GeoLocation>, k: int)
    ensures
        located_total(roads, locs, k) >= 0,
    decreases k,
{
    if k > 0 {
        lemma_located_total_nonneg(roads, locs, k - 1);
    }
}

/// Adds every road of a chunk to the graph, in the order of the road map.
/// It succeeds whenever the graph has room for a vertex and two edges per
/// located node id; it returns `false` when the graph reached its size
/// limit.
pub fn update_traffic_graph<F: Fn(GeoLocation) -> PlanarPoint>(
    node_locations: &IdMap<GeoLocation>,
    road_features: &IdMap<RoadFeature>,
    graph: &mut TrafficGraph,
    project: &F,
) -> (r: bool)
    requires
        old(graph).wf(),
        node_locations.wf(),
        forall|l: GeoLocation| #[trigger] call_requires(*project, (l,)),
        forall|l: GeoLocation, p: PlanarPoint| #[trigger] call_ensures(*project, (l,), p) ==> point_in_range(p),
    ensures
        final(graph).wf(),
        grows_from(*old(graph), *final(graph), node_locations@, *project),
        ({
            let total = located_total(road_features.entries(), node_locations@, road_features.entries().len() as int);
            &&& final(graph).vertices().len() <= old(graph).vertices().len() + total
            &&& final(graph).edges().len() <= old(graph).edges().len() + 2 * total
            &&& (old(graph).vertices().len() + total + 2 <= GRAPH_INDEX_LIMIT && old(graph).edges().len() + 2 * total
                <= GRAPH_INDEX_LIMIT ==> r)
        }),
        r ==> final(graph).ids().dom() == old(graph).ids().dom() + roads_ids(
            road_features.entries(),
            node_locations@,
            road_features.entries().len() as int,
        ),
        r ==> edge_ends(final(graph).edges()) == edge_ends(old(graph).edges()) + roads_edges(
            final(graph).ids(),
            road_features.entries(),
            node_locations@,
            road_features.entries().len() as int,
        ),
{
    let ghost g0 = *graph;
    let ghost roads = road_features.entries();
    let ghost locs = node_locations@;
    let ghost nroads = roads.len() as int;
    proof {
        lemma_grows_refl(g0, locs, *project);
        assert(roads_ids(roads, locs, 0) =~= Set::<u64>::empty());
        assert(g0.ids().dom() + roads_ids(roads, locs, 0) =~= g0.ids().dom());
        assert(edge_ends(g0.edges()) + roads_edges(g0.ids(), roads, locs, 0) =~= edge_ends(g0.edges()));
    }
    let mut k: usize = 0;
    while k < road_features.len()
        invariant
            g0 == *old(graph),
            roads == road_features.entries(),
            locs == node_locations@,
            nroads == roads.len(),
            graph.wf(),
            node_locations.wf(),
            forall|l: GeoLocation| #[trigger] call_requires(*project, (l,)),
            forall|l: GeoLocation, p: PlanarPoint| #[trigger] call_ensures(*project, (l,), p) ==> point_in_range(p),
            k <= nroads,
            grows_from(g0, *graph, locs, *project),
            graph.vertices().len() <= g0.vertices().len() + located_total(roads, locs, k as int),
            graph.edges().len() <= g0.edges().len() + 2 * located_total(roads, locs, k as int),
            g0.vertices().len() + located_total(roads, locs, nroads) + 2 <= GRAPH_INDEX_LIMIT && g0.edges().len() + 2
                * located_total(roads, locs, nroads) <= GRAPH_INDEX_LIMIT ==> graph.vertices().len() + (
            located_total(roads, locs, nroads) - located_total(roads, locs, k as int)) + 2 <= GRAPH_INDEX_LIMIT
                && graph.edges().len() + 2 * (located_total(roads, locs, nroads) - located_total(
                roads,
                locs,
                k as int,
            )) <= GRAPH_INDEX_LIMIT,
            graph.ids().dom() == g0.ids().dom() + roads_ids(roads, locs, k as int),
            edge_ends(graph.edges()) == edge_ends(g0.edges()) + roads_edges(graph.ids(), roads, locs, k as int),
        decreases nroads - k,
    {
        let (_, road) = road_features.entry_at(k);
        let ghost before = *graph;
        let ghost chain = located(road.nodes@, locs);
        proof {
            assert(road == roads[k as int].1);
            lemma_located_total_mono(roads, locs, k + 1, nroads);
            lemma_located_total_mono(roads, locs, k as int, k + 1);
        }
        let added = add_road(graph, node_locations, road, project);
        proof {
            lemma_grows_trans(g0, before, *graph, locs, *project);
        }
        if !added {
            return false;
        }
        proof {
            assert forall|j: int, n: int|
                0 <= j < k && 0 <= n < located(roads[j].1.nodes@, locs).len() implies before.ids()[#[trigger] located(
                roads[j].1.nodes@,
                locs,
            )[n]] == graph.ids()[located(roads[j].1.nodes@, locs)[n]] by {
                let x = located(roads[j].1.nodes@, locs)[n];
                assert(roads_ids(roads, locs, k as int).contains(x));
                assert(before.ids().contains_key(x));
            }
            lemma_roads_edges_stable(before.ids(), graph.ids(), roads, locs, k as int);
            assert(edge_ends(graph.edges()) =~= edge_ends(g0.edges()) + roads_edges(graph.ids(), roads, locs, k + 1));
            assert forall|x: u64| roads_ids(roads, locs, k + 1).contains(x) <==> (roads_ids(
                roads,
                locs,
                k as int,
            ).contains(x) || chain.to_set().contains(x)) by {
                if chain.to_set().contains(x) {
                    let n = choose|n: int| 0 <= n < chain.len() && chain[n] == x;
                    assert(located(roads[k as int].1.nodes@, locs)[n] == x);
                }
                if roads_ids(roads, locs, k + 1).contains(x) {
                    let (j, n) = choose|j: int, n: int|
                        0 <= j < k + 1 && 0 <= n < located(roads[j].1.nodes@, locs).len() && #[trigger] located(
                            roads[j].1.nodes@,
                            locs,
                        )[n] == x;
                    if j == k {
                        assert(chain.contains(x));
                    }
                }
            }
            assert(graph.ids().dom() =~= g0.ids().dom() + roads_ids(roads, locs, k + 1));
        }
        k += 1;
    }
    true
}

} // verus!

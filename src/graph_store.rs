//! The directed graph behind the traffic network, held in a
//! `petgraph::Graph` and reached through the items below.

use vstd::prelude::*;
use petgraph::graph::{EdgeIndex, Graph, NodeIndex};
use petgraph::visit::EdgeRef;
use petgraph::Directed;
use crate::geography::PlanarPoint;
use crate::road_type::RoadType;

verus! {

#[verifier::external_type_specification]
#[verifier::external_body]
#[verifier::reject_recursive_types(N)]
#[verifier::reject_recursive_types(E)]
#[verifier::reject_recursive_types(Ty)]
#[verifier::reject_recursive_types(Ix)]
pub struct ExGraph<N, E, Ty, Ix>(Graph<N, E, Ty, Ix>);

#[verifier::external_type_specification]
#[verifier::external_body]
pub struct ExDirected(Directed);

/// The graph type of the traffic network: vertices carry their planar
/// location, edges their length and road category.
pub type RoadGraph = Graph<PlanarPoint, (u64, RoadType), Directed, u32>;

/// One directed edge: source vertex, target vertex, length, road category.
pub type GraphEdge = (usize, usize, u64, RoadType);

/// The vertex weights of a graph, by vertex index.
pub uninterp spec fn graph_vertices(g: RoadGraph) -> Seq<PlanarPoint>;

/// The edges of a graph, by edge index.
pub uninterp spec fn graph_edges(g: RoadGraph) -> Seq<GraphEdge>;

/// Largest vertex or edge count of a graph indexed by `u32`.
pub const GRAPH_INDEX_LIMIT: usize = 0xffff_fffe;

/// There is an edge from `a` to `b`.
pub open spec fn has_edge(edges: Seq<GraphEdge>, a: usize, b: usize) -> bool {
    exists|e: int| 0 <= e < edges.len() && (#[trigger] edges[e]).0 == a && edges[e].1 == b
}

/// `p` is a sequence of vertices from `from` to `to` in which each vertex
/// has an edge to the next.
pub open spec fn is_route(edges: Seq<GraphEdge>, p: Seq<usize>, from: usize, to: usize) -> bool {
    &&& p.len() >= 1
    &&& p[0] == from
    &&& p.last() == to
    &&& forall|i: int| 0 <= i < p.len() - 1 ==> has_edge(edges, #[trigger] p[i], p[i + 1])
}

/// `es` is a sequence of edge indices, each starting where the one before
/// ends, leading from `from` to `to`.
pub open spec fn is_walk(edges: Seq<GraphEdge>, es: Seq<int>, from: usize, to: usize) -> bool
    decreases es.len(),
{
    if es.len() == 0 {
        from == to
    } else {
        &&& 0 <= es[0] < edges.len()
        &&& edges[es[0]].0 == from
        &&& is_walk(edges, es.drop_first(), edges[es[0]].1, to)
    }
}

/// The sum of the costs of the edges of a walk.
pub open spec fn walk_cost(costs: Seq<u128>, es: Seq<int>) -> int
    decreases es.len(),
{
    if es.len() == 0 {
        0
    } else {
        costs[es[0]] + walk_cost(costs, es.drop_first())
    }
}

/// The estimate of no vertex exceeds the cost of a walk from it to `goal`.
pub open spec fn admissible(edges: Seq<GraphEdge>, costs: Seq<u128>, estimates: Seq<u128>, goal: usize) -> bool {
    forall|v: usize, es: Seq<int>| #[trigger] is_walk(edges, es, v, goal) ==> estimates[v as int] <= walk_cost(costs, es)
}

/// The edges `es` lead along the vertices of `p`, one edge per step.
pub open spec fn walk_along(edges: Seq<GraphEdge>, es: Seq<int>, p: Seq<usize>) -> bool {
    &&& es.len() + 1 == p.len()
    &&& forall|k: int|
        0 <= k < es.len() ==> 0 <= #[trigger] es[k] < edges.len() && edges[es[k]].0 == p[k] && edges[es[k]].1
            == p[k + 1]
}

/// Relies on `Graph::new`: a new graph has no vertices and no edges.
#[verifier::external_body]
pub(crate) fn graph_new() -> (g: RoadGraph)
    ensures
        graph_vertices(g) == Seq::<PlanarPoint>::empty(),
        graph_edges(g) == Seq::<GraphEdge>::empty(),
{
    Graph::new()
}

/// Relies on `Graph::add_node`: the weight is appended and its index
/// returned; it panics when the index would reach `u32::MAX`.
#[verifier::external_body]
pub(crate) fn graph_add_node(g: &mut RoadGraph, w: PlanarPoint) -> (r: usize)
    requires
        graph_vertices(*old(g)).len() < GRAPH_INDEX_LIMIT,
    ensures
        r == graph_vertices(*old(g)).len(),
        graph_vertices(*final(g)) == graph_vertices(*old(g)).push(w),
        graph_edges(*final(g)) == graph_edges(*old(g)),
{
    g.add_node(w).index()
}

/// Relies on `Graph::add_edge`: the edge is appended; it panics on an
/// endpoint out of range or when the index would reach `u32::MAX`.
#[verifier::external_body]
pub(crate) fn graph_add_edge(g: &mut RoadGraph, a: usize, b: usize, w: (u64, RoadType))
    requires
        a < graph_vertices(*old(g)).len(),
        b < graph_vertices(*old(g)).len(),
        graph_edges(*old(g)).len() < GRAPH_INDEX_LIMIT,
    ensures
        graph_vertices(*final(g)) == graph_vertices(*old(g)),
        graph_edges(*final(g)) == graph_edges(*old(g)).push((a, b, w.0, w.1)),
{
    g.add_edge(NodeIndex::new(a), NodeIndex::new(b), w);
}

/// Relies on `Graph::node_count`.
#[verifier::external_body]
pub(crate) fn graph_node_count(g: &RoadGraph) -> (r: usize)
    ensures
        r == graph_vertices(*g).len(),
{
    g.node_count()
}

/// Relies on `Graph::edge_count`.
#[verifier::external_body]
pub(crate) fn graph_edge_count(g: &RoadGraph) -> (r: usize)
    ensures
        r == graph_edges(*g).len(),
{
    g.edge_count()
}

/// Relies on `Graph::clear`: all vertices and edges are removed.
#[verifier::external_body]
pub(crate) fn graph_clear(g: &mut RoadGraph)
    ensures
        graph_vertices(*final(g)) == Seq::<PlanarPoint>::empty(),
        graph_edges(*final(g)) == Seq::<GraphEdge>::empty(),
{
    g.clear()
}

/// Relies on indexing a `Graph` by a vertex: its weight.
#[verifier::external_body]
pub(crate) fn graph_vertex(g: &RoadGraph, i: usize) -> (r: PlanarPoint)
    requires
        i < graph_vertices(*g).len(),
    ensures
        r == graph_vertices(*g)[i as int],
{
    g[NodeIndex::new(i)]
}

/// Relies on indexing a `Graph` by an edge: its weight.
#[verifier::external_body]
pub(crate) fn graph_edge_weight(g: &RoadGraph, e: usize) -> (r: (u64, RoadType))
    requires
        e < graph_edges(*g).len(),
    ensures
        r.0 == graph_edges(*g)[e as int].2,
        r.1 == graph_edges(*g)[e as int].3,
{
    g[EdgeIndex::new(e)]
}

/// Relies on `Graph::find_edge`: an edge from `a` to `b`, if there is one.
#[verifier::external_body]
pub(crate) fn graph_find_edge(g: &RoadGraph, a: usize, b: usize) -> (r: Option<usize>)
    requires
        a < graph_vertices(*g).len(),
        b < graph_vertices(*g).len(),
    ensures
        match r {
            Some(e) => e < graph_edges(*g).len() && graph_edges(*g)[e as int].0 == a
                && graph_edges(*g)[e as int].1 == b,
            None => !has_edge(graph_edges(*g), a, b),
        },
{
    match g.find_edge(NodeIndex::new(a), NodeIndex::new(b)) {
        Some(e) => Some(e.index()),
        None => None,
    }
}

/// Relies on `petgraph::algo::astar`, with the cost of edge `i` read from
/// `costs[i]` and the estimate of vertex `v` from `estimates[v]`: a path
/// found runs along edges from `start` to `goal`; with non-negative costs
/// every vertex reachable from `start` is scored, so no path is found only
/// when `goal` cannot be reached; the path follows the chain of
/// predecessors, which has no cycle, so no vertex occurs twice; and, as its
/// documentation states, with admissible estimates the path found is a
/// shortest one.
#[verifier::external_body]
pub(crate) fn graph_astar(
    g: &RoadGraph,
    start: usize,
    goal: usize,
    costs: &Vec<u128>,
    estimates: &Vec<u128>,
) -> (r: Option<Vec<usize>>)
    requires
        start < graph_vertices(*g).len(),
        goal < graph_vertices(*g).len(),
        costs@.len() == graph_edges(*g).len(),
        estimates@.len() == graph_vertices(*g).len(),
        forall|i: int| 0 <= i < costs@.len() ==> #[trigger] costs@[i] < 0x1_0000_0000_0000_0000_0000,
        forall|i: int|
            0 <= i < estimates@.len() ==> #[trigger] estimates@[i] < 0x1_0000_0000_0000_0000_0000,
    ensures
        match r {
            Some(p) => is_route(graph_edges(*g), p@, start, goal) && p@.no_duplicates(),
            None => forall|p: Seq<usize>| !is_route(graph_edges(*g), p, start, goal),
        },
        r is Some && admissible(graph_edges(*g), costs@, estimates@, goal) ==> exists|es: Seq<int>|
            #[trigger] walk_along(graph_edges(*g), es, r->Some_0@) && forall|ws: Seq<int>|
                #[trigger] is_walk(graph_edges(*g), ws, start, goal) ==> walk_cost(costs@, es) <= walk_cost(
                    costs@,
                    ws,
                ),
{
    let goal_node = NodeIndex::<u32>::new(goal);
    let found = petgraph::algo::astar(
        g,
        NodeIndex::new(start),
        |n| n == goal_node,
        |e| costs[e.id().index()],
        |n| estimates[n.index()],
    );
    match found {
        Some((_, path)) => Some(path.into_iter().map(|n| n.index()).collect()),
        None => None,
    }
}

} // verus!

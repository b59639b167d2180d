//! The projection origin and the decision to move it when a new batch of
//! data lies far from the current one.

use vstd::prelude::*;
use crate::geography::{Chunk, GeoData, GeoLocation, PlanarPoint, point_in_range};
use crate::id_map::IdMap;
use crate::graph_store::GRAPH_INDEX_LIMIT;
use crate::road_type::RoadType;
use crate::traffic_graph::{
    edge_ends, grows_from, lemma_grows_refl, lemma_grows_trans, lemma_roads_edges_stable, lemma_located_total_nonneg,
    located, located_total, roads_edges, roads_ids, update_traffic_graph, TrafficGraph,
};

verus! {

/// Distance from the current origin beyond which a batch moves the origin,
/// in units of 1e-12 of the unscaled projection.
pub const MAX_DISTANCE: i64 = 83_291_353_582;

/// The unscaled projection of the origin in effect, in units of 1e-12.
#[derive(Clone, Copy, Debug, PartialEq, Eq, Structural)]
pub struct Offset {
    pub x: i64,
    pub y: i64,
}

/// A candidate origin is far from the current one: there is none yet, or it
/// lies more than `MAX_DISTANCE` away.
pub open spec fn too_far(current: Option<Offset>, candidate: Offset) -> bool {
    match current {
        None => true,
        Some(o) => (candidate.x - o.x) * (candidate.x - o.x) + (candidate.y - o.y) * (candidate.y - o.y)
            > MAX_DISTANCE * MAX_DISTANCE,
    }
}

/// Whether a candidate origin is far from the current one.
pub fn offset_too_far(current: Option<Offset>, candidate: Offset) -> (r: bool)
    ensures
        r == too_far(current, candidate),
{
    match current {
        None => true,
        Some(o) => {
            let dx = candidate.x as i128 - o.x as i128;
            let dy = candidate.y as i128 - o.y as i128;
            let m: i128 = MAX_DISTANCE as i128;
            assert(m * m == 6937449581521744230724) by (nonlinear_arith)
                requires
                    m == 83_291_353_582,
            ;
            if dx > m || dx < -m || dy > m || dy < -m {
                assert(dx * dx > m * m || dy * dy > m * m) by (nonlinear_arith)
                    requires
                        dx > m || dx < -m || dy > m || dy < -m,
                        m > 0,
                ;
                assert(dx * dx >= 0 && dy * dy >= 0) by (nonlinear_arith);
                true
            } else {
                assert(dx * dx <= m * m && dy * dy <= m * m) by (nonlinear_arith)
                    requires
                        -m <= dx <= m,
                        -m <= dy <= m,
                ;
                assert(dx * dx >= 0 && dy * dy >= 0) by (nonlinear_arith);
                dx * dx + dy * dy > m * m
            }
        },
    }
}

/// Order of node locations for the median: by the sum of latitude and
/// longitude, then by position.
pub open spec fn sorted_keys(s: Seq<(i64, usize)>) -> bool {
    forall|i: int, j: int| 0 <= i < j < s.len() ==> (#[trigger] s[i]).0 < (#[trigger] s[j]).0 || (s[i].0
        == s[j].0 && s[i].1 <= s[j].1)
}

/// Position of the median among `n` sorted items: the lower middle one
/// when `n` is even.
pub open spec fn median_position(n: int) -> int {
    if n % 2 == 0 {
        n / 2 - 1
    } else {
        n / 2
    }
}

/// The sort key of each entry: its coordinate sum and its position.
pub open spec fn location_keys(entries: Seq<(u64, GeoLocation)>) -> Seq<(i64, usize)> {
    Seq::new(entries.len(), |i: int| ((entries[i].1.latitude + entries[i].1.longitude) as i64, i as usize))
}

/// Relies on `slice::sort`: the result holds the same items, in ascending
/// order of the tuple order.
#[verifier::external_body]
fn sort_keys(v: &mut Vec<(i64, usize)>)
    ensures
        final(v)@.to_multiset() == old(v)@.to_multiset(),
        forall|i: int, j: int| 0 <= i < j < final(v)@.len() ==> (#[trigger] final(v)@[i]).0 < (#[trigger] final(v)@[j]).0
            || (final(v)@[i].0 == final(v)@[j].0 && final(v)@[i].1 <= final(v)@[j].1),
{
    v.sort()
}

/// The smallest and largest coordinates of the node locations, and the
/// median location: the lower middle one in the order of `sorted_keys`.
/// `None` when there are no locations.
pub fn find_bounds(locations: &IdMap<GeoLocation>) -> (r: Option<(GeoLocation, GeoLocation, GeoLocation)>)
    requires
        locations.wf(),
    ensures
        r is None <==> locations.entries().len() == 0,
        match r {
            Some((lo, median, hi)) => {
                let e = locations.entries();
                &&& forall|i: int| 0 <= i < e.len() ==> lo.longitude <= #[trigger] e[i].1.longitude <= hi.longitude
                    && lo.latitude <= e[i].1.latitude <= hi.latitude
                &&& exists|i: int| 0 <= i < e.len() && #[trigger] e[i].1.longitude == lo.longitude
                &&& exists|i: int| 0 <= i < e.len() && #[trigger] e[i].1.latitude == lo.latitude
                &&& exists|i: int| 0 <= i < e.len() && #[trigger] e[i].1.longitude == hi.longitude
                &&& exists|i: int| 0 <= i < e.len() && #[trigger] e[i].1.latitude == hi.latitude
                &&& exists|s: Seq<(i64, usize)>|
                    s.to_multiset() == location_keys(e).to_multiset() && #[trigger] sorted_keys(s) && median
                        == e[s[median_position(e.len() as int)].1 as int].1
            },
            None => true,
        },
{
    let n = locations.len();
    if n == 0 {
        return None;
    }
    let (_, first) = locations.entry_at(0);
    let mut lo = *first;
    let mut hi = *first;
    assert(locations.entries()[0].1.longitude == lo.longitude);
    assert(locations.entries()[0].1.latitude == lo.latitude);
    let mut keys: Vec<(i64, usize)> = Vec::with_capacity(n);
    let mut i: usize = 0;
    while i < n
        invariant
            n == locations.entries().len(),
            n > 0,
            i <= n,
            keys@ == location_keys(locations.entries()).subrange(0, i as int),
            forall|j: int| 0 <= j < i ==> lo.longitude <= #[trigger] locations.entries()[j].1.longitude <= hi.longitude
                && lo.latitude <= locations.entries()[j].1.latitude <= hi.latitude,
            exists|j: int| 0 <= j < n && #[trigger] locations.entries()[j].1.longitude == lo.longitude,
            exists|j: int| 0 <= j < n && #[trigger] locations.entries()[j].1.latitude == lo.latitude,
            exists|j: int| 0 <= j < n && #[trigger] locations.entries()[j].1.longitude == hi.longitude,
            exists|j: int| 0 <= j < n && #[trigger] locations.entries()[j].1.latitude == hi.latitude,
        decreases n - i,
    {
        let (_, loc) = locations.entry_at(i);
        if loc.longitude < lo.longitude {
            lo.longitude = loc.longitude;
        }
        if loc.latitude < lo.latitude {
            lo.latitude = loc.latitude;
        }
        if loc.longitude > hi.longitude {
            hi.longitude = loc.longitude;
        }
        if loc.latitude > hi.latitude {
            hi.latitude = loc.latitude;
        }
        keys.push(((loc.latitude as i64 + loc.longitude as i64), i));
        assert(keys@ =~= location_keys(locations.entries()).subrange(0, i + 1));
        i += 1;
    }
    assert(keys@ =~= location_keys(locations.entries()));
    let ghost unsorted = keys@;
    sort_keys(&mut keys);
    let mid = if n % 2 == 0 {
        n / 2 - 1
    } else {
        n / 2
    };
    proof {
        keys@.to_multiset_ensures();
        unsorted.to_multiset_ensures();
        assert(keys@.len() == unsorted.len());
        let x = keys@[mid as int];
        assert(keys@.contains(x));
        assert(keys@.to_multiset().count(x) > 0);
        assert(unsorted.to_multiset().count(x) > 0);
        assert(unsorted.contains(x));
        assert(sorted_keys(keys@));
    }
    let (_, median) = locations.entry_at(keys[mid].1);
    Some((lo, *median, hi))
}

/// The state that one coordinator owns across batches: the origin in
/// effect and the traffic graph built so far.
pub struct World {
    pub offset: Option<Offset>,
    pub traffic_graph: TrafficGraph,
}

impl World {
    /// The traffic graph is well formed.
    pub open spec fn wf(&self) -> bool {
        self.traffic_graph.wf()
    }

    /// No origin yet, and an empty graph.
    pub fn new() -> (r: World)
        ensures
            r.wf(),
            r.offset is None,
            r.traffic_graph.vertices().len() == 0,
            r.traffic_graph.edges().len() == 0,
    {
        World { offset: None, traffic_graph: TrafficGraph::new() }
    }

    /// Takes the unscaled projection of a new batch's median location. When it
    /// is too far from the origin in effect, the graph is reset and the
    /// candidate becomes the origin; otherwise nothing changes. Returns
    /// whether the origin moved.
    pub fn begin_batch(&mut self, candidate: Offset) -> (recentred: bool)
        requires
            old(self).wf(),
        ensures
            final(self).wf(),
            recentred == too_far(old(self).offset, candidate),
            recentred ==> {
                &&& final(self).offset == Some(candidate)
                &&& final(self).traffic_graph.vertices().len() == 0
                &&& final(self).traffic_graph.edges().len() == 0
                &&& final(self).traffic_graph.ids() == Map::<u64, usize>::empty()
            },
            !recentred ==> final(self).offset == old(self).offset && final(self).traffic_graph
                == old(self).traffic_graph,
    {
        if offset_too_far(self.offset, candidate) {
            self.traffic_graph.reset();
            self.offset = Some(candidate);
            true
        } else {
            false
        }
    }

    /// Adds the roads of every chunk of a batch to the graph, chunk by chunk,
    /// keeping what is there. It succeeds whenever the graph has room for a
    /// vertex and two edges per located node id of the batch; it returns
    /// `false` when the graph reached its size limit.
    pub fn add_batch_roads<F: Fn(GeoLocation) -> PlanarPoint>(&mut self, data: &GeoData, project: &F) -> (r: bool)
        requires
            old(self).wf(),
            data.wf(),
            forall|l: GeoLocation| #[trigger] call_requires(*project, (l,)),
            forall|l: GeoLocation, p: PlanarPoint| #[trigger] call_ensures(*project, (l,), p) ==> point_in_range(p),
        ensures
            final(self).wf(),
            final(self).offset == old(self).offset,
            grows_from(old(self).traffic_graph, final(self).traffic_graph, data.node_locations@, *project),
            ({
                let total = batch_total(data.chunks@, data.node_locations@, data.chunks@.len() as int);
                &&& final(self).traffic_graph.vertices().len() <= old(self).traffic_graph.vertices().len() + total
                &&& final(self).traffic_graph.edges().len() <= old(self).traffic_graph.edges().len() + 2 * total
                &&& (old(self).traffic_graph.vertices().len() + total + 2 <= GRAPH_INDEX_LIMIT
                    && old(self).traffic_graph.edges().len() + 2 * total <= GRAPH_INDEX_LIMIT ==> r)
            }),
            r ==> final(self).traffic_graph.ids().dom() == old(self).traffic_graph.ids().dom() + batch_ids(
                data.chunks@,
                data.node_locations@,
                data.chunks@.len() as int,
            ),
            r ==> edge_ends(final(self).traffic_graph.edges()) == edge_ends(old(self).traffic_graph.edges())
                + batch_edges(
                final(self).traffic_graph.ids(),
                data.chunks@,
                data.node_locations@,
                data.chunks@.len() as int,
            ),
    {
        let ghost g0 = self.traffic_graph;
        let ghost chunks = data.chunks@;
        let ghost locs = data.node_locations@;
        let ghost nc = chunks.len() as int;
        proof {
            lemma_grows_refl(g0, locs, *project);
            assert(batch_ids(chunks, locs, 0) =~= Set::<u64>::empty());
            assert(g0.ids().dom() + batch_ids(chunks, locs, 0) =~= g0.ids().dom());
            assert(edge_ends(g0.edges()) + batch_edges(g0.ids(), chunks, locs, 0) =~= edge_ends(g0.edges()));
        }
        let mut c: usize = 0;
        while c < data.chunks.len()
            invariant
                g0 == old(self).traffic_graph,
                chunks == data.chunks@,
                locs == data.node_locations@,
                nc == chunks.len(),
                self.offset == old(self).offset,
                self.wf(),
                data.wf(),
                forall|l: GeoLocation| #[trigger] call_requires(*project, (l,)),
                forall|l: GeoLocation, p: PlanarPoint| #[trigger] call_ensures(*project, (l,), p) ==> point_in_range(p),
                c <= nc,
                grows_from(g0, self.traffic_graph, locs, *project),
                self.traffic_graph.vertices().len() <= g0.vertices().len() + batch_total(chunks, locs, c as int),
                self.traffic_graph.edges().len() <= g0.edges().len() + 2 * batch_total(chunks, locs, c as int),
                g0.vertices().len() + batch_total(chunks, locs, nc) + 2 <= GRAPH_INDEX_LIMIT && g0.edges().len() + 2
                    * batch_total(chunks, locs, nc) <= GRAPH_INDEX_LIMIT ==> self.traffic_graph.vertices().len() + (
                batch_total(chunks, locs, nc) - batch_total(chunks, locs, c as int)) + 2 <= GRAPH_INDEX_LIMIT
                    && self.traffic_graph.edges().len() + 2 * (batch_total(chunks, locs, nc) - batch_total(
                    chunks,
                    locs,
                    c as int,
                )) <= GRAPH_INDEX_LIMIT,
                self.traffic_graph.ids().dom() == g0.ids().dom() + batch_ids(chunks, locs, c as int),
                edge_ends(self.traffic_graph.edges()) == edge_ends(g0.edges()) + batch_edges(
                    self.traffic_graph.ids(),
                    chunks,
                    locs,
                    c as int,
                ),
            decreases nc - c,
        {
            let ghost before = self.traffic_graph;
            let ghost roads = chunks[c as int].road_features.entries();
            assert(data.chunks@[c as int].wf());
            proof {
                lemma_batch_total_mono(chunks, locs, c + 1, nc);
                lemma_batch_total_mono(chunks, locs, c as int, c + 1);
            }
            let ok = update_traffic_graph(&data.node_locations, &data.chunks[c].road_features, &mut self.traffic_graph, project);
            proof {
                lemma_grows_trans(g0, before, self.traffic_graph, locs, *project);
            }
            if !ok {
                return false;
            }
            proof {
                let ids1 = before.ids();
                let ids2 = self.traffic_graph.ids();
                assert forall|x: u64| #[trigger] batch_ids(chunks, locs, c as int).contains(x) implies ids1[x] == ids2[x] by {
                    assert(ids1.contains_key(x));
                }
                lemma_batch_edges_stable(ids1, ids2, chunks, locs, c as int);
                assert(edge_ends(self.traffic_graph.edges()) =~= edge_ends(g0.edges()) + batch_edges(
                    ids2,
                    chunks,
                    locs,
                    c + 1,
                ));
                assert forall|x: u64| batch_ids(chunks, locs, c + 1).contains(x) <==> (batch_ids(
                    chunks,
                    locs,
                    c as int,
                ).contains(x) || roads_ids(roads, locs, roads.len() as int).contains(x)) by {
                    if batch_ids(chunks, locs, c + 1).contains(x) {
                        let i = choose|i: int|
                            0 <= i < c + 1 && #[trigger] roads_ids(
                                chunks[i].road_features.entries(),
                                locs,
                                chunks[i].road_features.entries().len() as int,
                            ).contains(x);
                        if i < c {
                            assert(batch_ids(chunks, locs, c as int).contains(x));
                        }
                    }
                    if batch_ids(chunks, locs, c as int).contains(x) {
                        let i = choose|i: int|
                            0 <= i < c && #[trigger] roads_ids(
                                chunks[i].road_features.entries(),
                                locs,
                                chunks[i].road_features.entries().len() as int,
                            ).contains(x);
                        assert(roads_ids(
                            chunks[i].road_features.entries(),
                            locs,
                            chunks[i].road_features.entries().len() as int,
                        ).contains(x));
                    }
                }
                assert(self.traffic_graph.ids().dom() =~= g0.ids().dom() + batch_ids(chunks, locs, c + 1));
            }
            c += 1;
        }
        true
    }
}

/// The number of located node ids of the roads of the first `c` chunks,
/// with repeats.
pub open spec fn batch_total(chunks: Seq<Chunk>, locs: Map<u64, GeoLocation>, c: int) -> int
    decreases c,
{
    if c <= 0 {
        0
    } else {
        batch_total(chunks, locs, c - 1) + located_total(
            chunks[c - 1].road_features.entries(),
            locs,
            chunks[c - 1].road_features.entries().len() as int,
        )
    }
}

/// The located node ids of the roads of the first `c` chunks.
pub open spec fn batch_ids(chunks: Seq<Chunk>, locs: Map<u64, GeoLocation>, c: int) -> Set<u64> {
    Set::new(
        |x: u64|
            exists|i: int|
                0 <= i < c && #[trigger] roads_ids(
                    chunks[i].road_features.entries(),
                    locs,
                    chunks[i].road_features.entries().len() as int,
                ).contains(x),
    )
}

/// The endpoints and categories of the edges for the roads of the first `c`
/// chunks, chunk by chunk.
pub open spec fn batch_edges(ids: Map<u64, usize>, chunks: Seq<Chunk>, locs: Map<u64, GeoLocation>, c: int) -> Seq<
    (usize, usize, RoadType),
>
    decreases c,
{
    if c <= 0 {
        Seq::empty()
    } else {
        batch_edges(ids, chunks, locs, c - 1) + roads_edges(
            ids,
            chunks[c - 1].road_features.entries(),
            locs,
            chunks[c - 1].road_features.entries().len() as int,
        )
    }
}

proof fn lemma_batch_total_mono(chunks: Seq<Chunk>, locs: Map<u64, GeoLocation>, c: int, n: int)
    requires
        0 <= c <= n,
    ensures
        0 <= batch_total(chunks, locs, c) <= batch_total(chunks, locs, n),
    decreases n,
{
    if n > 0 {
        lemma_located_total_nonneg(
            chunks[n - 1].road_features.entries(),
            locs,
            chunks[n - 1].road_features.entries().len() as int,
        );
        if c < n {
            lemma_batch_total_mono(chunks, locs, c, n - 1);
        } else {
            lemma_batch_total_mono(chunks, locs, c - 1, n - 1);
        }
    }
}

proof fn lemma_batch_edges_stable(
    ids1: Map<u64, usize>,
    ids2: Map<u64, usize>,
    chunks: Seq<Chunk>,
    locs: Map<u64, GeoLocation>,
    c: int,
)
    requires
        0 <= c <= chunks.len(),
        forall|x: u64| #[trigger] batch_ids(chunks, locs, c).contains(x) ==> ids1[x] == ids2[x],
    ensures
        batch_edges(ids1, chunks, locs, c) == batch_edges(ids2, chunks, locs, c),
    decreases c,
{
    if c > 0 {
        assert forall|x: u64| #[trigger] batch_ids(chunks, locs, c - 1).contains(x) implies ids1[x] == ids2[x] by {
            let i = choose|i: int|
                0 <= i < c - 1 && #[trigger] roads_ids(
                    chunks[i].road_features.entries(),
                    locs,
                    chunks[i].road_features.entries().len() as int,
                ).contains(x);
            assert(batch_ids(chunks, locs, c).contains(x));
        }
        lemma_batch_edges_stable(ids1, ids2, chunks, locs, c - 1);
        let roads = chunks[c - 1].road_features.entries();
        assert forall|j: int, n: int|
            0 <= j < roads.len() && 0 <= n < located(roads[j].1.nodes@, locs).len() implies ids1[#[trigger] located(
            roads[j].1.nodes@,
            locs,
        )[n]] == ids2[located(roads[j].1.nodes@, locs)[n]] by {
            let x = located(roads[j].1.nodes@, locs)[n];
            assert(roads_ids(roads, locs, roads.len() as int).contains(x));
            assert(batch_ids(chunks, locs, c).contains(x));
        }
        lemma_roads_edges_stable(ids1, ids2, roads, locs, roads.len() as int);
    }
}

} // verus!

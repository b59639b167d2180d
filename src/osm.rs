//! Conversion of an OSM JSON document into `GeoData`.

use vstd::prelude::*;
use crate::common::{AppError, DataFormat};
use crate::geography::{
    chunk_of, chunk_position, chunks_wf, feature_type_of, find_feature_type, tag_pairs, Chunk,
    ChunkIndex, Feature, FeatureType, GeoData, GeoLocation, GeoNode, PlanarPoint, Tags,
};
use crate::id_map::IdMap;
use crate::json::{get_member, member, JsonValue};
use crate::text::str_eq;

verus! {

/// The string value of a member.
pub open spec fn string_member(o: Seq<(String, JsonValue)>, key: Seq<char>) -> Option<Seq<char>> {
    match member(o, key) {
        Some(JsonValue::String(s)) => Some(s@),
        _ => None,
    }
}

/// The `type` of an element, if it is a string.
pub open spec fn element_type(o: Seq<(String, JsonValue)>) -> Option<Seq<char>> {
    string_member(o, "type"@)
}

/// The `id` of an element, if it is a non-negative integer.
pub open spec fn element_id(o: Seq<(String, JsonValue)>) -> Option<u64> {
    match member(o, "id"@) {
        Some(JsonValue::Number(n)) => n.unsigned,
        _ => None,
    }
}

/// A coordinate member of a node, in units of 1e-7 degree.
pub open spec fn coordinate(o: Seq<(String, JsonValue)>, key: Seq<char>) -> Option<i32> {
    match member(o, key) {
        Some(JsonValue::Number(n)) => n.degrees_e7,
        _ => None,
    }
}

/// Every member value is a string.
pub open spec fn all_strings(m: Seq<(String, JsonValue)>) -> bool {
    forall|i: int| 0 <= i < m.len() ==> (#[trigger] m[i]).1 is String
}

/// The members of an object of strings, as key/value pairs.
pub open spec fn string_pairs(m: Seq<(String, JsonValue)>) -> Seq<(Seq<char>, Seq<char>)> {
    Seq::new(
        m.len(),
        |i: int|
            (m[i].0@, match m[i].1 {
                JsonValue::String(s) => s@,
                _ => Seq::<char>::empty(),
            }),
    )
}

/// The tags of an element: none when the member is absent; `None` when it
/// is not an object of strings.
pub open spec fn element_tags(o: Seq<(String, JsonValue)>) -> Option<Seq<(Seq<char>, Seq<char>)>> {
    match member(o, "tags"@) {
        None => Some(Seq::empty()),
        Some(JsonValue::Object(m)) => if all_strings(m@) {
            Some(string_pairs(m@))
        } else {
            None
        },
        Some(_) => None,
    }
}

/// Every value is a non-negative integer that fits a `u64`.
pub open spec fn all_ids(a: Seq<JsonValue>) -> bool {
    forall|i: int| 0 <= i < a.len() ==> (#[trigger] a[i]) is Number && a[i]->Number_0.unsigned is Some
}

/// The `nodes` of a way: `None` when the member is not an array of ids.
pub open spec fn element_nodes(o: Seq<(String, JsonValue)>) -> Option<Seq<u64>> {
    match member(o, "nodes"@) {
        Some(JsonValue::Array(a)) => if all_ids(a@) {
            Some(Seq::new(a@.len(), |i: int| a@[i]->Number_0.unsigned->Some_0))
        } else {
            None
        },
        _ => None,
    }
}

/// The id and location of a node element that has both coordinates.
pub open spec fn node_location(el: JsonValue) -> Option<(u64, GeoLocation)> {
    match el {
        JsonValue::Object(o) => if element_type(o@) == Some("node"@) && element_id(o@) is Some
            && coordinate(o@, "lon"@) is Some && coordinate(o@, "lat"@) is Some {
            Some(
                (
                    element_id(o@)->Some_0,
                    GeoLocation {
                        longitude: coordinate(o@, "lon"@)->Some_0,
                        latitude: coordinate(o@, "lat"@)->Some_0,
                    },
                ),
            )
        } else {
            None
        },
        _ => None,
    }
}

/// The node locations given by the first `n` elements; a later one
/// replaces an earlier one of the same id.
pub open spec fn locations_upto(els: Seq<JsonValue>, n: int) -> Map<u64, GeoLocation>
    decreases n,
{
    if n <= 0 {
        Map::empty()
    } else {
        let m = locations_upto(els, n - 1);
        match node_location(els[n - 1]) {
            Some(p) => m.insert(p.0, p.1),
            None => m,
        }
    }
}

/// The node locations of a document's elements.
pub open spec fn node_locations_of(els: Seq<JsonValue>) -> Map<u64, GeoLocation> {
    locations_upto(els, els.len() as int)
}

/// An element is structurally valid: an object with a string `type`, an
/// integer `id` and well-formed `tags`; a tagged node has a location; a way
/// has an array of ids as `nodes`.
pub open spec fn element_ok(el: JsonValue, locs: Map<u64, GeoLocation>) -> bool {
    match el {
        JsonValue::Object(o) => {
            &&& element_type(o@) is Some
            &&& element_id(o@) is Some
            &&& element_tags(o@) is Some
            &&& (element_type(o@) == Some("node"@) && element_tags(o@)->Some_0.len() > 0
                ==> locs.contains_key(element_id(o@)->Some_0))
            &&& (element_type(o@) == Some("way"@) ==> element_nodes(o@) is Some)
        },
        _ => false,
    }
}

/// The `elements` array of a document.
pub open spec fn elements_of(doc: JsonValue) -> Option<Seq<JsonValue>> {
    match doc {
        JsonValue::Object(o) => match member(o@, "elements"@) {
            Some(JsonValue::Array(a)) => Some(a@),
            _ => None,
        },
        _ => None,
    }
}

/// A document is accepted: it has an `elements` array whose elements are
/// all valid.
pub open spec fn osm_valid(doc: JsonValue) -> bool {
    &&& elements_of(doc) is Some
    &&& forall|i: int|
        0 <= i < elements_of(doc)->Some_0.len() ==> element_ok(
            #[trigger] elements_of(doc)->Some_0[i],
            node_locations_of(elements_of(doc)->Some_0),
        )
}

/// Number of the first `n` ids that have a location, with the sums of their
/// longitudes and latitudes.
pub open spec fn resolved_sums(nodes: Seq<u64>, locs: Map<u64, GeoLocation>, n: int) -> (int, int, int)
    decreases n,
{
    if n <= 0 {
        (0, 0, 0)
    } else {
        let s = resolved_sums(nodes, locs, n - 1);
        if locs.contains_key(nodes[n - 1]) {
            (s.0 + 1, s.1 + locs[nodes[n - 1]].longitude, s.2 + locs[nodes[n - 1]].latitude)
        } else {
            s
        }
    }
}

/// The mean location of the ids that have one, each axis rounded down.
pub open spec fn mean_location(nodes: Seq<u64>, locs: Map<u64, GeoLocation>) -> GeoLocation {
    let s = resolved_sums(nodes, locs, nodes.len() as int);
    GeoLocation { longitude: (s.1 / s.0) as i32, latitude: (s.2 / s.0) as i32 }
}

/// A tagged node element: its id, tags and location.
pub open spec fn node_placement(el: JsonValue, locs: Map<u64, GeoLocation>) -> Option<(u64, Seq<(Seq<char>, Seq<char>)>, GeoLocation)> {
    match el {
        JsonValue::Object(o) => if element_type(o@) == Some("node"@) && element_id(o@) is Some
            && element_tags(o@) is Some && element_tags(o@)->Some_0.len() > 0 && locs.contains_key(
            element_id(o@)->Some_0,
        ) {
            Some((element_id(o@)->Some_0, element_tags(o@)->Some_0, locs[element_id(o@)->Some_0]))
        } else {
            None
        },
        _ => None,
    }
}

/// A classified way element with at least one located node: its class, id,
/// node ids, tags and mean location.
pub open spec fn way_placement(el: JsonValue, locs: Map<u64, GeoLocation>) -> Option<
    (FeatureType, u64, Seq<u64>, Seq<(Seq<char>, Seq<char>)>, GeoLocation),
> {
    match el {
        JsonValue::Object(o) => if element_type(o@) == Some("way"@) && element_id(o@) is Some
            && element_tags(o@) is Some && element_nodes(o@) is Some && feature_type_of(
            element_tags(o@)->Some_0,
        ) is Some && resolved_sums(
            element_nodes(o@)->Some_0,
            locs,
            element_nodes(o@)->Some_0.len() as int,
        ).0 > 0 {
            Some(
                (
                    feature_type_of(element_tags(o@)->Some_0)->Some_0,
                    element_id(o@)->Some_0,
                    element_nodes(o@)->Some_0,
                    element_tags(o@)->Some_0,
                    mean_location(element_nodes(o@)->Some_0, locs),
                ),
            )
        } else {
            None
        },
        _ => None,
    }
}

/// The projection may place `loc` in chunk `index`.
pub open spec fn placed_in<F: Fn(GeoLocation) -> PlanarPoint>(project: F, loc: GeoLocation, index: ChunkIndex) -> bool {
    exists|p: PlanarPoint| call_ensures(project, (loc,), p) && chunk_of(p) == index
}

/// Each tagged node among the first `n` elements is in a chunk where its
/// location projects.
#[verifier::opaque]
pub open spec fn nodes_complete<F: Fn(GeoLocation) -> PlanarPoint>(
    chunks: Seq<Chunk>,
    els: Seq<JsonValue>,
    locs: Map<u64, GeoLocation>,
    project: F,
    n: int,
) -> bool {
    forall|j: int|
        0 <= j < n && (#[trigger] node_placement(els[j], locs)) is Some ==> exists|c: int|
            0 <= c < chunks.len() && (#[trigger] chunks[c]).nodes@.contains_key(
                node_placement(els[j], locs)->Some_0.0,
            ) && placed_in(project, node_placement(els[j], locs)->Some_0.2, chunks[c].index)
}

/// Each node in a chunk comes from one of the first `n` elements, whose
/// location projects into that chunk.
#[verifier::opaque]
pub open spec fn nodes_sound<F: Fn(GeoLocation) -> PlanarPoint>(
    chunks: Seq<Chunk>,
    els: Seq<JsonValue>,
    locs: Map<u64, GeoLocation>,
    project: F,
    n: int,
) -> bool {
    forall|c: int, id: u64|
        0 <= c < chunks.len() && #[trigger] chunks[c].nodes@.contains_key(id) ==> exists|j: int|
            0 <= j < n && (#[trigger] node_placement(els[j], locs)) is Some && node_placement(
                els[j],
                locs,
            )->Some_0.0 == id && node_placement(els[j], locs)->Some_0.1 == chunks[c].nodes@[id].tags@
                && placed_in(project, node_placement(els[j], locs)->Some_0.2, chunks[c].index)
}

/// Each classified way among the first `n` elements is in a chunk where its
/// mean location projects.
#[verifier::opaque]
pub open spec fn ways_complete<F: Fn(GeoLocation) -> PlanarPoint>(
    chunks: Seq<Chunk>,
    els: Seq<JsonValue>,
    locs: Map<u64, GeoLocation>,
    project: F,
    n: int,
) -> bool {
    forall|j: int|
        0 <= j < n && (#[trigger] way_placement(els[j], locs)) is Some ==> exists|c: int|
            0 <= c < chunks.len() && (#[trigger] chunks[c]).features(way_placement(els[j], locs)->Some_0.0).contains_key(
                way_placement(els[j], locs)->Some_0.1,
            ) && placed_in(project, way_placement(els[j], locs)->Some_0.4, chunks[c].index)
}

/// Each feature in a chunk comes from one of the first `n` elements, of its
/// class, whose mean location projects into that chunk.
#[verifier::opaque]
pub open spec fn ways_sound<F: Fn(GeoLocation) -> PlanarPoint>(
    chunks: Seq<Chunk>,
    els: Seq<JsonValue>,
    locs: Map<u64, GeoLocation>,
    project: F,
    n: int,
) -> bool {
    forall|c: int, k: FeatureType, id: u64|
        0 <= c < chunks.len() && #[trigger] chunks[c].features(k).contains_key(id) ==> exists|j: int|
            0 <= j < n && (#[trigger] way_placement(els[j], locs)) is Some && way_placement(
                els[j],
                locs,
            )->Some_0.0 == k && way_placement(els[j], locs)->Some_0.1 == id && way_placement(
                els[j],
                locs,
            )->Some_0.2 == chunks[c].features(k)[id].nodes@ && way_placement(els[j], locs)->Some_0.3
                == chunks[c].features(k)[id].tags@ && placed_in(
                project,
                way_placement(els[j], locs)->Some_0.4,
                chunks[c].index,
            )
}

/// The `type` of an element.
fn get_element_type(o: &Vec<(String, JsonValue)>) -> (r: Option<&String>)
    ensures
        match r {
            Some(t) => element_type(o@) == Some(t@),
            None => element_type(o@) is None,
        },
{
    match get_member(o, "type") {
        Some(JsonValue::String(s)) => Some(s),
        _ => None,
    }
}

/// The `id` of an element.
fn get_id(o: &Vec<(String, JsonValue)>) -> (r: Option<u64>)
    ensures
        r == element_id(o@),
{
    match get_member(o, "id") {
        Some(JsonValue::Number(n)) => n.unsigned,
        _ => None,
    }
}

/// A coordinate of a node.
fn get_coordinate(o: &Vec<(String, JsonValue)>, key: &str) -> (r: Option<i32>)
    ensures
        r == coordinate(o@, key@),
{
    match get_member(o, key) {
        Some(JsonValue::Number(n)) => n.degrees_e7,
        _ => None,
    }
}

/// The tags of an element, or `None` when they are not an object of strings.
fn get_tags(o: &Vec<(String, JsonValue)>) -> (r: Option<Tags>)
    ensures
        match r {
            Some(t) => element_tags(o@) == Some(t@),
            None => element_tags(o@) is None,
        },
{
    match get_member(o, "tags") {
        None => {
            let t = Tags::new();
            Some(t)
        },
        Some(JsonValue::Object(m)) => {
            let mut entries: Vec<(String, String)> = Vec::new();
            let mut i: usize = 0;
            while i < m.len()
                invariant
                    member(o@, "tags"@) == Some(JsonValue::Object(*m)),
                    i <= m@.len(),
                    entries@.len() == i,
                    forall|j: int| 0 <= j < i ==> (#[trigger] m@[j]).1 is String,
                    tag_pairs(entries@) =~= string_pairs(m@.subrange(0, i as int)),
                decreases m@.len() - i,
            {
                match &m[i].1 {
                    JsonValue::String(v) => {
                        let ghost prior = entries@;
                        let k = m[i].0.clone();
                        let val = v.clone();
                        entries.push((k, val));
                        assert forall|j: int| 0 <= j < i + 1 implies #[trigger] tag_pairs(entries@)[j]
                            == string_pairs(m@.subrange(0, i + 1))[j] by {
                            if j < i {
                                assert(tag_pairs(prior)[j] == string_pairs(m@.subrange(0, i as int))[j]);
                                assert(entries@[j] == prior[j]);
                            } else {
                                assert(entries@[j] == (k, val));
                            }
                        }
                        assert(tag_pairs(entries@) =~= string_pairs(m@.subrange(0, i + 1)));
                    },
                    _ => {
                        assert(!(m@[i as int].1 is String));
                        assert(!all_strings(m@));
                        return None;
                    },
                }
                i += 1;
            }
            assert(m@.subrange(0, m@.len() as int) =~= m@);
            Some(Tags { entries })
        },
        Some(_) => None,
    }
}

/// The ids of an array, or `None` when one of its values is not a
/// non-negative integer.
fn parse_u64_array(a: &Vec<JsonValue>) -> (r: Option<Vec<u64>>)
    ensures
        match r {
            Some(v) => all_ids(a@) && v@ == Seq::new(a@.len(), |i: int| a@[i]->Number_0.unsigned->Some_0),
            None => !all_ids(a@),
        },
{
    let mut result: Vec<u64> = Vec::new();
    let mut i: usize = 0;
    while i < a.len()
        invariant
            i <= a@.len(),
            result@.len() == i,
            forall|j: int| 0 <= j < i ==> (#[trigger] a@[j]) is Number && a@[j]->Number_0.unsigned is Some,
            forall|j: int| 0 <= j < i ==> #[trigger] result@[j] == a@[j]->Number_0.unsigned->Some_0,
        decreases a@.len() - i,
    {
        match &a[i] {
            JsonValue::Number(n) => match n.unsigned {
                Some(u) => result.push(u),
                None => return None,
            },
            _ => return None,
        }
        i += 1;
    }
    assert(result@ =~= Seq::new(a@.len(), |i: int| a@[i]->Number_0.unsigned->Some_0));
    Some(result)
}

/// The `nodes` of a way.
fn get_nodes(o: &Vec<(String, JsonValue)>) -> (r: Option<Vec<u64>>)
    ensures
        match r {
            Some(v) => element_nodes(o@) == Some(v@),
            None => element_nodes(o@) is None,
        },
{
    match get_member(o, "nodes") {
        Some(JsonValue::Array(a)) => parse_u64_array(a),
        _ => None,
    }
}

/// Division rounded towards negative infinity.
fn floor_div(a: i128, b: i128) -> (r: i128)
    requires
        b > 0,
        a > i128::MIN,
    ensures
        r as int == a as int / b as int,
{
    if a >= 0 {
        a / b
    } else {
        let w: i128 = -(a + 1);
        let q: i128 = w / b;
        assert(-(q as int) - 1 == a as int / b as int) by (nonlinear_arith)
            requires
                w as int == -(a as int + 1),
                q as int == w as int / b as int,
                a < 0,
                b > 0,
        {
        }
        -q - 1
    }
}

proof fn lemma_sums_bounded(nodes: Seq<u64>, locs: Map<u64, GeoLocation>, n: int)
    requires
        0 <= n <= nodes.len(),
    ensures
        0 <= resolved_sums(nodes, locs, n).0 <= n,
        -0x8000_0000 * resolved_sums(nodes, locs, n).0 <= resolved_sums(nodes, locs, n).1 <= 0x7fff_ffff
            * resolved_sums(nodes, locs, n).0,
        -0x8000_0000 * resolved_sums(nodes, locs, n).0 <= resolved_sums(nodes, locs, n).2 <= 0x7fff_ffff
            * resolved_sums(nodes, locs, n).0,
    decreases n,
{
    if n > 0 {
        lemma_sums_bounded(nodes, locs, n - 1);
    }
}

proof fn lemma_mean_in_range(s: int, c: int)
    requires
        c > 0,
        -0x8000_0000 * c <= s <= 0x7fff_ffff * c,
    ensures
        -0x8000_0000 <= s / c <= 0x7fff_ffff,
{
    assert(-0x8000_0000 <= s / c <= 0x7fff_ffff) by (nonlinear_arith)
        requires
            c > 0,
            -0x8000_0000 * c <= s <= 0x7fff_ffff * c,
    {
        vstd::arithmetic::div_mod::lemma_fundamental_div_mod(s, c);
    }
}

/// The mean location of the ids that have one, or `None` when none has.
fn mean_of(nodes: &Vec<u64>, locs: &IdMap<GeoLocation>) -> (r: Option<GeoLocation>)
    requires
        locs.wf(),
    ensures
        match r {
            Some(m) => resolved_sums(nodes@, locs@, nodes@.len() as int).0 > 0 && m == mean_location(
                nodes@,
                locs@,
            ),
            None => resolved_sums(nodes@, locs@, nodes@.len() as int).0 == 0,
        },
{
    let mut count: i128 = 0;
    let mut sum_lon: i128 = 0;
    let mut sum_lat: i128 = 0;
    let mut i: usize = 0;
    while i < nodes.len()
        invariant
            locs.wf(),
            i <= nodes@.len(),
            (count as int, sum_lon as int, sum_lat as int) == resolved_sums(nodes@, locs@, i as int),
        decreases nodes@.len() - i,
    {
        proof {
            lemma_sums_bounded(nodes@, locs@, i as int);
            assert(-0x8000_0000 * count >= -0x8000_0000 * 0x1_0000_0000_0000_0000) by (nonlinear_arith)
                requires
                    0 <= count <= 0x1_0000_0000_0000_0000,
            ;
            assert(0x7fff_ffff * count <= 0x7fff_ffff * 0x1_0000_0000_0000_0000) by (nonlinear_arith)
                requires
                    0 <= count <= 0x1_0000_0000_0000_0000,
            ;
        }
        match locs.get(nodes[i]) {
            Some(loc) => {
                count = count + 1;
                sum_lon = sum_lon + loc.longitude as i128;
                sum_lat = sum_lat + loc.latitude as i128;
            },
            None => {},
        }
        i += 1;
    }
    if count == 0 {
        return None;
    }
    proof {
        lemma_sums_bounded(nodes@, locs@, nodes@.len() as int);
        lemma_mean_in_range(sum_lon as int, count as int);
        lemma_mean_in_range(sum_lat as int, count as int);
        assert(-0x8000_0000 * count >= -0x8000_0000 * 0x1_0000_0000_0000_0000) by (nonlinear_arith)
            requires
                0 <= count <= 0x1_0000_0000_0000_0000,
        ;
    }
    let lon = floor_div(sum_lon, count);
    let lat = floor_div(sum_lat, count);
    Some(GeoLocation { longitude: lon as i32, latitude: lat as i32 })
}

/// The chunks after the one at `r` was found or appended (`mid`) and then
/// changed (`after`) keep the indices and everything else of the chunks
/// before.
pub open spec fn chunk_step(before: Seq<Chunk>, mid: Seq<Chunk>, after: Seq<Chunk>, r: int) -> bool {
    &&& chunks_wf(before)
    &&& chunks_wf(mid)
    &&& 0 <= r < mid.len()
    &&& r < before.len() ==> mid == before
    &&& r >= before.len() ==> {
        &&& r == before.len()
        &&& mid == before.push(mid[r])
        &&& mid[r].nodes@ == Map::<u64, GeoNode>::empty()
        &&& forall|k: FeatureType| #[trigger] mid[r].features(k) == Map::<u64, Feature>::empty()
    }
    &&& after.len() == mid.len()
    &&& forall|c: int| 0 <= c < mid.len() && c != r ==> #[trigger] after[c] == mid[c]
    &&& after[r].index == mid[r].index
    &&& after[r].wf()
}

/// A chunk holds a node or a feature.
pub open spec fn chunk_occupied(c: Chunk) -> bool {
    (exists|id: u64| #[trigger] c.nodes@.contains_key(id)) || (exists|k: FeatureType, id: u64|
        #[trigger] c.features(k).contains_key(id))
}

/// Every chunk holds a node or a feature: chunks are made only to hold one.
#[verifier::opaque]
pub open spec fn chunks_occupied(chunks: Seq<Chunk>) -> bool {
    forall|c: int| 0 <= c < chunks.len() ==> chunk_occupied(#[trigger] chunks[c])
}

/// A node id is in two chunks only when two of the first `n` elements are
/// tagged nodes with that id.
#[verifier::opaque]
pub open spec fn nodes_unique(chunks: Seq<Chunk>, els: Seq<JsonValue>, locs: Map<u64, GeoLocation>, n: int) -> bool {
    forall|c1: int, c2: int, id: u64|
        0 <= c1 < chunks.len() && 0 <= c2 < chunks.len() && c1 != c2 && #[trigger] chunks[c1].nodes@.contains_key(id)
            && #[trigger] chunks[c2].nodes@.contains_key(id) ==> exists|j1: int, j2: int|
            0 <= j1 < n && 0 <= j2 < n && j1 != j2 && #[trigger] node_placement(els[j1], locs) is Some
                && #[trigger] node_placement(els[j2], locs) is Some && node_placement(els[j1], locs)->Some_0.0 == id
                && node_placement(els[j2], locs)->Some_0.0 == id
}

/// A feature id is in two chunks, or in two collections, only when two of
/// the first `n` elements are classified ways with that id.
#[verifier::opaque]
pub open spec fn ways_unique(chunks: Seq<Chunk>, els: Seq<JsonValue>, locs: Map<u64, GeoLocation>, n: int) -> bool {
    forall|c1: int, k1: FeatureType, c2: int, k2: FeatureType, id: u64|
        0 <= c1 < chunks.len() && 0 <= c2 < chunks.len() && (c1 != c2 || k1 != k2)
            && #[trigger] chunks[c1].features(k1).contains_key(id) && #[trigger] chunks[c2].features(k2).contains_key(id)
            ==> exists|j1: int, j2: int|
            0 <= j1 < n && 0 <= j2 < n && j1 != j2 && #[trigger] way_placement(els[j1], locs) is Some
                && #[trigger] way_placement(els[j2], locs) is Some && way_placement(els[j1], locs)->Some_0.1 == id
                && way_placement(els[j2], locs)->Some_0.1 == id
}

/// A classified way whose id no other classified way carries is stored in
/// exactly one chunk, in the collection of its class, and nowhere else.
pub proof fn lemma_way_stored_once<F: Fn(GeoLocation) -> PlanarPoint>(
    chunks: Seq<Chunk>,
    els: Seq<JsonValue>,
    locs: Map<u64, GeoLocation>,
    project: F,
    j: int,
)
    requires
        0 <= j < els.len(),
        way_placement(els[j], locs) is Some,
        forall|i: int|
            0 <= i < els.len() && i != j && #[trigger] way_placement(els[i], locs) is Some ==> way_placement(
                els[i],
                locs,
            )->Some_0.1 != way_placement(els[j], locs)->Some_0.1,
        ways_complete(chunks, els, locs, project, els.len() as int),
        ways_unique(chunks, els, locs, els.len() as int),
    ensures
        exists|c: int|
            0 <= c < chunks.len() && (#[trigger] chunks[c]).features(way_placement(els[j], locs)->Some_0.0).contains_key(
                way_placement(els[j], locs)->Some_0.1,
            ) && forall|c2: int, k2: FeatureType|
                0 <= c2 < chunks.len() && (c2 != c || k2 != way_placement(els[j], locs)->Some_0.0) ==> !(
                #[trigger] chunks[c2].features(k2)).contains_key(way_placement(els[j], locs)->Some_0.1),
{
    reveal(ways_complete);
    reveal(ways_unique);
    let wp = way_placement(els[j], locs)->Some_0;
    assert(way_placement(els[j], locs) is Some);
    let c = choose|c: int|
        0 <= c < chunks.len() && (#[trigger] chunks[c]).features(wp.0).contains_key(wp.1) && placed_in(
            project,
            wp.4,
            chunks[c].index,
        );
    assert forall|c2: int, k2: FeatureType|
        0 <= c2 < chunks.len() && (c2 != c || k2 != wp.0) implies !(#[trigger] chunks[c2].features(k2)).contains_key(
        wp.1,
    ) by {
        if chunks[c2].features(k2).contains_key(wp.1) {
            assert(chunks[c].features(wp.0).contains_key(wp.1));
            let (j1, j2) = choose|j1: int, j2: int|
                0 <= j1 < els.len() && 0 <= j2 < els.len() && j1 != j2 && #[trigger] way_placement(els[j1], locs) is Some
                    && #[trigger] way_placement(els[j2], locs) is Some && way_placement(els[j1], locs)->Some_0.1 == wp.1
                    && way_placement(els[j2], locs)->Some_0.1 == wp.1;
            if j1 != j {
                assert(way_placement(els[j1], locs)->Some_0.1 != wp.1);
            } else {
                assert(way_placement(els[j2], locs)->Some_0.1 != wp.1);
            }
        }
    }
}

proof fn lemma_occupied_step(before: Seq<Chunk>, mid: Seq<Chunk>, after: Seq<Chunk>, r: int)
    requires
        chunk_step(before, mid, after, r),
        chunks_occupied(before),
        chunk_occupied(after[r]),
    ensures
        chunks_occupied(after),
{
    reveal(chunks_occupied);
    assert forall|c: int| 0 <= c < after.len() implies chunk_occupied(#[trigger] after[c]) by {
        if c != r {
            lemma_step_same(before, mid, after, r, c);
            assert(c < before.len());
        }
    }
}

proof fn lemma_nodes_unique_step<F: Fn(GeoLocation) -> PlanarPoint>(
    before: Seq<Chunk>,
    mid: Seq<Chunk>,
    after: Seq<Chunk>,
    els: Seq<JsonValue>,
    locs: Map<u64, GeoLocation>,
    project: F,
    i: int,
    r: int,
)
    requires
        chunk_step(before, mid, after, r),
        forall|key: u64|
            #[trigger] after[r].nodes@.contains_key(key) ==> mid[r].nodes@.contains_key(key) || (node_placement(
                els[i],
                locs,
            ) is Some && node_placement(els[i], locs)->Some_0.0 == key),
        0 <= i < els.len(),
        nodes_sound(before, els, locs, project, i),
        nodes_unique(before, els, locs, i),
    ensures
        nodes_unique(after, els, locs, i + 1),
{
    reveal(nodes_unique);
    reveal(nodes_sound);
    assert forall|c1: int, c2: int, id: u64|
        0 <= c1 < after.len() && 0 <= c2 < after.len() && c1 != c2 && #[trigger] after[c1].nodes@.contains_key(id)
            && #[trigger] after[c2].nodes@.contains_key(id) implies exists|j1: int, j2: int|
        0 <= j1 < i + 1 && 0 <= j2 < i + 1 && j1 != j2 && #[trigger] node_placement(els[j1], locs) is Some
            && #[trigger] node_placement(els[j2], locs) is Some && node_placement(els[j1], locs)->Some_0.0 == id
            && node_placement(els[j2], locs)->Some_0.0 == id by {
        let old1 = if c1 == r {
            mid[r].nodes@.contains_key(id)
        } else {
            true
        };
        let old2 = if c2 == r {
            mid[r].nodes@.contains_key(id)
        } else {
            true
        };
        if c1 != r {
            lemma_step_same(before, mid, after, r, c1);
        } else if old1 {
            assert(r < before.len());
            assert(mid[r] == before[r]);
        }
        if c2 != r {
            lemma_step_same(before, mid, after, r, c2);
        } else if old2 {
            assert(r < before.len());
            assert(mid[r] == before[r]);
        }
        if old1 && old2 {
            assert(before[c1].nodes@.contains_key(id) && before[c2].nodes@.contains_key(id));
        } else if !old1 {
            assert(before[c2].nodes@.contains_key(id));
            let j2 = choose|j: int|
                0 <= j < i && #[trigger] node_placement(els[j], locs) is Some && node_placement(els[j], locs)->Some_0.0
                    == id && node_placement(els[j], locs)->Some_0.1 == before[c2].nodes@[id].tags@ && placed_in(
                    project,
                    node_placement(els[j], locs)->Some_0.2,
                    before[c2].index,
                );
            assert(node_placement(els[i], locs) is Some);
            assert(node_placement(els[j2], locs) is Some);
        } else {
            assert(before[c1].nodes@.contains_key(id));
            let j1 = choose|j: int|
                0 <= j < i && #[trigger] node_placement(els[j], locs) is Some && node_placement(els[j], locs)->Some_0.0
                    == id && node_placement(els[j], locs)->Some_0.1 == before[c1].nodes@[id].tags@ && placed_in(
                    project,
                    node_placement(els[j], locs)->Some_0.2,
                    before[c1].index,
                );
            assert(node_placement(els[i], locs) is Some);
            assert(node_placement(els[j1], locs) is Some);
        }
    }
}

proof fn lemma_ways_unique_step<F: Fn(GeoLocation) -> PlanarPoint>(
    before: Seq<Chunk>,
    mid: Seq<Chunk>,
    after: Seq<Chunk>,
    els: Seq<JsonValue>,
    locs: Map<u64, GeoLocation>,
    project: F,
    i: int,
    r: int,
)
    requires
        chunk_step(before, mid, after, r),
        forall|k: FeatureType, key: u64|
            #[trigger] after[r].features(k).contains_key(key) ==> mid[r].features(k).contains_key(key) || (
            way_placement(els[i], locs) is Some && way_placement(els[i], locs)->Some_0.0 == k && way_placement(
                els[i],
                locs,
            )->Some_0.1 == key),
        0 <= i < els.len(),
        ways_sound(before, els, locs, project, i),
        ways_unique(before, els, locs, i),
    ensures
        ways_unique(after, els, locs, i + 1),
{
    reveal(ways_unique);
    reveal(ways_sound);
    assert forall|c1: int, k1: FeatureType, c2: int, k2: FeatureType, id: u64|
        0 <= c1 < after.len() && 0 <= c2 < after.len() && (c1 != c2 || k1 != k2)
            && #[trigger] after[c1].features(k1).contains_key(id) && #[trigger] after[c2].features(k2).contains_key(
            id,
        ) implies exists|j1: int, j2: int|
        0 <= j1 < i + 1 && 0 <= j2 < i + 1 && j1 != j2 && #[trigger] way_placement(els[j1], locs) is Some
            && #[trigger] way_placement(els[j2], locs) is Some && way_placement(els[j1], locs)->Some_0.1 == id
            && way_placement(els[j2], locs)->Some_0.1 == id by {
        let old1 = if c1 == r {
            mid[r].features(k1).contains_key(id)
        } else {
            true
        };
        let old2 = if c2 == r {
            mid[r].features(k2).contains_key(id)
        } else {
            true
        };
        if c1 != r {
            lemma_step_same(before, mid, after, r, c1);
        } else if old1 {
            assert(r < before.len());
            assert(mid[r] == before[r]);
        }
        if c2 != r {
            lemma_step_same(before, mid, after, r, c2);
        } else if old2 {
            assert(r < before.len());
            assert(mid[r] == before[r]);
        }
        if old1 && old2 {
            assert(before[c1].features(k1).contains_key(id) && before[c2].features(k2).contains_key(id));
        } else if !old1 {
            assert(before[c2].features(k2).contains_key(id));
            let j2 = choose|j: int|
                0 <= j < i && #[trigger] way_placement(els[j], locs) is Some && way_placement(els[j], locs)->Some_0.0
                    == k2 && way_placement(els[j], locs)->Some_0.1 == id && way_placement(els[j], locs)->Some_0.2
                    == before[c2].features(k2)[id].nodes@ && way_placement(els[j], locs)->Some_0.3
                    == before[c2].features(k2)[id].tags@ && placed_in(
                    project,
                    way_placement(els[j], locs)->Some_0.4,
                    before[c2].index,
                );
            assert(way_placement(els[i], locs) is Some);
            assert(way_placement(els[j2], locs) is Some);
        } else {
            assert(before[c1].features(k1).contains_key(id));
            let j1 = choose|j: int|
                0 <= j < i && #[trigger] way_placement(els[j], locs) is Some && way_placement(els[j], locs)->Some_0.0
                    == k1 && way_placement(els[j], locs)->Some_0.1 == id && way_placement(els[j], locs)->Some_0.2
                    == before[c1].features(k1)[id].nodes@ && way_placement(els[j], locs)->Some_0.3
                    == before[c1].features(k1)[id].tags@ && placed_in(
                    project,
                    way_placement(els[j], locs)->Some_0.4,
                    before[c1].index,
                );
            assert(way_placement(els[i], locs) is Some);
            assert(way_placement(els[j1], locs) is Some);
        }
    }
}

/// An element that places nothing keeps the uniqueness of ids.
proof fn lemma_unique_skip(chunks: Seq<Chunk>, els: Seq<JsonValue>, locs: Map<u64, GeoLocation>, i: int)
    requires
        nodes_unique(chunks, els, locs, i),
        ways_unique(chunks, els, locs, i),
    ensures
        nodes_unique(chunks, els, locs, i + 1),
        ways_unique(chunks, els, locs, i + 1),
{
    reveal(nodes_unique);
    reveal(ways_unique);
    assert forall|c1: int, c2: int, id: u64|
        0 <= c1 < chunks.len() && 0 <= c2 < chunks.len() && c1 != c2 && #[trigger] chunks[c1].nodes@.contains_key(id)
            && #[trigger] chunks[c2].nodes@.contains_key(id) implies exists|j1: int, j2: int|
        0 <= j1 < i + 1 && 0 <= j2 < i + 1 && j1 != j2 && #[trigger] node_placement(els[j1], locs) is Some
            && #[trigger] node_placement(els[j2], locs) is Some && node_placement(els[j1], locs)->Some_0.0 == id
            && node_placement(els[j2], locs)->Some_0.0 == id by {
        let (j1, j2) = choose|j1: int, j2: int|
            0 <= j1 < i && 0 <= j2 < i && j1 != j2 && #[trigger] node_placement(els[j1], locs) is Some
                && #[trigger] node_placement(els[j2], locs) is Some && node_placement(els[j1], locs)->Some_0.0 == id
                && node_placement(els[j2], locs)->Some_0.0 == id;
    }
    assert forall|c1: int, k1: FeatureType, c2: int, k2: FeatureType, id: u64|
        0 <= c1 < chunks.len() && 0 <= c2 < chunks.len() && (c1 != c2 || k1 != k2)
            && #[trigger] chunks[c1].features(k1).contains_key(id) && #[trigger] chunks[c2].features(k2).contains_key(
            id,
        ) implies exists|j1: int, j2: int|
        0 <= j1 < i + 1 && 0 <= j2 < i + 1 && j1 != j2 && #[trigger] way_placement(els[j1], locs) is Some
            && #[trigger] way_placement(els[j2], locs) is Some && way_placement(els[j1], locs)->Some_0.1 == id
            && way_placement(els[j2], locs)->Some_0.1 == id by {
        let (j1, j2) = choose|j1: int, j2: int|
            0 <= j1 < i && 0 <= j2 < i && j1 != j2 && #[trigger] way_placement(els[j1], locs) is Some
                && #[trigger] way_placement(els[j2], locs) is Some && way_placement(els[j1], locs)->Some_0.1 == id
                && way_placement(els[j2], locs)->Some_0.1 == id;
    }
}

proof fn lemma_step_same(before: Seq<Chunk>, mid: Seq<Chunk>, after: Seq<Chunk>, r: int, c: int)
    requires
        chunk_step(before, mid, after, r),
        0 <= c < before.len(),
        c != r,
    ensures
        after[c] == before[c],
{
    assert(after[c] == mid[c]);
    if r >= before.len() {
        assert(mid[c] == before.push(mid[r])[c]);
    }
}

proof fn lemma_step_wf(before: Seq<Chunk>, mid: Seq<Chunk>, after: Seq<Chunk>, r: int)
    requires
        chunk_step(before, mid, after, r),
    ensures
        chunks_wf(after),
{
    assert forall|c: int| 0 <= c < after.len() implies (#[trigger] after[c]).wf() by {
        if c != r {
            assert(after[c] == mid[c]);
        }
    }
    assert forall|c: int, d: int|
        0 <= c < after.len() && 0 <= d < after.len() && c != d implies (#[trigger] after[c]).index
        != (#[trigger] after[d]).index by {
        assert(after[c].index == mid[c].index);
        assert(after[d].index == mid[d].index);
    }
}

proof fn lemma_nodes_complete_step<F: Fn(GeoLocation) -> PlanarPoint>(
    before: Seq<Chunk>,
    mid: Seq<Chunk>,
    after: Seq<Chunk>,
    els: Seq<JsonValue>,
    locs: Map<u64, GeoLocation>,
    project: F,
    i: int,
    r: int,
)
    requires
        chunk_step(before, mid, after, r),
        forall|key: u64| #[trigger] mid[r].nodes@.contains_key(key) ==> after[r].nodes@.contains_key(key),
        0 <= i < els.len(),
        node_placement(els[i], locs) is Some ==> after[r].nodes@.contains_key(
            node_placement(els[i], locs)->Some_0.0,
        ) && placed_in(project, node_placement(els[i], locs)->Some_0.2, after[r].index),
        nodes_complete(before, els, locs, project, i),
    ensures
        nodes_complete(after, els, locs, project, i + 1),
{
    reveal(nodes_complete);
    assert forall|j: int|
        0 <= j < i + 1 && (#[trigger] node_placement(els[j], locs)) is Some implies exists|c: int|
        0 <= c < after.len() && (#[trigger] after[c]).nodes@.contains_key(
            node_placement(els[j], locs)->Some_0.0,
        ) && placed_in(project, node_placement(els[j], locs)->Some_0.2, after[c].index) by {
        if j == i {
            assert(after[r].nodes@.contains_key(node_placement(els[i], locs)->Some_0.0));
        } else {
            let np = node_placement(els[j], locs)->Some_0;
            let c = choose|c: int|
                0 <= c < before.len() && (#[trigger] before[c]).nodes@.contains_key(np.0) && placed_in(
                    project,
                    np.2,
                    before[c].index,
                );
            if c == r {
                assert(mid[r] == before[r]);
                assert(after[r].nodes@.contains_key(np.0));
            } else {
                lemma_step_same(before, mid, after, r, c);
            }
        }
    }
}

proof fn lemma_nodes_sound_step<F: Fn(GeoLocation) -> PlanarPoint>(
    before: Seq<Chunk>,
    mid: Seq<Chunk>,
    after: Seq<Chunk>,
    els: Seq<JsonValue>,
    locs: Map<u64, GeoLocation>,
    project: F,
    i: int,
    r: int,
)
    requires
        chunk_step(before, mid, after, r),
        forall|key: u64|
            #[trigger] after[r].nodes@.contains_key(key) ==> (mid[r].nodes@.contains_key(key)
                && after[r].nodes@[key] == mid[r].nodes@[key]) || (node_placement(els[i], locs) is Some
                && node_placement(els[i], locs)->Some_0.0 == key && node_placement(els[i], locs)->Some_0.1
                == after[r].nodes@[key].tags@ && placed_in(
                project,
                node_placement(els[i], locs)->Some_0.2,
                after[r].index,
            )),
        0 <= i < els.len(),
        nodes_sound(before, els, locs, project, i),
    ensures
        nodes_sound(after, els, locs, project, i + 1),
{
    reveal(nodes_sound);
    assert forall|c: int, key: u64|
        0 <= c < after.len() && #[trigger] after[c].nodes@.contains_key(key) implies exists|j: int|
        0 <= j < i + 1 && (#[trigger] node_placement(els[j], locs)) is Some && node_placement(
            els[j],
            locs,
        )->Some_0.0 == key && node_placement(els[j], locs)->Some_0.1 == after[c].nodes@[key].tags@
            && placed_in(project, node_placement(els[j], locs)->Some_0.2, after[c].index) by {
        if c == r {
            if mid[r].nodes@.contains_key(key) && after[r].nodes@[key] == mid[r].nodes@[key] {
                assert(r < before.len());
                assert(mid[r] == before[r]);
                assert(before[r].nodes@.contains_key(key));
            } else {
                assert(node_placement(els[i], locs) is Some);
            }
        } else {
            assert(after[c] == mid[c]);
            assert(c < before.len());
            lemma_step_same(before, mid, after, r, c);
            assert(before[c].nodes@.contains_key(key));
        }
    }
}

proof fn lemma_ways_complete_step<F: Fn(GeoLocation) -> PlanarPoint>(
    before: Seq<Chunk>,
    mid: Seq<Chunk>,
    after: Seq<Chunk>,
    els: Seq<JsonValue>,
    locs: Map<u64, GeoLocation>,
    project: F,
    i: int,
    r: int,
)
    requires
        chunk_step(before, mid, after, r),
        forall|k: FeatureType, key: u64|
            #[trigger] mid[r].features(k).contains_key(key) ==> after[r].features(k).contains_key(key),
        0 <= i < els.len(),
        way_placement(els[i], locs) is Some ==> after[r].features(way_placement(els[i], locs)->Some_0.0).contains_key(
            way_placement(els[i], locs)->Some_0.1,
        ) && placed_in(project, way_placement(els[i], locs)->Some_0.4, after[r].index),
        ways_complete(before, els, locs, project, i),
    ensures
        ways_complete(after, els, locs, project, i + 1),
{
    reveal(ways_complete);
    assert forall|j: int|
        0 <= j < i + 1 && (#[trigger] way_placement(els[j], locs)) is Some implies exists|c: int|
        0 <= c < after.len() && (#[trigger] after[c]).features(way_placement(els[j], locs)->Some_0.0).contains_key(
            way_placement(els[j], locs)->Some_0.1,
        ) && placed_in(project, way_placement(els[j], locs)->Some_0.4, after[c].index) by {
        let wp = way_placement(els[j], locs)->Some_0;
        if j == i {
            assert(after[r].features(wp.0).contains_key(wp.1));
        } else {
            let c = choose|c: int|
                0 <= c < before.len() && (#[trigger] before[c]).features(wp.0).contains_key(wp.1)
                    && placed_in(project, wp.4, before[c].index);
            if c == r {
                assert(mid[r] == before[r]);
                assert(after[r].features(wp.0).contains_key(wp.1));
            } else {
                lemma_step_same(before, mid, after, r, c);
            }
        }
    }
}

proof fn lemma_ways_sound_step<F: Fn(GeoLocation) -> PlanarPoint>(
    before: Seq<Chunk>,
    mid: Seq<Chunk>,
    after: Seq<Chunk>,
    els: Seq<JsonValue>,
    locs: Map<u64, GeoLocation>,
    project: F,
    i: int,
    r: int,
)
    requires
        chunk_step(before, mid, after, r),
        forall|k: FeatureType, key: u64|
            #[trigger] after[r].features(k).contains_key(key) ==> (mid[r].features(k).contains_key(key)
                && after[r].features(k)[key] == mid[r].features(k)[key]) || (way_placement(els[i], locs) is Some
                && way_placement(els[i], locs)->Some_0.0 == k && way_placement(els[i], locs)->Some_0.1 == key
                && way_placement(els[i], locs)->Some_0.2 == after[r].features(k)[key].nodes@
                && way_placement(els[i], locs)->Some_0.3 == after[r].features(k)[key].tags@
                && placed_in(project, way_placement(els[i], locs)->Some_0.4, after[r].index)),
        0 <= i < els.len(),
        ways_sound(before, els, locs, project, i),
    ensures
        ways_sound(after, els, locs, project, i + 1),
{
    reveal(ways_sound);
    assert forall|c: int, k: FeatureType, key: u64|
        0 <= c < after.len() && #[trigger] after[c].features(k).contains_key(key) implies exists|j: int|
        0 <= j < i + 1 && (#[trigger] way_placement(els[j], locs)) is Some && way_placement(
            els[j],
            locs,
        )->Some_0.0 == k && way_placement(els[j], locs)->Some_0.1 == key && way_placement(
            els[j],
            locs,
        )->Some_0.2 == after[c].features(k)[key].nodes@ && way_placement(els[j], locs)->Some_0.3
            == after[c].features(k)[key].tags@ && placed_in(
            project,
            way_placement(els[j], locs)->Some_0.4,
            after[c].index,
        ) by {
        if c == r {
            if mid[r].features(k).contains_key(key) && after[r].features(k)[key] == mid[r].features(k)[key] {
                assert(r < before.len());
                assert(mid[r] == before[r]);
                assert(before[r].features(k).contains_key(key));
            } else {
                assert(way_placement(els[i], locs) is Some);
            }
        } else {
            assert(after[c] == mid[c]);
            assert(c < before.len());
            lemma_step_same(before, mid, after, r, c);
            assert(before[c].features(k).contains_key(key));
        }
    }
}

/// An element that places nothing leaves the chunks as they were.
proof fn lemma_skip_step<F: Fn(GeoLocation) -> PlanarPoint>(
    chunks: Seq<Chunk>,
    els: Seq<JsonValue>,
    locs: Map<u64, GeoLocation>,
    project: F,
    i: int,
)
    requires
        0 <= i < els.len(),
        node_placement(els[i], locs) is None,
        way_placement(els[i], locs) is None,
        nodes_complete(chunks, els, locs, project, i),
        nodes_sound(chunks, els, locs, project, i),
        ways_complete(chunks, els, locs, project, i),
        ways_sound(chunks, els, locs, project, i),
    ensures
        nodes_complete(chunks, els, locs, project, i + 1),
        nodes_sound(chunks, els, locs, project, i + 1),
        ways_complete(chunks, els, locs, project, i + 1),
        ways_sound(chunks, els, locs, project, i + 1),
{
    reveal(nodes_complete);
    reveal(nodes_sound);
    reveal(ways_complete);
    reveal(ways_sound);
    assert forall|c: int, id: u64|
        0 <= c < chunks.len() && #[trigger] chunks[c].nodes@.contains_key(id) implies exists|j: int|
        0 <= j < i + 1 && (#[trigger] node_placement(els[j], locs)) is Some && node_placement(
            els[j],
            locs,
        )->Some_0.0 == id && node_placement(els[j], locs)->Some_0.1 == chunks[c].nodes@[id].tags@
            && placed_in(project, node_placement(els[j], locs)->Some_0.2, chunks[c].index) by {
        assert(chunks[c].nodes@.contains_key(id));
    }
    assert forall|c: int, k: FeatureType, id: u64|
        0 <= c < chunks.len() && #[trigger] chunks[c].features(k).contains_key(id) implies exists|j: int|
        0 <= j < i + 1 && (#[trigger] way_placement(els[j], locs)) is Some && way_placement(
            els[j],
            locs,
        )->Some_0.0 == k && way_placement(els[j], locs)->Some_0.1 == id && way_placement(
            els[j],
            locs,
        )->Some_0.2 == chunks[c].features(k)[id].nodes@ && way_placement(els[j], locs)->Some_0.3
            == chunks[c].features(k)[id].tags@ && placed_in(
            project,
            way_placement(els[j], locs)->Some_0.4,
            chunks[c].index,
        ) by {
        assert(chunks[c].features(k).contains_key(id));
    }
}

/// Placing a tagged node keeps every invariant of the conversion.
proof fn lemma_node_placed<F: Fn(GeoLocation) -> PlanarPoint>(
    before: Seq<Chunk>,
    mid: Seq<Chunk>,
    after: Seq<Chunk>,
    els: Seq<JsonValue>,
    locs: Map<u64, GeoLocation>,
    project: F,
    i: int,
    r: int,
    id: u64,
    tv: Seq<(Seq<char>, Seq<char>)>,
    loc: GeoLocation,
)
    requires
        chunk_step(before, mid, after, r),
        after[r].nodes@ == mid[r].nodes@.insert(id, after[r].nodes@[id]),
        after[r].nodes@[id].tags@ == tv,
        forall|k: FeatureType| #[trigger] after[r].features(k) == mid[r].features(k),
        0 <= i < els.len(),
        node_placement(els[i], locs) == Some((id, tv, loc)),
        way_placement(els[i], locs) is None,
        placed_in(project, loc, mid[r].index),
        nodes_complete(before, els, locs, project, i),
        nodes_sound(before, els, locs, project, i),
        ways_complete(before, els, locs, project, i),
        ways_sound(before, els, locs, project, i),
        chunks_occupied(before),
        nodes_unique(before, els, locs, i),
        ways_unique(before, els, locs, i),
    ensures
        chunks_wf(after),
        nodes_complete(after, els, locs, project, i + 1),
        nodes_sound(after, els, locs, project, i + 1),
        ways_complete(after, els, locs, project, i + 1),
        ways_sound(after, els, locs, project, i + 1),
        chunks_occupied(after),
        nodes_unique(after, els, locs, i + 1),
        ways_unique(after, els, locs, i + 1),
{
    assert(after[r].nodes@.contains_key(id));
    lemma_step_wf(before, mid, after, r);
    lemma_nodes_complete_step(before, mid, after, els, locs, project, i, r);
    lemma_nodes_sound_step(before, mid, after, els, locs, project, i, r);
    lemma_ways_complete_step(before, mid, after, els, locs, project, i, r);
    lemma_ways_sound_step(before, mid, after, els, locs, project, i, r);
    lemma_occupied_step(before, mid, after, r);
    lemma_nodes_unique_step(before, mid, after, els, locs, project, i, r);
    lemma_ways_unique_step(before, mid, after, els, locs, project, i, r);
}

/// Placing a classified way keeps every invariant of the conversion.
proof fn lemma_way_placed<F: Fn(GeoLocation) -> PlanarPoint>(
    before: Seq<Chunk>,
    mid: Seq<Chunk>,
    after: Seq<Chunk>,
    els: Seq<JsonValue>,
    locs: Map<u64, GeoLocation>,
    project: F,
    i: int,
    r: int,
    kind: FeatureType,
    id: u64,
    nv: Seq<u64>,
    tv: Seq<(Seq<char>, Seq<char>)>,
    loc: GeoLocation,
)
    requires
        chunk_step(before, mid, after, r),
        after[r].nodes@ == mid[r].nodes@,
        after[r].features(kind) == mid[r].features(kind).insert(id, after[r].features(kind)[id]),
        after[r].features(kind)[id].nodes@ == nv,
        after[r].features(kind)[id].tags@ == tv,
        forall|k: FeatureType| k != kind ==> #[trigger] after[r].features(k) == mid[r].features(k),
        0 <= i < els.len(),
        way_placement(els[i], locs) == Some((kind, id, nv, tv, loc)),
        node_placement(els[i], locs) is None,
        placed_in(project, loc, mid[r].index),
        nodes_complete(before, els, locs, project, i),
        nodes_sound(before, els, locs, project, i),
        ways_complete(before, els, locs, project, i),
        ways_sound(before, els, locs, project, i),
        chunks_occupied(before),
        nodes_unique(before, els, locs, i),
        ways_unique(before, els, locs, i),
    ensures
        chunks_wf(after),
        nodes_complete(after, els, locs, project, i + 1),
        nodes_sound(after, els, locs, project, i + 1),
        ways_complete(after, els, locs, project, i + 1),
        ways_sound(after, els, locs, project, i + 1),
        chunks_occupied(after),
        nodes_unique(after, els, locs, i + 1),
        ways_unique(after, els, locs, i + 1),
{
    assert(after[r].features(kind).contains_key(id));
    lemma_step_wf(before, mid, after, r);
    lemma_nodes_complete_step(before, mid, after, els, locs, project, i, r);
    lemma_nodes_sound_step(before, mid, after, els, locs, project, i, r);
    lemma_ways_complete_step(before, mid, after, els, locs, project, i, r);
    lemma_ways_sound_step(before, mid, after, els, locs, project, i, r);
    lemma_occupied_step(before, mid, after, r);
    lemma_nodes_unique_step(before, mid, after, els, locs, project, i, r);
    lemma_ways_unique_step(before, mid, after, els, locs, project, i, r);
}

proof fn lemma_invalid(json: JsonValue, els: Seq<JsonValue>, i: int)
    requires
        elements_of(json) == Some(els),
        0 <= i < els.len(),
        !element_ok(els[i], node_locations_of(els)),
    ensures
        !osm_valid(json),
{
    if osm_valid(json) {
        assert(element_ok(elements_of(json)->Some_0[i], node_locations_of(els)));
    }
}

/// The error for a document that is not in the OSM JSON shape.
fn data_error(message: &str) -> (r: AppError)
    ensures
        r matches AppError::DataSyntax { format: DataFormat::OsmJson, line: None, character: None, .. },
{
    AppError::DataSyntax { format: DataFormat::OsmJson, line: None, character: None, message: message.to_string() }
}

/// The position of the chunk with the given index, appending an empty one
/// when there is none.
fn chunk_for(chunks: &mut Vec<Chunk>, index: ChunkIndex) -> (r: usize)
    requires
        chunks_wf(old(chunks)@),
    ensures
        chunks_wf(final(chunks)@),
        r < final(chunks)@.len(),
        final(chunks)@[r as int].index == index,
        r < old(chunks)@.len() ==> final(chunks)@ == old(chunks)@,
        r >= old(chunks)@.len() ==> {
            &&& r == old(chunks)@.len()
            &&& final(chunks)@ == old(chunks)@.push(final(chunks)@[r as int])
            &&& final(chunks)@[r as int].nodes@ == Map::<u64, GeoNode>::empty()
            &&& forall|k: FeatureType| #[trigger] final(chunks)@[r as int].features(k) == Map::<u64, Feature>::empty()
        },
{
    match chunk_position(chunks, index) {
        Some(r) => r,
        None => {
            let c = Chunk::new(index);
            chunks.push(c);
            chunks.len() - 1
        },
    }
}

/// No chunks hold nothing, with no element read.
proof fn lemma_placement_start<F: Fn(GeoLocation) -> PlanarPoint>(
    els: Seq<JsonValue>,
    locs: Map<u64, GeoLocation>,
    project: F,
)
    ensures
        chunks_wf(Seq::<Chunk>::empty()),
        nodes_complete(Seq::<Chunk>::empty(), els, locs, project, 0),
        nodes_sound(Seq::<Chunk>::empty(), els, locs, project, 0),
        ways_complete(Seq::<Chunk>::empty(), els, locs, project, 0),
        ways_sound(Seq::<Chunk>::empty(), els, locs, project, 0),
        chunks_occupied(Seq::<Chunk>::empty()),
        nodes_unique(Seq::<Chunk>::empty(), els, locs, 0),
        ways_unique(Seq::<Chunk>::empty(), els, locs, 0),
{
    reveal(nodes_complete);
    reveal(nodes_sound);
    reveal(ways_complete);
    reveal(ways_sound);
    reveal(nodes_unique);
    reveal(ways_unique);
    reveal(chunks_occupied);
}

/// Checks element `i` and places it, if it is a tagged node or a classified
/// way.
fn place_element<F: Fn(GeoLocation) -> PlanarPoint>(
    elements: &Vec<JsonValue>,
    node_locations: &IdMap<GeoLocation>,
    project: &F,
    chunks: &mut Vec<Chunk>,
    i: usize,
) -> (r: Result<(), AppError>)
    requires
        i < elements@.len(),
        node_locations.wf(),
        node_locations@ == node_locations_of(elements@),
        forall|l: GeoLocation| #[trigger] call_requires(*project, (l,)),
        chunks_wf(old(chunks)@),
        nodes_complete(old(chunks)@, elements@, node_locations@, *project, i as int),
        nodes_sound(old(chunks)@, elements@, node_locations@, *project, i as int),
        ways_complete(old(chunks)@, elements@, node_locations@, *project, i as int),
        ways_sound(old(chunks)@, elements@, node_locations@, *project, i as int),
        chunks_occupied(old(chunks)@),
        nodes_unique(old(chunks)@, elements@, node_locations@, i as int),
        ways_unique(old(chunks)@, elements@, node_locations@, i as int),
    ensures
        match r {
            Ok(_) => {
                &&& element_ok(elements@[i as int], node_locations@)
                &&& chunks_wf(final(chunks)@)
                &&& nodes_complete(final(chunks)@, elements@, node_locations@, *project, i + 1)
                &&& nodes_sound(final(chunks)@, elements@, node_locations@, *project, i + 1)
                &&& ways_complete(final(chunks)@, elements@, node_locations@, *project, i + 1)
                &&& ways_sound(final(chunks)@, elements@, node_locations@, *project, i + 1)
                &&& chunks_occupied(final(chunks)@)
                &&& nodes_unique(final(chunks)@, elements@, node_locations@, i + 1)
                &&& ways_unique(final(chunks)@, elements@, node_locations@, i + 1)
            },
            Err(e) => !element_ok(elements@[i as int], node_locations@) && e matches AppError::DataSyntax {
                format: DataFormat::OsmJson,
                line: None,
                character: None,
                ..
            },
        },
{
    let ghost els = elements@;
    let ghost locs = node_locations@;
    let o = match &elements[i] {
        JsonValue::Object(o) => o,
        _ => {
            assert(!element_ok(els[i as int], locs));
            return Err(data_error("an element in the `elements` array must be an object"));
        },
    };
    let t = match get_element_type(o) {
        Some(t) => t,
        None => {
            assert(!element_ok(els[i as int], locs));
            return Err(data_error("an element must have a `type` tag that is a string"));
        },
    };
    let id = match get_id(o) {
        Some(id) => id,
        None => {
            assert(!element_ok(els[i as int], locs));
            return Err(data_error("an element must have an `id` tag that is a nonnegative integer"));
        },
    };
    let tags = match get_tags(o) {
        Some(tags) => tags,
        None => {
            assert(!element_ok(els[i as int], locs));
            return Err(data_error("`tags` field must be a map from strings to strings"));
        },
    };
    proof {
        reveal_strlit("node");
        reveal_strlit("way");
    }
    let ghost before = chunks@;
    let is_node = str_eq(t.as_str(), "node");
    let is_way = str_eq(t.as_str(), "way");
    assert(els[i as int] == JsonValue::Object(*o));
    assert("node"@.len() == 4 && "way"@.len() == 3);
    assert("node"@ != "way"@);
    if is_node {
        assert(element_type(o@) == Some("node"@));
        assert(way_placement(els[i as int], locs) is None);
        if !tags.is_empty() {
            let loc = match node_locations.get(id) {
                Some(l) => *l,
                None => {
                    assert(!element_ok(els[i as int], locs));
                    return Err(data_error("node has tags but no location"));
                },
            };
            let p = project(loc);
            let index = ChunkIndex::from_vec2(p);
            assert(placed_in(*project, loc, index));
            let r = chunk_for(chunks, index);
            let ghost mid = chunks@;
            let ghost tv = tags@;
            chunks[r].nodes.insert(id, GeoNode { tags });
            proof {
                assert(node_placement(els[i as int], locs) == Some((id, tv, loc)));
                assert(chunk_step(before, mid, chunks@, r as int));
                lemma_node_placed(before, mid, chunks@, els, locs, *project, i as int, r as int, id, tv, loc);
            }
        } else {
            assert(node_placement(els[i as int], locs) is None);
            proof {
                lemma_skip_step(chunks@, els, locs, *project, i as int);
                lemma_unique_skip(chunks@, els, locs, i as int);
            }
        }
    } else if is_way {
        assert(node_placement(els[i as int], locs) is None);
        let nodes = match get_nodes(o) {
            Some(n) => n,
            None => {
                assert(!element_ok(els[i as int], locs));
                return Err(data_error("`nodes` array must not contain non-integral values"));
            },
        };
        match find_feature_type(&tags) {
            Some(kind) => match mean_of(&nodes, &node_locations) {
                Some(mean) => {
                    let p = project(mean);
                    let index = ChunkIndex::from_vec2(p);
                    assert(placed_in(*project, mean, index));
                    let r = chunk_for(chunks, index);
                    let ghost mid = chunks@;
                    let ghost nv = nodes@;
                    let ghost tv = tags@;
                    chunks[r].insert_feature(kind, id, Feature { nodes, tags });
                    proof {
                        assert(way_placement(els[i as int], locs) == Some((kind, id, nv, tv, mean)));
                        assert(chunk_step(before, mid, chunks@, r as int));
                        lemma_way_placed(before, mid, chunks@, els, locs, *project, i as int, r as int, kind, id, nv, tv, mean);
                    }
                },
                None => {
                    assert(way_placement(els[i as int], locs) is None);
                    proof {
                        lemma_skip_step(chunks@, els, locs, *project, i as int);
                lemma_unique_skip(chunks@, els, locs, i as int);
                    }
                },
            },
            None => {
                assert(way_placement(els[i as int], locs) is None);
                proof {
                    lemma_skip_step(chunks@, els, locs, *project, i as int);
                lemma_unique_skip(chunks@, els, locs, i as int);
                }
            },
        }
    } else {
        assert(node_placement(els[i as int], locs) is None);
        assert(way_placement(els[i as int], locs) is None);
        proof {
            lemma_skip_step(chunks@, els, locs, *project, i as int);
                lemma_unique_skip(chunks@, els, locs, i as int);
        }
    }
    Ok(())
}

/// The second pass of the conversion: checks every element and places each
/// tagged node and each classified way in the chunk of the projection of
/// its location.
fn place_features<F: Fn(GeoLocation) -> PlanarPoint>(
    elements: &Vec<JsonValue>,
    node_locations: &IdMap<GeoLocation>,
    project: &F,
) -> (r: Result<Vec<Chunk>, AppError>)
    requires
        node_locations.wf(),
        node_locations@ == node_locations_of(elements@),
        forall|l: GeoLocation| #[trigger] call_requires(*project, (l,)),
    ensures
        r is Ok <==> forall|j: int| 0 <= j < elements@.len() ==> element_ok(#[trigger] elements@[j], node_locations@),
        match r {
            Ok(chunks) => {
                let els = elements@;
                let locs = node_locations@;
                let n = els.len() as int;
                &&& chunks_wf(chunks@)
                &&& nodes_complete(chunks@, els, locs, *project, n)
                &&& nodes_sound(chunks@, els, locs, *project, n)
                &&& ways_complete(chunks@, els, locs, *project, n)
                &&& ways_sound(chunks@, els, locs, *project, n)
                &&& chunks_occupied(chunks@)
                &&& nodes_unique(chunks@, els, locs, n)
                &&& ways_unique(chunks@, els, locs, n)
            },
            Err(e) => e matches AppError::DataSyntax { format: DataFormat::OsmJson, line: None, character: None, .. },
        },
{
    let ghost els = elements@;
    let ghost locs = node_locations@;
    let mut chunks: Vec<Chunk> = Vec::new();
    proof {
        lemma_placement_start(els, locs, *project);
    }
    let mut i: usize = 0;
    while i < elements.len()
        invariant
            els == elements@,
            locs == node_locations_of(els),
            i <= els.len(),
            node_locations.wf(),
            node_locations@ == locs,
            forall|l: GeoLocation| #[trigger] call_requires(*project, (l,)),
            chunks_wf(chunks@),
            forall|j: int| 0 <= j < i ==> element_ok(#[trigger] els[j], locs),
            nodes_complete(chunks@, els, locs, *project, i as int),
            nodes_sound(chunks@, els, locs, *project, i as int),
            ways_complete(chunks@, els, locs, *project, i as int),
            ways_sound(chunks@, els, locs, *project, i as int),
            chunks_occupied(chunks@),
            nodes_unique(chunks@, els, locs, i as int),
            ways_unique(chunks@, els, locs, i as int),
        decreases els.len() - i,
    {
        let placed = place_element(elements, node_locations, project, &mut chunks, i);
        if let Err(e) = placed {
            return Err(e);
        }
        i += 1;
    }
    Ok(chunks)
}

/// Converts an OSM JSON document to `GeoData`, placing each feature in the
/// chunk of the projection of its location.
///
/// A first pass records the location of every node element that has both
/// coordinates. A second pass puts each tagged node in the chunk of its
/// location, and each way classified by `feature_type_of` in the chunk of
/// the mean location of its nodes that have one (a way none of whose nodes
/// has a location is left out). Relations and other elements are ignored.
/// A document that is not an object with an `elements` array, or one of
/// whose elements is not valid (see `element_ok`), is refused with a
/// data-syntax error.
pub fn convert_osm_json<F: Fn(GeoLocation) -> PlanarPoint>(json: &JsonValue, project: &F) -> (r: Result<GeoData, AppError>)
    requires
        forall|l: GeoLocation| #[trigger] call_requires(*project, (l,)),
    ensures
        r is Ok <==> osm_valid(*json),
        match r {
            Ok(gd) => {
                let els = elements_of(*json)->Some_0;
                let locs = node_locations_of(els);
                &&& gd.wf()
                &&& gd.node_locations@ == locs
                &&& nodes_complete(gd.chunks@, els, locs, *project, els.len() as int)
                &&& nodes_sound(gd.chunks@, els, locs, *project, els.len() as int)
                &&& ways_complete(gd.chunks@, els, locs, *project, els.len() as int)
                &&& ways_sound(gd.chunks@, els, locs, *project, els.len() as int)
                &&& chunks_occupied(gd.chunks@)
                &&& nodes_unique(gd.chunks@, els, locs, els.len() as int)
                &&& ways_unique(gd.chunks@, els, locs, els.len() as int)
            },
            Err(e) => e matches AppError::DataSyntax { format: DataFormat::OsmJson, line: None, character: None, .. },
        },
{
    let root = match json {
        JsonValue::Object(o) => o,
        _ => return Err(data_error("OSM JSON root must be an object")),
    };
    let elements = match get_member(root, "elements") {
        Some(JsonValue::Array(a)) => a,
        _ => return Err(data_error("OSM JSON root needs to have an `elements` key that is an array")),
    };
    let ghost els = elements@;
    assert(elements_of(*json) == Some(els));

    let mut node_locations: IdMap<GeoLocation> = IdMap::new();
    let mut i: usize = 0;
    while i < elements.len()
        invariant
            els == elements@,
            elements_of(*json) == Some(els),
            i <= els.len(),
            node_locations.wf(),
            node_locations@ == locations_upto(els, i as int),
        decreases els.len() - i,
    {
        let o = match &elements[i] {
            JsonValue::Object(o) => o,
            _ => {
                proof {
                    lemma_invalid(*json, els, i as int);
                }
                return Err(data_error("an element in the `elements` array must be an object"));
            },
        };
        let t = match get_element_type(o) {
            Some(t) => t,
            None => {
                proof {
                    lemma_invalid(*json, els, i as int);
                }
                return Err(data_error("an element must have a `type` tag that is a string"));
            },
        };
        if str_eq(t.as_str(), "node") {
            let id = match get_id(o) {
                Some(id) => id,
                None => {
                    proof {
                    lemma_invalid(*json, els, i as int);
                }
                    return Err(data_error("an element must have an `id` tag that is a nonnegative integer"));
                },
            };
            match (get_coordinate(o, "lon"), get_coordinate(o, "lat")) {
                (Some(longitude), Some(latitude)) => {
                    node_locations.insert(id, GeoLocation { longitude, latitude });
                },
                _ => {},
            }
        }
        i += 1;
    }
    let ghost locs = node_locations_of(els);
    assert(node_locations@ == locs);

    match place_features(elements, &node_locations, project) {
        Ok(chunks) => {
            assert(osm_valid(*json));
            Ok(GeoData { node_locations, chunks })
        },
        Err(e) => {
            proof {
                let j = choose|j: int| 0 <= j < els.len() && !element_ok(#[trigger] els[j], locs);
                lemma_invalid(*json, els, j);
            }
            Err(e)
        },
    }
}

} // verus!

//! The in-memory geography model: locations, tags, features and chunks.

use vstd::prelude::*;
use crate::text::str_eq;
use crate::id_map::IdMap;

verus! {

/// Side length of a chunk, in planar units.
pub const CHUNK_SIZE: i64 = 800_000;

/// A point on the projected plane, in thousandths of a world unit.
#[derive(Clone, Copy, Debug, PartialEq, Eq, Structural)]
pub struct PlanarPoint {
    pub x: i64,
    pub y: i64,
}

/// Largest coordinate magnitude for which triangle areas are computed exactly.
pub const COORD_LIMIT: i64 = 0x1000_0000_0000_0000;

/// The point lies within the coordinate limit.
pub open spec fn point_in_range(p: PlanarPoint) -> bool {
    -COORD_LIMIT <= p.x <= COORD_LIMIT && -COORD_LIMIT <= p.y <= COORD_LIMIT
}

/// Every point of the sequence lies within the coordinate limit.
pub open spec fn points_in_range(p: Seq<PlanarPoint>) -> bool {
    forall|i: int|
        0 <= i < p.len() ==> -COORD_LIMIT <= #[trigger] p[i].x <= COORD_LIMIT && -COORD_LIMIT
            <= p[i].y <= COORD_LIMIT
}

/// Identifier of a chunk: a tile of the plane, `CHUNK_SIZE` on each side.
#[derive(Clone, Copy, Debug, PartialEq, Eq, Hash, Structural)]
pub struct ChunkIndex {
    pub x: i64,
    pub z: i64,
}

/// The chunk that holds a planar point: each axis divided by the chunk size,
/// rounded down.
pub open spec fn chunk_of(p: PlanarPoint) -> ChunkIndex {
    ChunkIndex { x: (p.x as int / CHUNK_SIZE as int) as i64, z: (p.y as int / CHUNK_SIZE as int) as i64 }
}

/// Division rounded towards negative infinity by the chunk size.
fn floor_div_chunk(v: i64) -> (r: i64)
    ensures
        r as int == v as int / CHUNK_SIZE as int,
{
    if v >= 0 {
        let q = v / CHUNK_SIZE;
        assert(q as int == v as int / CHUNK_SIZE as int);
        q
    } else {
        let w: i64 = -(v + 1);
        let q: i64 = w / CHUNK_SIZE;
        assert(q as int == w as int / CHUNK_SIZE as int);
        assert(-(q as int) - 1 == v as int / CHUNK_SIZE as int) by (nonlinear_arith)
            requires
                w as int == -(v as int + 1),
                q as int == w as int / 800_000,
                v < 0,
        {
        }
        -q - 1
    }
}

/// Points whose coordinates round down to the same multiples of the chunk
/// size lie in the same chunk; moving a point by one chunk size along an
/// axis moves its chunk by one along that axis.
pub proof fn lemma_chunk_grid(p: PlanarPoint, q: PlanarPoint)
    requires
        p.x as int / CHUNK_SIZE as int == q.x as int / CHUNK_SIZE as int,
        p.y as int / CHUNK_SIZE as int == q.y as int / CHUNK_SIZE as int,
        p.x + CHUNK_SIZE <= i64::MAX,
        p.y + CHUNK_SIZE <= i64::MAX,
    ensures
        chunk_of(p) == chunk_of(q),
        chunk_of(PlanarPoint { x: (p.x + CHUNK_SIZE) as i64, y: p.y }).x == chunk_of(p).x + 1,
        chunk_of(PlanarPoint { x: (p.x + CHUNK_SIZE) as i64, y: p.y }).z == chunk_of(p).z,
        chunk_of(PlanarPoint { x: p.x, y: (p.y + CHUNK_SIZE) as i64 }).z == chunk_of(p).z + 1,
        chunk_of(PlanarPoint { x: p.x, y: (p.y + CHUNK_SIZE) as i64 }).x == chunk_of(p).x,
{
    let c = CHUNK_SIZE as int;
    let x = p.x as int;
    let y = p.y as int;
    vstd::arithmetic::div_mod::lemma_fundamental_div_mod(x, c);
    vstd::arithmetic::div_mod::lemma_fundamental_div_mod_converse(x + c, c, x / c + 1, x % c);
    vstd::arithmetic::div_mod::lemma_fundamental_div_mod(y, c);
    vstd::arithmetic::div_mod::lemma_fundamental_div_mod_converse(y + c, c, y / c + 1, y % c);
    assert(-0x8000_0000_0000_0000 <= x / c <= 0x7fff_ffff_ffff_ffff) by (nonlinear_arith)
        requires
            c == 800_000,
            -0x8000_0000_0000_0000 <= x <= 0x7fff_ffff_ffff_ffff,
    ;
    assert(-0x8000_0000_0000_0000 <= y / c <= 0x7fff_ffff_ffff_ffff) by (nonlinear_arith)
        requires
            c == 800_000,
            -0x8000_0000_0000_0000 <= y <= 0x7fff_ffff_ffff_ffff,
    ;
    assert((x + c) / c <= 0x7fff_ffff_ffff_ffff) by (nonlinear_arith)
        requires
            c == 800_000,
            x + c <= 0x7fff_ffff_ffff_ffff,
    ;
    assert((y + c) / c <= 0x7fff_ffff_ffff_ffff) by (nonlinear_arith)
        requires
            c == 800_000,
            y + c <= 0x7fff_ffff_ffff_ffff,
    ;
}

impl ChunkIndex {
    /// The chunk that holds a planar point.
    pub fn from_vec2(p: PlanarPoint) -> (r: ChunkIndex)
        ensures
            r == chunk_of(p),
    {
        ChunkIndex { x: floor_div_chunk(p.x), z: floor_div_chunk(p.y) }
    }
}


/// A point on the surface of the earth, in units of 1e-7 degree.
#[derive(Clone, Copy, Debug, PartialEq, Eq, Structural)]
pub struct GeoLocation {
    /// West to east.
    pub longitude: i32,
    /// South to north.
    pub latitude: i32,
}

/// Tags of a node or a way: key/value pairs in document order.
pub struct Tags {
    pub entries: Vec<(String, String)>,
}

/// Key/value pairs as character sequences.
pub open spec fn tag_pairs(s: Seq<(String, String)>) -> Seq<(Seq<char>, Seq<char>)> {
    s.map_values(|e: (String, String)| (e.0@, e.1@))
}

impl View for Tags {
    type V = Seq<(Seq<char>, Seq<char>)>;

    open spec fn view(&self) -> Seq<(Seq<char>, Seq<char>)> {
        tag_pairs(self.entries@)
    }
}

/// The value of the first pair with the given key.
pub open spec fn tag_lookup(s: Seq<(Seq<char>, Seq<char>)>, key: Seq<char>) -> Option<Seq<char>>
    decreases s.len(),
{
    if s.len() == 0 {
        None
    } else if s[0].0 == key {
        Some(s[0].1)
    } else {
        tag_lookup(s.drop_first(), key)
    }
}

impl Tags {
    /// No tags.
    pub fn new() -> (r: Tags)
        ensures
            r@ == Seq::<(Seq<char>, Seq<char>)>::empty(),
    {
        let r = Tags { entries: Vec::new() };
        assert(r@ =~= Seq::<(Seq<char>, Seq<char>)>::empty());
        r
    }

    /// Whether there are no tags.
    pub fn is_empty(&self) -> (r: bool)
        ensures
            r == (self@.len() == 0),
    {
        self.entries.len() == 0
    }

    /// The value of a key.
    pub fn get(&self, key: &str) -> (r: Option<&String>)
        ensures
            match r {
                Some(v) => tag_lookup(self@, key@) == Some(v@),
                None => tag_lookup(self@, key@) is None,
            },
    {
        let n = self.entries.len();
        let mut i: usize = 0;
        assert(self@.subrange(0, n as int) =~= self@);
        while i < n
            invariant
                n == self.entries@.len(),
                i <= n,
                tag_lookup(self@, key@) == tag_lookup(self@.subrange(i as int, n as int), key@),
            decreases n - i,
        {
            assert(self@.subrange(i as int, n as int).drop_first() =~= self@.subrange(i + 1, n as int));
            if str_eq(self.entries[i].0.as_str(), key) {
                return Some(&self.entries[i].1);
            }
            i += 1;
        }
        None
    }

    /// Whether a key is present.
    pub fn contains_key(&self, key: &str) -> (r: bool)
        ensures
            r == tag_lookup(self@, key@) is Some,
    {
        match self.get(key) {
            Some(v) => true,
            None => false,
        }
    }
}

/// A point feature that carries tags.
pub struct GeoNode {
    pub tags: Tags,
}

/// A feature made of an ordered list of OSM node ids.
pub struct Feature {
    pub nodes: Vec<u64>,
    pub tags: Tags,
}

/// A map feature that models a building.
pub type BuildingFeature = Feature;

/// A map feature that models a road.
pub type RoadFeature = Feature;

/// A map feature that models the land use of an area.
pub type LandUseFeature = Feature;

/// A map feature that models a lake.
pub type LakeFeature = Feature;

/// A map feature that models a river.
pub type RiverFeature = Feature;

/// The classes of way features.
#[derive(Clone, Copy, Debug, PartialEq, Eq, Structural)]
pub enum FeatureType {
    Building,
    Road,
    LandUse,
    Lake,
    River,
}

/// Classification of a way by its tags, in order of priority: `building`,
/// `waterway`, `highway`, `landuse`, then `natural=water`.
pub open spec fn feature_type_of(tags: Seq<(Seq<char>, Seq<char>)>) -> Option<FeatureType> {
    if tag_lookup(tags, "building"@) is Some {
        Some(FeatureType::Building)
    } else if tag_lookup(tags, "waterway"@) is Some {
        Some(FeatureType::River)
    } else if tag_lookup(tags, "highway"@) is Some {
        Some(FeatureType::Road)
    } else if tag_lookup(tags, "landuse"@) is Some {
        Some(FeatureType::LandUse)
    } else if tag_lookup(tags, "natural"@) == Some("water"@) {
        Some(FeatureType::Lake)
    } else {
        None
    }
}

/// Classifies a way by its tags.
pub fn find_feature_type(tags: &Tags) -> (r: Option<FeatureType>)
    ensures
        r == feature_type_of(tags@),
{
    if tags.contains_key("building") {
        Some(FeatureType::Building)
    } else if tags.contains_key("waterway") {
        Some(FeatureType::River)
    } else if tags.contains_key("highway") {
        Some(FeatureType::Road)
    } else if tags.contains_key("landuse") {
        Some(FeatureType::LandUse)
    } else {
        match tags.get("natural") {
            Some(v) => {
                if str_eq(v.as_str(), "water") {
                    Some(FeatureType::Lake)
                } else {
                    None
                }
            },
            None => None,
        }
    }
}


/// The nodes and features that lie within one chunk.
pub struct Chunk {
    pub index: ChunkIndex,
    pub nodes: IdMap<GeoNode>,
    pub building_features: IdMap<BuildingFeature>,
    pub road_features: IdMap<RoadFeature>,
    pub land_use_features: IdMap<LandUseFeature>,
    pub lake_features: IdMap<LakeFeature>,
    pub river_features: IdMap<RiverFeature>,
}

impl Chunk {
    /// The features of one class.
    pub open spec fn features(&self, kind: FeatureType) -> Map<u64, Feature> {
        match kind {
            FeatureType::Building => self.building_features@,
            FeatureType::Road => self.road_features@,
            FeatureType::LandUse => self.land_use_features@,
            FeatureType::Lake => self.lake_features@,
            FeatureType::River => self.river_features@,
        }
    }

    /// Every id map is well formed.
    pub open spec fn wf(&self) -> bool {
        &&& self.nodes.wf()
        &&& self.building_features.wf()
        &&& self.road_features.wf()
        &&& self.land_use_features.wf()
        &&& self.lake_features.wf()
        &&& self.river_features.wf()
    }

    /// A chunk with nothing in it.
    pub fn new(index: ChunkIndex) -> (r: Chunk)
        ensures
            r.wf(),
            r.index == index,
            r.nodes@ == Map::<u64, GeoNode>::empty(),
            forall|k: FeatureType| #[trigger] r.features(k) == Map::<u64, Feature>::empty(),
    {
        Chunk {
            index,
            nodes: IdMap::new(),
            building_features: IdMap::new(),
            road_features: IdMap::new(),
            land_use_features: IdMap::new(),
            lake_features: IdMap::new(),
            river_features: IdMap::new(),
        }
    }

    /// Adds a feature of the given class, replacing one with the same id.
    pub fn insert_feature(&mut self, kind: FeatureType, id: u64, feature: Feature)
        requires
            old(self).wf(),
        ensures
            final(self).wf(),
            final(self).index == old(self).index,
            final(self).nodes@ == old(self).nodes@,
            final(self).features(kind) == old(self).features(kind).insert(id, feature),
            forall|k: FeatureType| k != kind ==> #[trigger] final(self).features(k) == old(self).features(k),
    {
        match kind {
            FeatureType::Building => self.building_features.insert(id, feature),
            FeatureType::Road => self.road_features.insert(id, feature),
            FeatureType::LandUse => self.land_use_features.insert(id, feature),
            FeatureType::Lake => self.lake_features.insert(id, feature),
            FeatureType::River => self.river_features.insert(id, feature),
        }
    }
}

/// The chunks hold distinct indices and are each well formed.
pub open spec fn chunks_wf(chunks: Seq<Chunk>) -> bool {
    &&& forall|c: int| 0 <= c < chunks.len() ==> (#[trigger] chunks[c]).wf()
    &&& forall|c: int, d: int|
        0 <= c < chunks.len() && 0 <= d < chunks.len() && c != d ==> (#[trigger] chunks[c]).index
            != (#[trigger] chunks[d]).index
}

/// A collection of geographic data: node locations, and features bucketed
/// by chunk.
pub struct GeoData {
    pub node_locations: IdMap<GeoLocation>,
    pub chunks: Vec<Chunk>,
}

impl GeoData {
    /// The location map and every chunk are well formed.
    pub open spec fn wf(&self) -> bool {
        self.node_locations.wf() && chunks_wf(self.chunks@)
    }

    /// Whether there are no node locations and no chunks.
    pub fn is_empty(&self) -> (r: bool)
        ensures
            r == (self.node_locations.entries().len() == 0 && self.chunks@.len() == 0),
    {
        self.node_locations.len() == 0 && self.chunks.len() == 0
    }

    /// The position of the chunk with the given index.
    pub fn find_chunk(&self, index: ChunkIndex) -> (r: Option<usize>)
        ensures
            match r {
                Some(c) => c < self.chunks@.len() && self.chunks@[c as int].index == index,
                None => forall|c: int| 0 <= c < self.chunks@.len() ==> (#[trigger] self.chunks@[c]).index != index,
            },
    {
        chunk_position(&self.chunks, index)
    }
}

/// The position of the chunk with the given index.
pub fn chunk_position(chunks: &Vec<Chunk>, index: ChunkIndex) -> (r: Option<usize>)
    ensures
        match r {
            Some(c) => c < chunks@.len() && chunks@[c as int].index == index,
            None => forall|c: int| 0 <= c < chunks@.len() ==> (#[trigger] chunks@[c]).index != index,
        },
{
    let mut i: usize = 0;
    while i < chunks.len()
        invariant
            i <= chunks@.len(),
            forall|c: int| 0 <= c < i ==> (#[trigger] chunks@[c]).index != index,
        decreases chunks@.len() - i,
    {
        if chunks[i].index == index {
            return Some(i);
        }
        i += 1;
    }
    None
}

} // verus!

//! Typed shapes of the blocks carried by the format.
//!
//! These mirror the messages of the format's versioned schema. Every field is
//! held as a plain value so that the readers of this library can be verified
//! against them. Optional scalar fields carry their schema defaults through
//! the getter methods, like [`PrimitiveBlock::granularity`].

use vstd::prelude::*;

verus! {

/// The header preceding every blob: a type tag and the size of the blob body.
pub struct BlobHeader {
    /// The raw bytes of the type tag, matched against two known tags.
    pub type_bytes: Vec<u8>,
    /// Declared size of the blob body that follows the header.
    pub datasize: i32,
}

/// The body of a blob: at most one payload variant and an optional
/// declared uncompressed size.
pub struct Blob {
    /// Declared size of the payload once decompressed, used to pre-size buffers.
    pub raw_size: Option<i32>,
    /// The payload variant, if exactly one was present.
    pub data: Option<BlobData>,
}

/// The payload variants a blob can carry.
pub enum BlobData {
    /// Uncompressed bytes, copied through.
    Raw(Vec<u8>),
    /// Zlib-compressed bytes.
    ZlibData(Vec<u8>),
    /// LZMA-compressed bytes.
    LzmaData(Vec<u8>),
    /// Bytes in an obsolete compression format, always rejected.
    ObsoleteBzip2Data(Vec<u8>),
    /// LZ4-compressed bytes.
    Lz4Data(Vec<u8>),
    /// Zstandard-compressed bytes.
    ZstdData(Vec<u8>),
}

/// The bounding box of a header block, in nanodegrees.
pub struct HeaderBBox {
    pub left: i64,
    pub right: i64,
    pub top: i64,
    pub bottom: i64,
}

/// A decoded `OSMHeader` block.
pub struct HeaderBlock {
    pub bbox: Option<HeaderBBox>,
    pub required_features: Vec<String>,
    pub optional_features: Vec<String>,
    pub writingprogram: Option<String>,
    pub source: Option<String>,
    pub osmosis_replication_timestamp: Option<i64>,
    pub osmosis_replication_sequence_number: Option<i64>,
    pub osmosis_replication_base_url: Option<String>,
}

/// The block-scoped table of byte strings referenced by integer index.
/// Index 0 is conventionally unused; indices are untrusted and must be
/// bounds-checked before use.
pub struct StringTable {
    pub s: Vec<Vec<u8>>,
}

/// Optional metadata of a node, way or relation.
pub struct Info {
    pub version: Option<i32>,
    pub timestamp: Option<i64>,
    pub changeset: Option<i64>,
    pub uid: Option<i32>,
    pub user_sid: Option<u32>,
    pub visible: Option<bool>,
}

/// Optional metadata columns of a dense node section, delta-coded in parallel
/// with the node columns. Each column is independently optional per node.
#[derive(Default)]
pub struct DenseInfo {
    pub version: Vec<i32>,
    pub timestamp: Vec<i64>,
    pub changeset: Vec<i64>,
    pub uid: Vec<i32>,
    pub user_sid: Vec<i32>,
    pub visible: Vec<bool>,
}

/// Columnar, delta-coded encoding of many nodes via parallel arrays.
pub struct DenseNodes {
    /// Delta-coded node ids.
    pub id: Vec<i64>,
    /// Optional metadata columns.
    pub denseinfo: Option<DenseInfo>,
    /// Delta-coded latitudes in units of the block granularity.
    pub lat: Vec<i64>,
    /// Delta-coded longitudes in units of the block granularity.
    pub lon: Vec<i64>,
    /// Per node, a run of (key index, value index) pairs terminated by a
    /// single 0 sentinel; a tagless node contributes only the terminator.
    pub keys_vals: Vec<i32>,
}

/// A plain (non-dense) node.
pub struct Node {
    pub id: i64,
    pub keys: Vec<u32>,
    pub vals: Vec<u32>,
    pub info: Option<Info>,
    pub lat: i64,
    pub lon: i64,
}

/// A way: an ordered list of node references with tags.
pub struct Way {
    pub id: i64,
    pub keys: Vec<u32>,
    pub vals: Vec<u32>,
    pub info: Option<Info>,
    /// Delta-coded node ids, readable with
    /// [`DeltaValueReader`](crate::DeltaValueReader).
    pub refs: Vec<i64>,
}

/// A relation: members with roles and types, plus tags.
pub struct Relation {
    pub id: i64,
    pub keys: Vec<u32>,
    pub vals: Vec<u32>,
    pub info: Option<Info>,
    /// String-table indices of the member roles.
    pub roles_sid: Vec<i32>,
    /// Delta-coded member ids, readable with
    /// [`DeltaValueReader`](crate::DeltaValueReader).
    pub memids: Vec<i64>,
    /// Member types, as the raw values of the schema's enumeration.
    pub types: Vec<i32>,
}

/// A changeset entry.
pub struct ChangeSet {
    pub id: i64,
}

/// One group of independent way/relation/node arrays with an optional dense
/// node section.
pub struct PrimitiveGroup {
    pub nodes: Vec<Node>,
    pub dense: Option<DenseNodes>,
    pub ways: Vec<Way>,
    pub relations: Vec<Relation>,
    pub changesets: Vec<ChangeSet>,
}

/// A decoded `OSMData` block: an ordered sequence of groups sharing one
/// string table, plus the scaling constants of the block.
pub struct PrimitiveBlock {
    pub stringtable: StringTable,
    pub primitivegroup: Vec<PrimitiveGroup>,
    pub granularity: Option<i32>,
    pub lat_offset: Option<i64>,
    pub lon_offset: Option<i64>,
    pub date_granularity: Option<i32>,
}

/// Specification-level view of a [`StringTable`]: its byte strings.
pub type SpecStringTable = Seq<Seq<u8>>;

/// Specification-level view of a [`DenseInfo`].
pub struct SpecDenseInfo {
    pub version: Seq<i32>,
    pub timestamp: Seq<i64>,
    pub changeset: Seq<i64>,
    pub uid: Seq<i32>,
    pub user_sid: Seq<i32>,
    pub visible: Seq<bool>,
}

/// Specification-level view of a [`DenseNodes`].
pub struct SpecDenseNodes {
    pub id: Seq<i64>,
    pub denseinfo: Option<SpecDenseInfo>,
    pub lat: Seq<i64>,
    pub lon: Seq<i64>,
    pub keys_vals: Seq<i32>,
}

/// Specification-level view of a [`Node`].
pub struct SpecNode {
    pub id: i64,
    pub keys: Seq<u32>,
    pub vals: Seq<u32>,
    pub info: Option<Info>,
    pub lat: i64,
    pub lon: i64,
}

/// Specification-level view of a [`Way`].
pub struct SpecWay {
    pub id: i64,
    pub keys: Seq<u32>,
    pub vals: Seq<u32>,
    pub info: Option<Info>,
    pub refs: Seq<i64>,
}

/// Specification-level view of a [`Relation`].
pub struct SpecRelation {
    pub id: i64,
    pub keys: Seq<u32>,
    pub vals: Seq<u32>,
    pub info: Option<Info>,
    pub roles_sid: Seq<i32>,
    pub memids: Seq<i64>,
    pub types: Seq<i32>,
}

/// Specification-level view of a [`PrimitiveGroup`].
pub struct SpecPrimitiveGroup {
    pub nodes: Seq<SpecNode>,
    pub dense: Option<SpecDenseNodes>,
    pub ways: Seq<SpecWay>,
    pub relations: Seq<SpecRelation>,
    pub changesets: Seq<ChangeSet>,
}

/// Specification-level view of a [`PrimitiveBlock`].
pub struct SpecPrimitiveBlock {
    pub stringtable: SpecStringTable,
    pub primitivegroup: Seq<SpecPrimitiveGroup>,
    pub granularity: Option<i32>,
    pub lat_offset: Option<i64>,
    pub lon_offset: Option<i64>,
    pub date_granularity: Option<i32>,
}

/// Specification-level view of a [`HeaderBlock`].
pub struct SpecHeaderBlock {
    pub bbox: Option<HeaderBBox>,
    pub required_features: Seq<Seq<char>>,
    pub optional_features: Seq<Seq<char>>,
    pub writingprogram: Option<Seq<char>>,
    pub source: Option<Seq<char>>,
    pub osmosis_replication_timestamp: Option<i64>,
    pub osmosis_replication_sequence_number: Option<i64>,
    pub osmosis_replication_base_url: Option<Seq<char>>,
}

impl View for StringTable {
    type V = SpecStringTable;

    open spec fn view(&self) -> SpecStringTable {
        self.s@.map_values(|entry: Vec<u8>| entry@)
    }
}

impl View for DenseInfo {
    type V = SpecDenseInfo;

    open spec fn view(&self) -> SpecDenseInfo {
        SpecDenseInfo {
            version: self.version@,
            timestamp: self.timestamp@,
            changeset: self.changeset@,
            uid: self.uid@,
            user_sid: self.user_sid@,
            visible: self.visible@,
        }
    }
}

impl View for DenseNodes {
    type V = SpecDenseNodes;

    open spec fn view(&self) -> SpecDenseNodes {
        SpecDenseNodes {
            id: self.id@,
            denseinfo: match self.denseinfo {
                Some(di) => Some(di@),
                None => None,
            },
            lat: self.lat@,
            lon: self.lon@,
            keys_vals: self.keys_vals@,
        }
    }
}

impl View for Node {
    type V = SpecNode;

    open spec fn view(&self) -> SpecNode {
        SpecNode {
            id: self.id,
            keys: self.keys@,
            vals: self.vals@,
            info: self.info,
            lat: self.lat,
            lon: self.lon,
        }
    }
}

impl View for Way {
    type V = SpecWay;

    open spec fn view(&self) -> SpecWay {
        SpecWay {
            id: self.id,
            keys: self.keys@,
            vals: self.vals@,
            info: self.info,
            refs: self.refs@,
        }
    }
}

impl View for Relation {
    type V = SpecRelation;

    open spec fn view(&self) -> SpecRelation {
        SpecRelation {
            id: self.id,
            keys: self.keys@,
            vals: self.vals@,
            info: self.info,
            roles_sid: self.roles_sid@,
            memids: self.memids@,
            types: self.types@,
        }
    }
}

impl View for PrimitiveGroup {
    type V = SpecPrimitiveGroup;

    open spec fn view(&self) -> SpecPrimitiveGroup {
        SpecPrimitiveGroup {
            nodes: self.nodes@.map_values(|n: Node| n@),
            dense: match self.dense {
                Some(d) => Some(d@),
                None => None,
            },
            ways: self.ways@.map_values(|w: Way| w@),
            relations: self.relations@.map_values(|r: Relation| r@),
            changesets: self.changesets@,
        }
    }
}

impl View for PrimitiveBlock {
    type V = SpecPrimitiveBlock;

    open spec fn view(&self) -> SpecPrimitiveBlock {
        SpecPrimitiveBlock {
            stringtable: self.stringtable@,
            primitivegroup: self.primitivegroup@.map_values(|g: PrimitiveGroup| g@),
            granularity: self.granularity,
            lat_offset: self.lat_offset,
            lon_offset: self.lon_offset,
            date_granularity: self.date_granularity,
        }
    }
}

impl View for HeaderBlock {
    type V = SpecHeaderBlock;

    open spec fn view(&self) -> SpecHeaderBlock {
        SpecHeaderBlock {
            bbox: self.bbox,
            required_features: self.required_features@.map_values(|f: String| f@),
            optional_features: self.optional_features@.map_values(|f: String| f@),
            writingprogram: match self.writingprogram {
                Some(p) => Some(p@),
                None => None,
            },
            source: match self.source {
                Some(source) => Some(source@),
                None => None,
            },
            osmosis_replication_timestamp: self.osmosis_replication_timestamp,
            osmosis_replication_sequence_number: self.osmosis_replication_sequence_number,
            osmosis_replication_base_url: match self.osmosis_replication_base_url {
                Some(url) => Some(url@),
                None => None,
            },
        }
    }
}

impl PrimitiveBlock {
    /// Coordinate granularity of the block, defaulting to 100 nanodegrees.
    pub open spec fn spec_granularity(self) -> i32 {
        match self.granularity {
            Some(g) => g,
            None => 100i32,
        }
    }

    /// Latitude offset of the block in nanodegrees, defaulting to 0.
    pub open spec fn spec_lat_offset(self) -> i64 {
        match self.lat_offset {
            Some(o) => o,
            None => 0i64,
        }
    }

    /// Longitude offset of the block in nanodegrees, defaulting to 0.
    pub open spec fn spec_lon_offset(self) -> i64 {
        match self.lon_offset {
            Some(o) => o,
            None => 0i64,
        }
    }

    /// Timestamp granularity of the block in milliseconds, defaulting to 1000.
    pub open spec fn spec_date_granularity(self) -> i32 {
        match self.date_granularity {
            Some(g) => g,
            None => 1000i32,
        }
    }

    /// Coordinate granularity of the block, defaulting to 100 nanodegrees.
    pub fn granularity(&self) -> (r: i32)
        ensures
            r == self.spec_granularity(),
    {
        match self.granularity {
            Some(g) => g,
            None => 100,
        }
    }

    /// Latitude offset of the block in nanodegrees, defaulting to 0.
    pub fn lat_offset(&self) -> (r: i64)
        ensures
            r == self.spec_lat_offset(),
    {
        match self.lat_offset {
            Some(o) => o,
            None => 0,
        }
    }

    /// Longitude offset of the block in nanodegrees, defaulting to 0.
    pub fn lon_offset(&self) -> (r: i64)
        ensures
            r == self.spec_lon_offset(),
    {
        match self.lon_offset {
            Some(o) => o,
            None => 0,
        }
    }

    /// Timestamp granularity of the block in milliseconds, defaulting to 1000.
    pub fn date_granularity(&self) -> (r: i32)
        ensures
            r == self.spec_date_granularity(),
    {
        match self.date_granularity {
            Some(g) => g,
            None => 1000,
        }
    }
}

} // verus!

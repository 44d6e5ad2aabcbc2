//! On-disk layout of a region file.
//!
//! All integers are little-endian. The first 4 KiB page holds the
//! [`Header`] followed by the section table ([`SectionEntry`]); every
//! section starts on a 4 KiB boundary and is an array of one of the
//! records below.
//!
//! Graph layout: nodes are routing nodes (intersections and dead ends) in
//! Hilbert order. Edges are directed and sorted by tail, so the forward CSR
//! offsets index the edge array directly (`edges[fwd[v]..fwd[v + 1]]` leave
//! node `v`); the backward CSR offsets index a separate list of edge ids
//! sorted by head. Both directions of a two-way road share one geometry;
//! the reverse edge carries [`edge_flags::REVERSED`].

use vstd::prelude::*;
use vstd::string::StringExecFns;
use crate::error::owned;
use crate::gpx::text::{decimal, push_decimal};
use crate::le::{
    le_i32, le_i64, le_u16, le_u32, le_u64, lemma_slice_len_bound, read_i32, read_i64, read_u16, read_u32, read_u64,
};

pub mod edge_flags;
pub mod section;

verus! {

/// File magic, the first 8 bytes of every region file: `MOTOREG\0`.
pub open spec fn spec_magic() -> Seq<u8> {
    seq![0x4du8, 0x4fu8, 0x54u8, 0x4fu8, 0x52u8, 0x45u8, 0x47u8, 0u8]
}

/// The file magic, `MOTOREG\0`.
pub fn magic() -> (m: [u8; 8])
    ensures
        m@ == spec_magic(),
{
    let m = [0x4du8, 0x4fu8, 0x54u8, 0x4fu8, 0x52u8, 0x45u8, 0x47u8, 0u8];
    assert(m@ =~= spec_magic());
    m
}
/// Major format version. Files with another major version are refused.
pub const VERSION_MAJOR: u16 = 1;
/// Minor format version. Minor bumps only add optional sections.
pub const VERSION_MINOR: u16 = 0;

/// Sections start on multiples of this.
pub const PAGE: u64 = 4096;
/// Encoded size of the header.
pub const HEADER_SIZE: usize = 256;
/// Encoded size of one section table entry.
pub const ENTRY_SIZE: usize = 24;
/// Byte offset of the section table (right after the header).
pub const SECTION_TABLE_OFFSET: usize = 256;
/// How many section entries fit in the first page.
pub const MAX_SECTIONS: usize = 160;

/// Encoded sizes of the array records.
pub const POINT_SIZE: usize = 8;
pub const EDGE_SIZE: usize = 20;
pub const CURVATURE_SIZE: usize = 16;
pub const WAY_REF_SIZE: usize = 16;
pub const GRID_META_SIZE: usize = 24;

/// The file header, at offset 0. 256 bytes; the section table follows.
#[derive(Debug, Clone, Copy)]
pub struct Header {
    pub magic: [u8; 8],
    pub version_major: u16,
    pub version_minor: u16,
    pub section_count: u32,
    /// Timestamp of the OSM data, seconds since the Unix epoch (0 if unknown).
    pub osm_timestamp: i64,
    pub bbox: BBoxE7,
    /// NUL-padded UTF-8.
    pub builder_version: [u8; 32],
    /// NUL-padded UTF-8.
    pub source_name: [u8; 64],
    pub reserved: [u8; 120],
}

/// One entry of the section table.
#[derive(Debug, Clone, Copy, PartialEq, Eq, Structural)]
pub struct SectionEntry {
    pub id: u32,
    /// CRC32 (IEEE) of the section's `len` bytes.
    pub crc32: u32,
    /// Byte offset from the start of the file; a multiple of [`PAGE`].
    pub offset: u64,
    /// Length in bytes, without padding.
    pub len: u64,
}

/// A coordinate in 1e-7 degrees.
#[derive(Debug, Clone, Copy, PartialEq, Eq, Structural, Hash, Default)]
pub struct PointE7 {
    pub lat: i32,
    pub lon: i32,
}

/// A bounding box in 1e-7 degrees, inclusive.
#[derive(Debug, Clone, Copy, PartialEq, Eq, Structural, Default)]
pub struct BBoxE7 {
    pub min_lat: i32,
    pub min_lon: i32,
    pub max_lat: i32,
    pub max_lon: i32,
}

/// A directed edge between two routing nodes.
#[derive(Debug, Clone, Copy, PartialEq, Eq, Structural, Default)]
pub struct Edge {
    pub tail: u32,
    pub head: u32,
    /// Length along the geometry, in decimetres.
    pub length_dm: u32,
    /// Index into the geometry offsets.
    pub geometry: u32,
    /// Base speed in km/h, never 0.
    pub speed_kmh: u8,
    /// A [`RoadClass`] value.
    pub class: u8,
    /// A [`Surface`] value.
    pub surface: u8,
    /// Bits from [`edge_flags`].
    pub flags: u8,
}

impl Edge {
    /// The edge as `{:?}` prints it: the struct's name, then each field's
    /// name and decimal value in declaration order.
    pub open spec fn shown(self) -> Seq<char> {
        "Edge { tail: "@ + decimal(self.tail as nat) + ", head: "@ + decimal(self.head as nat) + ", length_dm: "@
            + decimal(self.length_dm as nat) + ", geometry: "@ + decimal(self.geometry as nat) + ", speed_kmh: "@
            + decimal(self.speed_kmh as nat) + ", class: "@ + decimal(self.class as nat) + ", surface: "@
            + decimal(self.surface as nat) + ", flags: "@ + decimal(self.flags as nat) + " }"@
    }

    /// The edge as `{:?}` prints it (see [`Self::shown`]).
    pub fn show(&self) -> (s: String)
        ensures
            s@ == self.shown(),
    {
        let mut s = owned("Edge { tail: ");
        push_decimal(&mut s, self.tail as u64);
        let mut s = s.concat(", head: ");
        push_decimal(&mut s, self.head as u64);
        let mut s = s.concat(", length_dm: ");
        push_decimal(&mut s, self.length_dm as u64);
        let mut s = s.concat(", geometry: ");
        push_decimal(&mut s, self.geometry as u64);
        let mut s = s.concat(", speed_kmh: ");
        push_decimal(&mut s, self.speed_kmh as u64);
        let mut s = s.concat(", class: ");
        push_decimal(&mut s, self.class as u64);
        let mut s = s.concat(", surface: ");
        push_decimal(&mut s, self.surface as u64);
        let mut s = s.concat(", flags: ");
        push_decimal(&mut s, self.flags as u64);
        let s = s.concat(" }");
        assert(s@ =~= self.shown());
        s
    }
}

/// Road class, from OSM `highway=*` (and `route=ferry`).
#[derive(Debug, Clone, Copy, PartialEq, Eq, Structural, Hash)]
pub enum RoadClass {
    Motorway,
    Trunk,
    Primary,
    Secondary,
    Tertiary,
    Unclassified,
    Residential,
    LivingStreet,
    Service,
    Track,
    Ferry,
}

/// The byte a road class is stored as.
pub open spec fn road_class_code(c: RoadClass) -> int {
    match c {
        RoadClass::Motorway => 0,
        RoadClass::Trunk => 1,
        RoadClass::Primary => 2,
        RoadClass::Secondary => 3,
        RoadClass::Tertiary => 4,
        RoadClass::Unclassified => 5,
        RoadClass::Residential => 6,
        RoadClass::LivingStreet => 7,
        RoadClass::Service => 8,
        RoadClass::Track => 9,
        RoadClass::Ferry => 10,
    }
}

impl RoadClass {
    /// `None` for values added by a newer minor version.
    pub fn from_u8(v: u8) -> (r: Option<Self>)
        ensures
            r is Some <==> v <= 10,
            r matches Some(c) ==> road_class_code(c) == v,
    {
        match v {
            0 => Some(RoadClass::Motorway),
            1 => Some(RoadClass::Trunk),
            2 => Some(RoadClass::Primary),
            3 => Some(RoadClass::Secondary),
            4 => Some(RoadClass::Tertiary),
            5 => Some(RoadClass::Unclassified),
            6 => Some(RoadClass::Residential),
            7 => Some(RoadClass::LivingStreet),
            8 => Some(RoadClass::Service),
            9 => Some(RoadClass::Track),
            10 => Some(RoadClass::Ferry),
            _ => None,
        }
    }

    /// The stored byte.
    pub fn to_u8(self) -> (v: u8)
        ensures
            v == road_class_code(self),
    {
        match self {
            RoadClass::Motorway => 0,
            RoadClass::Trunk => 1,
            RoadClass::Primary => 2,
            RoadClass::Secondary => 3,
            RoadClass::Tertiary => 4,
            RoadClass::Unclassified => 5,
            RoadClass::Residential => 6,
            RoadClass::LivingStreet => 7,
            RoadClass::Service => 8,
            RoadClass::Track => 9,
            RoadClass::Ferry => 10,
        }
    }

    /// Every class, in stored order.
    pub fn all() -> (v: Vec<RoadClass>)
        ensures
            v@.len() == 11,
            forall|i: int| 0 <= i < 11 ==> road_class_code(#[trigger] v@[i]) == i,
    {
        vec![
            RoadClass::Motorway,
            RoadClass::Trunk,
            RoadClass::Primary,
            RoadClass::Secondary,
            RoadClass::Tertiary,
            RoadClass::Unclassified,
            RoadClass::Residential,
            RoadClass::LivingStreet,
            RoadClass::Service,
            RoadClass::Track,
            RoadClass::Ferry,
        ]
    }
}

/// Road surface, from OSM `surface=*`.
#[derive(Debug, Clone, Copy, PartialEq, Eq, Structural, Hash)]
pub enum Surface {
    Unknown,
    Asphalt,
    Concrete,
    /// Other paved surfaces.
    Paved,
    /// Sett, cobblestone, paving stones.
    Sett,
    Compacted,
    Gravel,
    /// Dirt, ground, grass, sand and other loose surfaces.
    Dirt,
}

/// The byte a surface is stored as.
pub open spec fn surface_code(s: Surface) -> int {
    match s {
        Surface::Unknown => 0,
        Surface::Asphalt => 1,
        Surface::Concrete => 2,
        Surface::Paved => 3,
        Surface::Sett => 4,
        Surface::Compacted => 5,
        Surface::Gravel => 6,
        Surface::Dirt => 7,
    }
}

/// Surfaces the router counts as paved (an untagged road among them).
pub open spec fn surface_is_paved(s: Surface) -> bool {
    match s {
        Surface::Unknown | Surface::Asphalt | Surface::Concrete | Surface::Paved | Surface::Sett => true,
        _ => false,
    }
}

impl Surface {
    pub fn from_u8(v: u8) -> (r: Option<Self>)
        ensures
            r is Some <==> v <= 7,
            r matches Some(s) ==> surface_code(s) == v,
    {
        match v {
            0 => Some(Surface::Unknown),
            1 => Some(Surface::Asphalt),
            2 => Some(Surface::Concrete),
            3 => Some(Surface::Paved),
            4 => Some(Surface::Sett),
            5 => Some(Surface::Compacted),
            6 => Some(Surface::Gravel),
            7 => Some(Surface::Dirt),
            _ => None,
        }
    }

    /// The stored byte.
    pub fn to_u8(self) -> (v: u8)
        ensures
            v == surface_code(self),
    {
        match self {
            Surface::Unknown => 0,
            Surface::Asphalt => 1,
            Surface::Concrete => 2,
            Surface::Paved => 3,
            Surface::Sett => 4,
            Surface::Compacted => 5,
            Surface::Gravel => 6,
            Surface::Dirt => 7,
        }
    }

    pub fn is_paved(self) -> (b: bool)
        ensures
            b == surface_is_paved(self),
    {
        match self {
            Surface::Unknown | Surface::Asphalt | Surface::Concrete | Surface::Paved | Surface::Sett => true,
            _ => false,
        }
    }

    /// Every surface, in stored order.
    pub fn all() -> (v: Vec<Surface>)
        ensures
            v@.len() == 8,
            forall|i: int| 0 <= i < 8 ==> surface_code(#[trigger] v@[i]) == i,
    {
        vec![
            Surface::Unknown,
            Surface::Asphalt,
            Surface::Concrete,
            Surface::Paved,
            Surface::Sett,
            Surface::Compacted,
            Surface::Gravel,
            Surface::Dirt,
        ]
    }
}

/// Geometry-derived curvature of one edge.
#[derive(Debug, Clone, Copy, PartialEq, Eq, Default)]
pub struct CurvatureMetrics {
    /// Sum of absolute heading changes along the edge, in 0.1°.
    pub turn_ddeg: u32,
    /// Metres of road whose turn radius falls in each radius bin. Saturates.
    pub radius_len_m: [u16; 6],
}

/// Where an edge comes from in OSM, so saved sections survive rebuilds.
#[derive(Debug, Clone, Copy, PartialEq, Eq, Structural, Default)]
pub struct WayRef {
    pub way_id: i64,
    /// Index into the way's node list where the edge starts.
    pub from_idx: u32,
    /// Index where the edge ends; smaller than `from_idx` when the edge runs
    /// against the way's direction.
    pub to_idx: u32,
}

/// Uniform snapping grid over the region.
#[derive(Debug, Clone, Copy, PartialEq, Eq, Structural, Default)]
pub struct GridMeta {
    /// South-west corner of cell (0, 0).
    pub min_lat: i32,
    pub min_lon: i32,
    /// Cell size in 1e-7 degrees, both > 0.
    pub cell_lat: i32,
    pub cell_lon: i32,
    pub rows: u32,
    pub cols: u32,
}

// --- decoding from little-endian bytes ---

pub open spec fn spec_point(b: Seq<u8>, at: int) -> PointE7 {
    PointE7 { lat: le_i32(b, at) as i32, lon: le_i32(b, at + 4) as i32 }
}

pub open spec fn spec_bbox(b: Seq<u8>, at: int) -> BBoxE7 {
    BBoxE7 {
        min_lat: le_i32(b, at) as i32,
        min_lon: le_i32(b, at + 4) as i32,
        max_lat: le_i32(b, at + 8) as i32,
        max_lon: le_i32(b, at + 12) as i32,
    }
}

pub open spec fn spec_edge(b: Seq<u8>, at: int) -> Edge {
    Edge {
        tail: le_u32(b, at) as u32,
        head: le_u32(b, at + 4) as u32,
        length_dm: le_u32(b, at + 8) as u32,
        geometry: le_u32(b, at + 12) as u32,
        speed_kmh: b[at + 16],
        class: b[at + 17],
        surface: b[at + 18],
        flags: b[at + 19],
    }
}

pub open spec fn spec_way_ref(b: Seq<u8>, at: int) -> WayRef {
    WayRef {
        way_id: le_i64(b, at) as i64,
        from_idx: le_u32(b, at + 8) as u32,
        to_idx: le_u32(b, at + 12) as u32,
    }
}

pub open spec fn spec_grid_meta(b: Seq<u8>, at: int) -> GridMeta {
    GridMeta {
        min_lat: le_i32(b, at) as i32,
        min_lon: le_i32(b, at + 4) as i32,
        cell_lat: le_i32(b, at + 8) as i32,
        cell_lon: le_i32(b, at + 12) as i32,
        rows: le_u32(b, at + 16) as u32,
        cols: le_u32(b, at + 20) as u32,
    }
}

pub open spec fn spec_entry(b: Seq<u8>, at: int) -> SectionEntry {
    SectionEntry {
        id: le_u32(b, at) as u32,
        crc32: le_u32(b, at + 4) as u32,
        offset: le_u64(b, at + 8) as u64,
        len: le_u64(b, at + 16) as u64,
    }
}

/// The radius bins of a curvature record.
pub open spec fn spec_radius_bins(b: Seq<u8>, at: int) -> Seq<u16> {
    Seq::new(6, |i: int| le_u16(b, at + 4 + 2 * i) as u16)
}

pub fn decode_point(b: &[u8], at: usize) -> (p: PointE7)
    requires at + 8 <= b@.len(),
    ensures p == spec_point(b@, at as int),
{
    proof { lemma_slice_len_bound(b); }
    PointE7 { lat: read_i32(b, at), lon: read_i32(b, at + 4) }
}

pub fn decode_bbox(b: &[u8], at: usize) -> (r: BBoxE7)
    requires at + 16 <= b@.len(),
    ensures r == spec_bbox(b@, at as int),
{
    proof { lemma_slice_len_bound(b); }
    BBoxE7 {
        min_lat: read_i32(b, at),
        min_lon: read_i32(b, at + 4),
        max_lat: read_i32(b, at + 8),
        max_lon: read_i32(b, at + 12),
    }
}

pub fn decode_edge(b: &[u8], at: usize) -> (e: Edge)
    requires at + 20 <= b@.len(),
    ensures e == spec_edge(b@, at as int),
{
    proof { lemma_slice_len_bound(b); }
    Edge {
        tail: read_u32(b, at),
        head: read_u32(b, at + 4),
        length_dm: read_u32(b, at + 8),
        geometry: read_u32(b, at + 12),
        speed_kmh: b[at + 16],
        class: b[at + 17],
        surface: b[at + 18],
        flags: b[at + 19],
    }
}

pub fn decode_curvature(b: &[u8], at: usize) -> (c: CurvatureMetrics)
    requires at + 16 <= b@.len(),
    ensures
        c.turn_ddeg == le_u32(b@, at as int),
        c.radius_len_m@ == spec_radius_bins(b@, at as int),
{
    proof { lemma_slice_len_bound(b); }
    let c = CurvatureMetrics {
        turn_ddeg: read_u32(b, at),
        radius_len_m: [
            read_u16(b, at + 4),
            read_u16(b, at + 6),
            read_u16(b, at + 8),
            read_u16(b, at + 10),
            read_u16(b, at + 12),
            read_u16(b, at + 14),
        ],
    };
    assert(c.radius_len_m@ =~= spec_radius_bins(b@, at as int));
    c
}

pub fn decode_way_ref(b: &[u8], at: usize) -> (w: WayRef)
    requires at + 16 <= b@.len(),
    ensures w == spec_way_ref(b@, at as int),
{
    proof { lemma_slice_len_bound(b); }
    WayRef { way_id: read_i64(b, at), from_idx: read_u32(b, at + 8), to_idx: read_u32(b, at + 12) }
}

pub fn decode_grid_meta(b: &[u8], at: usize) -> (g: GridMeta)
    requires at + 24 <= b@.len(),
    ensures g == spec_grid_meta(b@, at as int),
{
    proof { lemma_slice_len_bound(b); }
    GridMeta {
        min_lat: read_i32(b, at),
        min_lon: read_i32(b, at + 4),
        cell_lat: read_i32(b, at + 8),
        cell_lon: read_i32(b, at + 12),
        rows: read_u32(b, at + 16),
        cols: read_u32(b, at + 20),
    }
}

pub fn decode_entry(b: &[u8], at: usize) -> (e: SectionEntry)
    requires at + 24 <= b@.len(),
    ensures e == spec_entry(b@, at as int),
{
    proof { lemma_slice_len_bound(b); }
    SectionEntry {
        id: read_u32(b, at),
        crc32: read_u32(b, at + 4),
        offset: read_u64(b, at + 8),
        len: read_u64(b, at + 16),
    }
}

} // verus!

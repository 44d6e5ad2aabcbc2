//! Section ids. Readers ignore ids they don't know (minor versions).

use vstd::prelude::*;

verus! {

/// `[PointE7]`, one per node.
pub const NODE_POS: u32 = 1;
/// `[u32]`, node count + 1: forward CSR offsets into `EDGES`.
pub const FWD_OFFSETS: u32 = 2;
/// `[u32]`, node count + 1: backward CSR offsets into `BWD_EDGES`.
pub const BWD_OFFSETS: u32 = 3;
/// `[u32]`, edge count: edge ids sorted by head.
pub const BWD_EDGES: u32 = 4;
/// `[Edge]`, sorted by tail.
pub const EDGES: u32 = 5;
/// `[u32]`, geometry count + 1: offsets into `SHAPE_POINTS`.
pub const GEOM_OFFSETS: u32 = 6;
/// `[PointE7]`: polylines, endpoints included.
pub const SHAPE_POINTS: u32 = 7;
/// `[CurvatureMetrics]`, one per edge.
pub const CURVATURE: u32 = 8;
/// `[GridMeta]`, exactly one.
pub const GRID_META: u32 = 9;
/// `[u32]`, cell count + 1: offsets into `GRID_EDGES`, row-major.
pub const GRID_CELLS: u32 = 10;
/// `[u32]`: edge ids per grid cell.
pub const GRID_EDGES: u32 = 11;
/// `[WayRef]`, one per edge.
pub const WAY_REFS: u32 = 12;
/// Reserved for landmark distances.
pub const LANDMARKS: u32 = 100;

} // verus!

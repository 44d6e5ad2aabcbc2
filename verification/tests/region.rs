use moto_core::error::CoreError;
use moto_core::region::content::RegionData;
use moto_core::region::format::edge_flags;
use moto_core::region::format::section;
use moto_core::region::format::{
    BBoxE7, CurvatureMetrics, Edge, GridMeta, PointE7, RoadClass, SectionEntry, Surface, WayRef, PAGE,
    SECTION_TABLE_OFFSET,
};
use moto_core::region::encode::{push_curvature, push_edge, push_entry, push_grid_meta, push_point, push_way_ref};
use moto_core::region::format::MAX_SECTIONS;
use moto_core::region::read::parse_header;
use moto_core::rematch::{check_region_key, region_key};
use moto_core::region::writer::{assemble, section_crc};
use moto_core::region::{twin, verify_bytes, Region, RegionInfo};

const A: u32 = 0;
const B: u32 = 1;
const C: u32 = 2;
const D: u32 = 3;
const E_AB: u32 = 0;
const E_BA: u32 = 1;
const E_BC: u32 = 2;
const E_BD: u32 = 3;
const E_CB: u32 = 4;

const COORD_SCALE: f64 = 1e7;
const EARTH_RADIUS_M: f64 = 6_371_008.8;

fn p(lat: f64, lon: f64) -> PointE7 {
    PointE7 { lat: (lat * COORD_SCALE).round() as i32, lon: (lon * COORD_SCALE).round() as i32 }
}

fn haversine_m(a: (f64, f64), b: (f64, f64)) -> f64 {
    let (lat1, lat2) = (a.0.to_radians(), b.0.to_radians());
    let dlat = lat2 - lat1;
    let dlon = (b.1 - a.1).to_radians();
    let h = (dlat / 2.0).sin().powi(2) + lat1.cos() * lat2.cos() * (dlon / 2.0).sin().powi(2);
    2.0 * EARTH_RADIUS_M * h.sqrt().min(1.0).asin()
}

/// Sum of heading changes along a polyline, in 0.1 degrees.
fn turn_ddeg(line: &[(f64, f64)]) -> u32 {
    let heading = |a: (f64, f64), b: (f64, f64)| (b.0 - a.0).atan2((b.1 - a.1) * a.0.to_radians().cos()).to_degrees();
    let mut total = 0.0;
    for w in line.windows(3) {
        let mut d = (heading(w[1], w[2]) - heading(w[0], w[1])).abs();
        if d > 180.0 {
            d = 360.0 - d;
        }
        total += d;
    }
    (total * 10.0).round() as u32
}

struct Road {
    from: u32,
    to: u32,
    via: Vec<(f64, f64)>,
    oneway: bool,
    class: RoadClass,
    way_id: i64,
}

fn road(from: u32, to: u32, class: RoadClass, way_id: i64) -> Road {
    Road { from, to, via: Vec::new(), oneway: false, class, way_id }
}

/// The small network near Lund: A–B, a bend B–C, one-way B→D.
fn fixture() -> RegionData {
    network(&[
        road(A, B, RoadClass::Tertiary, 100),
        Road { via: vec![(55.705, 13.212)], ..road(B, C, RoadClass::Unclassified, 200) },
        Road { oneway: true, ..road(B, D, RoadClass::Primary, 300) },
    ])
}

/// The same nodes with `roads` between them.
fn network(roads: &[Road]) -> RegionData {
    let coords = [(55.70, 13.20), (55.70, 13.21), (55.71, 13.21), (55.70, 13.22)];
    let nodes: Vec<PointE7> = coords.iter().map(|&(lat, lon)| p(lat, lon)).collect();
    let mut geometry_offsets = vec![0u32];
    let mut shape_points = Vec::new();
    let mut drafts = Vec::new();
    for (g, r) in roads.iter().enumerate() {
        let mut shape = vec![nodes[r.from as usize]];
        shape.extend(r.via.iter().map(|&(lat, lon)| p(lat, lon)));
        shape.push(nodes[r.to as usize]);
        let n = shape.len() as u32 - 1;
        shape_points.extend_from_slice(&shape);
        geometry_offsets.push(shape_points.len() as u32);
        let line: Vec<(f64, f64)> =
            shape.iter().map(|q| (f64::from(q.lat) / COORD_SCALE, f64::from(q.lon) / COORD_SCALE)).collect();
        let length_m: f64 = line.windows(2).map(|w| haversine_m(w[0], w[1])).sum();
        let curvature = CurvatureMetrics { turn_ddeg: turn_ddeg(&line), radius_len_m: [0; 6] };
        let edge = |tail: u32, head: u32, reversed: bool| Edge {
            tail,
            head,
            length_dm: (length_m * 10.0).round() as u32,
            geometry: g as u32,
            speed_kmh: 70,
            class: r.class as u8,
            surface: Surface::Asphalt as u8,
            flags: if reversed { edge_flags::REVERSED } else { 0 },
        };
        drafts.push((edge(r.from, r.to, false), curvature, WayRef { way_id: r.way_id, from_idx: 0, to_idx: n }));
        if !r.oneway {
            drafts.push((edge(r.to, r.from, true), curvature, WayRef { way_id: r.way_id, from_idx: n, to_idx: 0 }));
        }
    }
    drafts.sort_by_key(|d| d.0.tail);
    let (mut min, mut max) = ((i32::MAX, i32::MAX), (i32::MIN, i32::MIN));
    for q in &shape_points {
        min = (min.0.min(q.lat), min.1.min(q.lon));
        max = (max.0.max(q.lat), max.1.max(q.lon));
    }
    RegionData {
        info: RegionInfo {
            osm_timestamp: 1_790_000_000,
            bbox: BBoxE7 { min_lat: min.0 - 50_000, min_lon: min.1 - 50_000, max_lat: max.0 + 50_000, max_lon: max.1 + 50_000 },
            builder_version: "fixture 1".into(),
            source_name: "hand-made test fixture".into(),
        },
        nodes,
        edges: drafts.iter().map(|d| d.0).collect(),
        geometry_offsets,
        shape_points,
        curvature: drafts.iter().map(|d| d.1).collect(),
        way_refs: drafts.iter().map(|d| d.2).collect(),
        grid_cell: (50_000, 50_000),
    }
}

fn cell_index(v: f64, min: i32, cell: i32, count: u32) -> u32 {
    let i = ((v - f64::from(min)) / f64::from(cell)).floor();
    i.clamp(0.0, f64::from(count - 1)) as u32
}

/// The (cell, edge) pairs of the edges running along their geometry.
fn grid_pairs(d: &RegionData) -> Vec<(u32, u32)> {
    let meta = match d.grid_frame() {
        Ok(m) => m,
        Err(_) => return Vec::new(),
    };
    let mut pairs = Vec::new();
    for id in d.grid_edges() {
        let e = d.edges[id as usize];
        let g = e.geometry as usize;
        let line = &d.shape_points[d.geometry_offsets[g] as usize..d.geometry_offsets[g + 1] as usize];
        for w in line.windows(2) {
            let (a, b) = (w[0], w[1]);
            let dlat = (i64::from(b.lat) - i64::from(a.lat)).abs();
            let dlon = (i64::from(b.lon) - i64::from(a.lon)).abs();
            let pieces = (2 * dlat / i64::from(meta.cell_lat)).max(2 * dlon / i64::from(meta.cell_lon)).max(0) + 1;
            let at = |i: i64| {
                let f = i as f64 / pieces as f64;
                (
                    f64::from(a.lat) + f * (f64::from(b.lat) - f64::from(a.lat)),
                    f64::from(a.lon) + f * (f64::from(b.lon) - f64::from(a.lon)),
                )
            };
            for i in 0..pieces {
                let (p0, q0) = (at(i), at(i + 1));
                let r0 = cell_index(p0.0.min(q0.0), meta.min_lat, meta.cell_lat, meta.rows);
                let r1 = cell_index(p0.0.max(q0.0), meta.min_lat, meta.cell_lat, meta.rows);
                let c0 = cell_index(p0.1.min(q0.1), meta.min_lon, meta.cell_lon, meta.cols);
                let c1 = cell_index(p0.1.max(q0.1), meta.min_lon, meta.cell_lon, meta.cols);
                for r in r0..=r1 {
                    for c in c0..=c1 {
                        pairs.push((r * meta.cols + c, id));
                    }
                }
            }
        }
    }
    pairs
}

fn to_bytes(d: &RegionData) -> Result<Vec<u8>, CoreError> {
    d.to_bytes(&grid_pairs(d))
}

fn bytes() -> Vec<u8> {
    to_bytes(&fixture()).unwrap()
}

fn entry(bytes: &[u8], id: u32) -> SectionEntry {
    let (_, table) = parse_header(bytes).unwrap();
    table.into_iter().find(|s| s.id == id).unwrap()
}

fn patch_bytes(bytes: &mut [u8], id: u32, index: usize, value: &[u8]) {
    let s = entry(bytes, id);
    let at = s.offset as usize + index * value.len();
    bytes[at..at + value.len()].copy_from_slice(value);
}

fn edge_bytes(e: Edge) -> Vec<u8> {
    let mut v = Vec::new();
    v.extend_from_slice(&e.tail.to_le_bytes());
    v.extend_from_slice(&e.head.to_le_bytes());
    v.extend_from_slice(&e.length_dm.to_le_bytes());
    v.extend_from_slice(&e.geometry.to_le_bytes());
    v.extend_from_slice(&[e.speed_kmh, e.class, e.surface, e.flags]);
    v
}

fn meta_bytes(g: GridMeta) -> Vec<u8> {
    let mut v = Vec::new();
    for x in [g.min_lat, g.min_lon, g.cell_lat, g.cell_lon] {
        v.extend_from_slice(&x.to_le_bytes());
    }
    v.extend_from_slice(&g.rows.to_le_bytes());
    v.extend_from_slice(&g.cols.to_le_bytes());
    v
}

fn read_meta(b: &[u8]) -> GridMeta {
    let at = entry(b, section::GRID_META).offset as usize;
    let i = |k: usize| i32::from_le_bytes(b[at + k..at + k + 4].try_into().unwrap());
    let u = |k: usize| u32::from_le_bytes(b[at + k..at + k + 4].try_into().unwrap());
    GridMeta { min_lat: i(0), min_lon: i(4), cell_lat: i(8), cell_lon: i(12), rows: u(16), cols: u(20) }
}

fn patch_entry(bytes: &mut [u8], id: u32, f: impl FnOnce(&mut SectionEntry)) {
    let (_, table) = parse_header(bytes).unwrap();
    let i = table.iter().position(|s| s.id == id).unwrap();
    let mut e = table[i];
    f(&mut e);
    let at = SECTION_TABLE_OFFSET + i * 24;
    let mut v = Vec::new();
    v.extend_from_slice(&e.id.to_le_bytes());
    v.extend_from_slice(&e.crc32.to_le_bytes());
    v.extend_from_slice(&e.offset.to_le_bytes());
    v.extend_from_slice(&e.len.to_le_bytes());
    bytes[at..at + 24].copy_from_slice(&v);
}

fn assert_rejected(bytes: &[u8], why: &str) {
    match Region::from_bytes(bytes) {
        Err(CoreError::Region(msg)) => assert!(msg.contains(why), "expected '{why}', got '{msg}'"),
        Err(other) => panic!("expected rejection with '{why}', got {other:?}"),
        Ok(_) => panic!("expected rejection with '{why}', got a region"),
    }
}

#[test]
fn enums_round_trip_through_u8() {
    for c in RoadClass::all() {
        assert_eq!(RoadClass::from_u8(c as u8), Some(c));
    }
    for s in Surface::all() {
        assert_eq!(Surface::from_u8(s as u8), Some(s));
    }
    assert_eq!(RoadClass::from_u8(200), None);
}

#[test]
fn round_trips_the_fixture() {
    let data = fixture();
    let b = to_bytes(&data).unwrap();
    assert_eq!(b.len() % PAGE as usize, 0);
    let r = Region::from_bytes(&b).unwrap();
    r.verify_checksums().unwrap();
    assert_eq!(r.info(), &data.info);
    assert_eq!(r.nodes(), &data.nodes[..]);
    assert_eq!(r.edges(), &data.edges[..]);
    assert_eq!(r.geometry_offsets(), &data.geometry_offsets[..]);
    assert_eq!(r.shape_points(), &data.shape_points[..]);
    assert_eq!(r.curvature(), &data.curvature[..]);
    assert_eq!(r.way_refs(), &data.way_refs[..]);
    verify_bytes(&b).unwrap();
}

#[test]
fn builds_forward_and_backward_adjacency() {
    let r = Region::from_bytes(&bytes()).unwrap();
    assert_eq!(r.fwd_offsets(), &[0, 1, 4, 5, 5]);
    assert_eq!(r.out_edges(A), E_AB..E_AB + 1);
    assert_eq!(r.out_edges(B), E_BA..E_CB);
    assert_eq!(r.out_edges(D), 5..5);
    assert_eq!(r.in_edges(A), &[E_BA]);
    let mut into_b = r.in_edges(B).to_vec();
    into_b.sort();
    assert_eq!(into_b, [E_AB, E_CB]);
    assert_eq!(r.in_edges(C), &[E_BC]);
    assert_eq!(r.in_edges(D), &[E_BD]);
    assert!(r.in_edges(99).is_empty());
    assert!(r.out_edges(99).is_empty());
}

#[test]
fn both_directions_share_one_geometry() {
    let r = Region::from_bytes(&bytes()).unwrap();
    let (ab, ba) = (r.edges()[E_AB as usize], r.edges()[E_BA as usize]);
    assert_eq!(ab.geometry, ba.geometry);
    assert_eq!(ab.length_dm, ba.length_dm);
    assert_eq!(ba.flags & edge_flags::REVERSED, edge_flags::REVERSED);
    assert_eq!(r.geometry(r.edges()[E_BC as usize].geometry).len(), 3);
    assert!(r.geometry(99).is_empty());
    assert!((ab.length_dm as i64 - 6_270).abs() < 20, "{ab:?}");
}

#[test]
fn curvature_is_stored_per_edge() {
    let r = Region::from_bytes(&bytes()).unwrap();
    assert_eq!(r.curvature()[E_AB as usize].turn_ddeg, 0);
    let bend = r.curvature()[E_BC as usize];
    assert!(bend.turn_ddeg > 0);
    assert_eq!(bend, r.curvature()[E_CB as usize]);
}

#[test]
fn grid_lists_every_forward_edge_where_it_runs() {
    let r = Region::from_bytes(&bytes()).unwrap();
    let meta = *r.grid_meta();
    assert_eq!((meta.cell_lat, meta.cell_lon), (50_000, 50_000));
    assert_eq!((meta.rows, meta.cols), (3, 5));
    let mut listed: Vec<u32> = Vec::new();
    for row in 0..meta.rows {
        for col in 0..meta.cols {
            listed.extend_from_slice(r.grid_cell(row, col));
        }
    }
    listed.sort();
    listed.dedup();
    assert_eq!(listed, [E_AB, E_BC, E_BD], "reverse edges are not indexed");
    assert!(r.grid_cell(0, 1).contains(&E_AB));
    assert!(r.grid_cell(7, 0).is_empty());
}

#[test]
fn checksums_catch_a_flipped_bit() {
    let b = bytes();
    let mut corrupt = b.clone();
    let shape = entry(&b, section::SHAPE_POINTS);
    corrupt[shape.offset as usize + 3 * 8] ^= 1;
    verify_bytes(&b).unwrap();
    let r = Region::from_bytes(&corrupt).unwrap();
    assert_eq!(r.nodes().len(), 4);
    match verify_bytes(&corrupt) {
        Err(CoreError::Region(msg)) => assert!(msg.contains("checksum"), "{msg}"),
        other => panic!("expected a checksum error, got {other:?}"),
    }
}

#[test]
fn ignores_unknown_sections() {
    let data = fixture();
    let b = to_bytes(&data).unwrap();
    let (_, table) = parse_header(&b).unwrap();
    let mut sections: Vec<(u32, Vec<u8>)> =
        table.iter().map(|s| (s.id, b[s.offset as usize..(s.offset + s.len) as usize].to_vec())).collect();
    sections.push((section::LANDMARKS, vec![1, 2, 3]));
    sections.push((4242, vec![9; 5000]));
    let refs: Vec<(u32, &[u8])> = sections.iter().map(|(i, d)| (*i, &d[..])).collect();
    let mut out = assemble(&data.info, &refs);
    out[10..12].copy_from_slice(&7u16.to_le_bytes());
    let r = Region::from_bytes(&out).unwrap();
    assert_eq!(r.edges(), &data.edges[..]);
    r.verify_checksums().unwrap();
}

#[test]
fn rejects_bad_headers() {
    assert_rejected(&[], "too short");
    let mut b = bytes();
    b[0] = b'X';
    assert_rejected(&b, "magic");

    let mut b = bytes();
    b[8..10].copy_from_slice(&2u16.to_le_bytes());
    assert_rejected(&b, "unsupported region format 2.0");

    let mut b = bytes();
    b[12..16].copy_from_slice(&1000u32.to_le_bytes());
    assert_rejected(&b, "section table too large");
}

#[test]
fn rejects_bad_section_table() {
    let mut b = bytes();
    patch_entry(&mut b, section::EDGES, |e| e.offset += 8);
    assert_rejected(&b, "misaligned");

    let mut b = bytes();
    patch_entry(&mut b, section::EDGES, |e| e.len = u64::MAX);
    assert_rejected(&b, "out of bounds");

    let mut b = bytes();
    let len = b.len();
    b.truncate(len - PAGE as usize);
    assert_rejected(&b, "out of bounds");

    let mut b = bytes();
    let nodes = entry(&b, section::NODE_POS);
    patch_entry(&mut b, section::EDGES, |e| e.offset = nodes.offset);
    assert_rejected(&b, "overlap");

    let mut b = bytes();
    patch_entry(&mut b, section::EDGES, |e| e.id = section::NODE_POS);
    assert_rejected(&b, "duplicate section");

    let mut b = bytes();
    patch_entry(&mut b, section::CURVATURE, |e| e.id = 999);
    assert_rejected(&b, "missing section 8");

    let mut b = bytes();
    patch_entry(&mut b, section::EDGES, |e| e.len -= 1);
    assert_rejected(&b, "not a whole array");
}

#[test]
fn rejects_inconsistent_arrays() {
    type Corrupt = Box<dyn Fn(&mut Vec<u8>)>;
    let cases: Vec<(&str, Corrupt)> = vec![
        ("forward CSR", Box::new(|b| patch_bytes(b, section::FWD_OFFSETS, 2, &0u32.to_le_bytes()))),
        ("backward CSR", Box::new(|b| patch_bytes(b, section::BWD_OFFSETS, 4, &9u32.to_le_bytes()))),
        ("geometry offsets", Box::new(|b| patch_bytes(b, section::GEOM_OFFSETS, 0, &1u32.to_le_bytes()))),
        ("fewer than two points", Box::new(|b| patch_bytes(b, section::GEOM_OFFSETS, 1, &1u32.to_le_bytes()))),
        (
            "inconsistent with node",
            Box::new(|b| {
                let mut e = fixture().edges[E_AB as usize];
                e.head = 77;
                patch_bytes(b, section::EDGES, E_AB as usize, &edge_bytes(e));
            }),
        ),
        (
            "inconsistent with node",
            Box::new(|b| {
                let mut e = fixture().edges[E_AB as usize];
                e.geometry = 3;
                patch_bytes(b, section::EDGES, E_AB as usize, &edge_bytes(e));
            }),
        ),
        (
            "zero speed",
            Box::new(|b| {
                let mut e = fixture().edges[E_BD as usize];
                e.speed_kmh = 0;
                patch_bytes(b, section::EDGES, E_BD as usize, &edge_bytes(e));
            }),
        ),
        (
            "does not join its nodes",
            Box::new(|b| {
                let mut e = fixture().edges[E_BA as usize];
                e.flags = 0;
                patch_bytes(b, section::EDGES, E_BA as usize, &edge_bytes(e));
            }),
        ),
        ("does not enter node", Box::new(|b| patch_bytes(b, section::BWD_EDGES, 0, &E_BD.to_le_bytes()))),
        ("does not enter node", Box::new(|b| patch_bytes(b, section::BWD_EDGES, 0, &1000u32.to_le_bytes()))),
        (
            "coordinate out of range",
            Box::new(|b| {
                let mut v = i32::MAX.to_le_bytes().to_vec();
                v.extend_from_slice(&0i32.to_le_bytes());
                patch_bytes(b, section::NODE_POS, 0, &v);
            }),
        ),
        ("grid refers to a missing edge", Box::new(|b| patch_bytes(b, section::GRID_EDGES, 0, &5u32.to_le_bytes()))),
        ("grid offsets", Box::new(|b| patch_bytes(b, section::GRID_CELLS, 1, &u32::MAX.to_le_bytes()))),
        (
            "invalid grid dimensions",
            Box::new(|b| {
                let mut meta = read_meta(b);
                meta.cell_lon = 0;
                patch_bytes(b, section::GRID_META, 0, &meta_bytes(meta));
            }),
        ),
        (
            "grid offsets",
            Box::new(|b| {
                let mut meta = read_meta(b);
                meta.rows = u32::MAX;
                meta.cols = u32::MAX;
                patch_bytes(b, section::GRID_META, 0, &meta_bytes(meta));
            }),
        ),
        ("per-edge sections", Box::new(|b| patch_entry(b, section::WAY_REFS, |e| e.len -= 16))),
    ];
    for (why, corrupt) in cases {
        let mut b = bytes();
        corrupt(&mut b);
        assert_rejected(&b, why);
    }
}

#[test]
fn writer_rejects_bad_input() {
    let mut d = fixture();
    d.edges.swap(0, 2);
    assert!(to_bytes(&d).is_err());

    let mut d = fixture();
    d.curvature.pop();
    assert!(to_bytes(&d).is_err());

    let mut d = fixture();
    d.grid_cell = (0, 10);
    assert!(to_bytes(&d).is_err());

    let mut d = fixture();
    d.edges[0].geometry = 9;
    assert!(to_bytes(&d).is_err());
}

#[test]
fn writer_rejects_pairs_outside_the_grid() {
    let d = fixture();
    assert!(d.to_bytes(&[(15, 0)]).is_err());
    assert!(d.to_bytes(&[(0, 5)]).is_err());
    // Each forward edge in some cell of the 3 × 5 grid; a reverse edge in none.
    assert!(d.to_bytes(&[(14, E_AB), (14, E_BC), (14, E_BD)]).is_ok());
    assert!(d.to_bytes(&[(14, E_AB), (14, E_BC), (14, E_BD), (14, E_CB)]).is_err());
}

#[test]
fn writes_an_empty_region() {
    let d = RegionData { geometry_offsets: vec![0], grid_cell: (10_000, 10_000), ..RegionData::default() };
    let r = Region::from_bytes(&to_bytes(&d).unwrap()).unwrap();
    assert_eq!(r.node_count(), 0);
    assert_eq!(r.grid_meta().rows, 1);
    assert_eq!(r.grid_meta().cols, 1);
}

#[test]
fn truncates_long_header_strings_on_char_boundaries() {
    let mut d = fixture();
    d.info.source_name = "Skåne ".repeat(20);
    let r = Region::from_bytes(&to_bytes(&d).unwrap()).unwrap();
    assert!(r.info().source_name.len() <= 64);
    assert!(d.info.source_name.starts_with(&r.info().source_name));
}

#[test]
fn grid_frame_covers_the_indexed_polylines() {
    let meta = fixture().grid_frame().unwrap();
    assert_eq!((meta.min_lat, meta.min_lon), (557_000_000, 132_000_000));
    assert_eq!((meta.rows, meta.cols), (3, 5));
}

/// Random single-byte corruptions anywhere in the file must either be
/// rejected or leave a region whose accessors still don't panic.
#[test]
fn corruption_never_panics() {
    let good = bytes();
    let mut state = 0x2545_f491_4f6c_dd1du64;
    let mut next = move || {
        state ^= state << 13;
        state ^= state >> 7;
        state ^= state << 17;
        state
    };
    let interesting: Vec<usize> = {
        let (_, table) = parse_header(&good).unwrap();
        let mut v: Vec<usize> = (0..SECTION_TABLE_OFFSET + table.len() * 24).collect();
        for s in table {
            v.extend(s.offset as usize..(s.offset + s.len) as usize);
        }
        v
    };
    for _ in 0..3000 {
        let mut b = good.clone();
        for _ in 0..1 + next() % 3 {
            let at = interesting[(next() % interesting.len() as u64) as usize];
            b[at] = next() as u8;
        }
        if let Ok(r) = Region::from_bytes(&b) {
            for v in 0..r.node_count() as u32 + 1 {
                let _ = r.out_edges(v);
                let _ = r.in_edges(v);
            }
            for e in r.edges() {
                let _ = r.geometry(e.geometry);
            }
            let meta = *r.grid_meta();
            for row in 0..meta.rows.min(10) {
                for col in 0..meta.cols.min(10) {
                    let _ = r.grid_cell(row, col);
                }
            }
        }
    }
}

#[test]
fn finds_the_edge_running_the_other_way() {
    let r = Region::from_bytes(&bytes()).unwrap();
    assert_eq!(twin(&r, E_AB), Some(E_BA));
    assert_eq!(twin(&r, E_BA), Some(E_AB));
    assert_eq!(twin(&r, E_BC), Some(E_CB));
    assert_eq!(twin(&r, E_CB), Some(E_BC));
    // B→D is one-way.
    assert_eq!(twin(&r, E_BD), None);
}

#[test]
fn the_region_key_names_data_builder_and_graph() {
    let r = Region::from_bytes(&bytes()).unwrap();
    assert_eq!(region_key(&r), "hand-made test fixture|1790000000|fixture 1|4|5");
    assert!(check_region_key(&region_key(&r)).is_ok());
    assert!(check_region_key(&"x".repeat(512)).is_ok());
    assert!(matches!(check_region_key(&"x".repeat(513)), Err(CoreError::InvalidArgument(_))));
}

/// The fixture's network from a week newer OSM data, with or without the
/// one-way B→D.
fn lund(without_bd: bool) -> RegionData {
    let mut roads = vec![
        road(A, B, RoadClass::Tertiary, 100),
        Road { via: vec![(55.705, 13.212)], ..road(B, C, RoadClass::Unclassified, 200) },
    ];
    if !without_bd {
        roads.push(Road { oneway: true, ..road(B, D, RoadClass::Primary, 300) });
    }
    let mut data = network(&roads);
    data.info.osm_timestamp += 7 * 86_400;
    data
}

fn key_of(d: &RegionData) -> String {
    region_key(&Region::from_bytes(&to_bytes(d).unwrap()).unwrap())
}

#[test]
fn keys_differ_by_data_and_build() {
    let a = key_of(&fixture());
    assert_eq!(a, key_of(&fixture()));
    assert_ne!(a, key_of(&lund(false)));
    assert_ne!(a, key_of(&lund(true)));
    let mut rebuilt = fixture();
    rebuilt.info.builder_version = "fixture 2".into();
    assert_ne!(a, key_of(&rebuilt));
}

#[test]
fn record_sizes_are_stable() {
    let size_of = |push: &dyn Fn(&mut Vec<u8>)| {
        let mut out = Vec::new();
        push(&mut out);
        out.len()
    };
    let d = fixture();
    let info = RegionInfo { builder_version: "x".repeat(40), source_name: "y".repeat(80), ..d.info.clone() };
    let file = assemble(&info, &[]);
    assert_eq!(SECTION_TABLE_OFFSET, 256);
    assert_eq!(parse_header(&file).unwrap().1.len(), 0);
    assert_eq!(size_of(&|o| push_entry(o, SectionEntry { id: 1, crc32: 2, offset: 4096, len: 8 })), 24);
    assert_eq!(size_of(&|o| push_point(o, d.nodes[0])), 8);
    assert_eq!(size_of(&|o| push_edge(o, d.edges[0])), 20);
    assert_eq!(size_of(&|o| push_curvature(o, &d.curvature[0])), 16);
    assert_eq!(size_of(&|o| push_way_ref(o, d.way_refs[0])), 16);
    assert_eq!(size_of(&|o| push_grid_meta(o, d.grid_frame().unwrap())), 24);
    assert_eq!(MAX_SECTIONS, 160);
}

#[test]
fn exposes_the_raw_indexes() {
    let r = Region::from_bytes(&bytes()).unwrap();
    // Edges into A, B, C, D: one, two, one, one.
    assert_eq!(r.bwd_offsets(), &[0, 1, 3, 4, 5]);
    let meta = *r.grid_meta();
    let cells = r.grid_cells();
    assert_eq!(cells.len(), (meta.rows * meta.cols) as usize + 1);
    assert_eq!(cells[0], 0);
    assert_eq!(*cells.last().unwrap() as usize, r.grid_edges().len());
}

#[test]
fn paved_surfaces_are_told_apart() {
    for s in [Surface::Unknown, Surface::Asphalt, Surface::Concrete, Surface::Paved, Surface::Sett] {
        assert!(s.is_paved(), "{s:?}");
    }
    for s in [Surface::Compacted, Surface::Gravel, Surface::Dirt] {
        assert!(!s.is_paved(), "{s:?}");
    }
}

#[test]
fn the_grid_indexes_only_forward_edges() {
    let d = fixture();
    assert_eq!(d.grid_edges(), [E_AB, E_BC, E_BD]);
    let pairs = grid_pairs(&d);
    // A reverse edge in a cell is refused.
    let mut with_reverse = pairs.clone();
    with_reverse.push((pairs[0].0, E_BA));
    match d.to_bytes(&with_reverse) {
        Err(CoreError::Region(msg)) => assert!(msg.contains("reverse edge"), "{msg}"),
        other => panic!("expected a refusal, got {other:?}"),
    }
    // So is a forward edge left out of every cell.
    let without_bd: Vec<(u32, u32)> = pairs.iter().copied().filter(|&(_, e)| e != E_BD).collect();
    match d.to_bytes(&without_bd) {
        Err(CoreError::Region(msg)) => assert!(msg.contains("missing from the grid"), "{msg}"),
        other => panic!("expected a refusal, got {other:?}"),
    }
    assert!(d.to_bytes(&pairs).is_ok());
}

#[test]
fn a_checksum_mismatch_shows_both_sums() {
    let b = bytes();
    let mut corrupt = b.clone();
    let shape = entry(&b, section::SHAPE_POINTS);
    corrupt[shape.offset as usize + 3 * 8] ^= 1;
    let expected = format!("{:08x}", shape.crc32);
    match verify_bytes(&corrupt) {
        Err(CoreError::Region(msg)) => {
            let head = format!("checksum mismatch in section 7 (expected {expected}, got ");
            assert!(msg.starts_with(&head), "{msg}");
            let got = &msg[head.len()..msg.len() - 1];
            assert_eq!(got.len(), 8);
            assert!(got.chars().all(|c| c.is_ascii_hexdigit() && !c.is_ascii_uppercase()));
            assert!(msg.ends_with(')'));
        }
        other => panic!("expected a checksum error, got {other:?}"),
    }
}

#[test]
fn a_missing_section_is_named_before_a_broken_one() {
    // Edges cut short and the curvature section gone: the missing section
    // is reported first.
    let mut b = bytes();
    patch_entry(&mut b, section::EDGES, |e| e.len -= 1);
    patch_entry(&mut b, section::CURVATURE, |e| e.id = 999);
    assert_rejected(&b, "missing section 8");
    let mut b = bytes();
    patch_entry(&mut b, section::EDGES, |e| e.len -= 1);
    assert_rejected(&b, "section 5 is not a whole array: OutputSliceWouldHaveSlop");
}

#[test]
fn edge_faults_print_the_edge() {
    let e = fixture().edges[E_AB as usize];
    assert_eq!(e.show(), format!("{e:?}"));

    let mut bad = e;
    bad.head = 77;
    let mut b = bytes();
    patch_bytes(&mut b, section::EDGES, E_AB as usize, &edge_bytes(bad));
    let tail = bad.tail;
    match Region::from_bytes(&b) {
        Err(CoreError::Region(msg)) => {
            assert_eq!(msg, format!("edge {bad:?} inconsistent with node {tail}"));
        }
        other => panic!("expected an edge fault, got {:?}", other.err()),
    }

    let mut d = fixture();
    d.edges[1].head = 50;
    let shown = format!("{:?}", d.edges[1]);
    match to_bytes(&d) {
        Err(CoreError::Region(msg)) => {
            assert_eq!(msg, format!("cannot write region: edge {shown} refers to a missing node"));
        }
        other => panic!("expected a writer fault, got {:?}", other.err()),
    }
}

#[test]
fn section_checksums_are_crc32_ieee() {
    assert_eq!(section_crc(b"123456789"), 0xCBF4_3926);
    assert_eq!(section_crc(b"hello world"), 0x0D4A_1185);
    assert_eq!(section_crc(b""), 0);
}

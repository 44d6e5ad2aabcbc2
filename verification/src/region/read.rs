//! Reading a region file: the header, the section table and the typed
//! arrays of its sections, each checked against [`super::layout`].

use vstd::prelude::*;
use crate::error::{region_error, with_number, CoreError};
use crate::le::{le_i64, le_u16, le_u32, lemma_slice_len_bound, read_i64, read_u16, read_u32};
use super::format::{
    decode_bbox, decode_curvature, decode_edge, decode_entry, decode_grid_meta, decode_point,
    decode_way_ref, magic, spec_bbox, spec_magic, spec_radius_bins, spec_edge, spec_entry,
    spec_grid_meta, spec_point, spec_way_ref, CurvatureMetrics, Edge, GridMeta, Header, PointE7,
    SectionEntry, WayRef, MAX_SECTIONS, PAGE, SECTION_TABLE_OFFSET,
};
use super::faults::{broken_text, entries_fault, header_fault, range_text, repeats_id, table_fault};
use super::layout::{
    edges, entry_in_bounds, grid_metas, has_section, header_ok, ids_distinct, no_overlap, placed_before, points,
    spec_table, u32s, way_refs,
};

verus! {

/// `b[at..at + N]` into `a`.
fn fill_from<const N: usize>(a: &mut [u8; N], b: &[u8], at: usize)
    requires
        at + N <= b@.len(),
    ensures
        final(a)@ == b@.subrange(at as int, at + N),
{
    proof { lemma_slice_len_bound(b); }
    let mut i: usize = 0;
    while i < N
        invariant
            at + N <= b@.len(),
            b@.len() <= usize::MAX,
            i <= N,
            a@.len() == N,
            forall|k: int| 0 <= k < i ==> a@[k] == b@[at + k],
        decreases N - i,
    {
        a[i] = b[at + i];
        i += 1;
    }
    assert(a@ =~= b@.subrange(at as int, at + N));
}

/// Reads the header and the section table it announces.
pub fn parse_header(bytes: &[u8]) -> (r: Result<(Header, Vec<SectionEntry>), CoreError>)
    ensures
        r is Ok <==> header_ok(bytes@),
        r is Ok <==> header_fault(bytes@) is None,
        r is Err ==> (r matches Err(CoreError::Region(m)) && header_fault(bytes@) == Some(m@)),
        r matches Ok((h, t)) ==> {
            &&& t@ == spec_table(bytes@)
            &&& h.magic@ == spec_magic()
            &&& h.version_major == 1
            &&& h.version_minor == le_u16(bytes@, 10)
            &&& h.section_count == t@.len()
            &&& h.osm_timestamp == le_i64(bytes@, 16)
            &&& h.bbox == spec_bbox(bytes@, 24)
            &&& h.builder_version@ == bytes@.subrange(40, 72)
            &&& h.source_name@ == bytes@.subrange(72, 136)
        },
{
    proof { lemma_slice_len_bound(bytes); }
    if bytes.len() < PAGE as usize {
        return Err(region_error("file too short for a region header"));
    }
    let mut m = [0u8; 8];
    fill_from(&mut m, bytes, 0);
    let expected = magic();
    let mut i: usize = 0;
    while i < 8
        invariant
            i <= 8,
            m@.len() == 8,
            bytes@.len() >= 4096,
            m@ == bytes@.subrange(0, 8),
            expected@ == spec_magic(),
            forall|k: int| 0 <= k < i ==> m@[k] == expected@[k],
        decreases 8 - i,
    {
        if m[i] != expected[i] {
            assert(bytes@.subrange(0, 8)[i as int] != spec_magic()[i as int]);
            return Err(region_error("not a region file (bad magic)"));
        }
        i += 1;
    }
    assert(m@ =~= spec_magic());
    let version_major = read_u16(bytes, 8);
    let version_minor = read_u16(bytes, 10);
    if version_major != 1 {
        let head = with_number("unsupported region format ", version_major as u64, ".");
        let tail = with_number("", version_minor as u64, " (this app reads 1.x); download a new region file");
        let text = crate::error::join(head, tail);
        proof {
            reveal_strlit("");
            assert(text@ =~= header_fault(bytes@)->0);
        }
        return Err(CoreError::Region(text));
    }
    let count = read_u32(bytes, 12);
    if count as usize > MAX_SECTIONS {
        return Err(CoreError::Region(with_number("section table too large (", count as u64, ")")));
    }
    let mut builder_version = [0u8; 32];
    fill_from(&mut builder_version, bytes, 40);
    let mut source_name = [0u8; 64];
    fill_from(&mut source_name, bytes, 72);
    let mut reserved = [0u8; 120];
    fill_from(&mut reserved, bytes, 136);
    let header = Header {
        magic: m,
        version_major,
        version_minor,
        section_count: count,
        osm_timestamp: read_i64(bytes, 16),
        bbox: decode_bbox(bytes, 24),
        builder_version,
        source_name,
        reserved,
    };
    let mut table: Vec<SectionEntry> = Vec::new();
    let mut k: usize = 0;
    while k < count as usize
        invariant
            k <= count <= 160,
            bytes@.len() >= 4096,
            count == le_u32(bytes@, 12),
            table@.len() == k,
            forall|j: int| 0 <= j < k ==> table@[j] == spec_entry(bytes@, 256 + 24 * j),
        decreases count - k,
    {
        table.push(decode_entry(bytes, SECTION_TABLE_OFFSET + 24 * k));
        k += 1;
    }
    assert(table@ =~= spec_table(bytes@));
    Ok((header, table))
}

/// The byte range of a section, if it lies inside a file of `file_len`
/// bytes, page-aligned after the first page.
pub fn section_range(file_len: usize, s: &SectionEntry) -> (r: Result<(usize, usize), CoreError>)
    ensures
        r is Ok <==> entry_in_bounds(file_len as int, *s),
        r matches Err(e) ==> e is Region,
        r is Err ==> (r matches Err(CoreError::Region(m)) && m@ == range_text(file_len as int, *s)),
        r matches Ok((a, b)) ==> a == s.offset && b == s.offset + s.len,
{
    match s.offset.checked_add(s.len) {
        Some(end) => {
            if s.offset >= PAGE && s.offset % PAGE == 0 && end <= file_len as u64 {
                return Ok((s.offset as usize, end as usize));
            }
        },
        None => {},
    }
    let text = with_number("section ", s.id as u64, " out of bounds or misaligned (offset ");
    let text = crate::error::join(text, with_number("", s.offset, ", len "));
    let text = crate::error::join(text, with_number("", s.len, ", file "));
    let text = crate::error::join(text, with_number("", file_len as u64, ")"));
    proof {
        reveal_strlit("");
        assert(text@ =~= range_text(file_len as int, *s));
    }
    Err(CoreError::Region(text))
}

/// Checks every entry's bounds, then that ids are distinct and sections
/// don't overlap; gives each section's byte range.
pub fn check_table(file_len: usize, table: &Vec<SectionEntry>) -> (r: Result<Vec<(usize, usize)>, CoreError>)
    ensures
        r is Ok <==> {
            &&& forall|i: int| 0 <= i < table@.len() ==> entry_in_bounds(file_len as int, #[trigger] table@[i])
            &&& ids_distinct(table@)
            &&& no_overlap(table@)
        },
        r matches Err(e) ==> e is Region,
        r is Ok <==> table_fault(file_len as int, table@) is None,
        r is Err ==> (r matches Err(CoreError::Region(m)) && table_fault(file_len as int, table@) == Some(m@)),
        r matches Ok(ranges) ==> ranges@.len() == table@.len() && forall|i: int| 0 <= i < table@.len() ==>
            (#[trigger] ranges@[i]).0 == table@[i].offset && ranges@[i].1 == table@[i].offset + table@[i].len,
{
    let n = table.len();
    let mut ranges: Vec<(usize, usize)> = Vec::with_capacity(n);
    let mut i: usize = 0;
    while i < n
        invariant
            n == table@.len(),
            i <= n,
            ranges@.len() == i,
            forall|k: int| 0 <= k < i ==> entry_in_bounds(file_len as int, #[trigger] table@[k]),
            forall|k: int| 0 <= k < i ==> (#[trigger] ranges@[k]).0 == table@[k].offset
                && ranges@[k].1 == table@[k].offset + table@[k].len,
            forall|a: int, b: int| 0 <= a < i && 0 <= b < i && a != b ==> #[trigger] table@[a].id != #[trigger] table@[b].id,
            entries_fault(file_len as int, table@, 0) == entries_fault(file_len as int, table@, i as int),
        decreases n - i,
    {
        let s = &table[i];
        let r = match section_range(file_len, s) {
            Ok(r) => r,
            Err(e) => {
                proof {
                    assert(!entry_in_bounds(file_len as int, table@[i as int]));
                    assert(entries_fault(file_len as int, table@, i as int) == Some(range_text(file_len as int, table@[i as int])));
                }
                return Err(e);
            },
        };
        let mut j: usize = 0;
        while j < i
            invariant
                n == table@.len(),
                i < n,
                j <= i,
                forall|k: int| 0 <= k < j ==> table@[k].id != table@[i as int].id,
                entry_in_bounds(file_len as int, table@[i as int]),
                entries_fault(file_len as int, table@, 0) == entries_fault(file_len as int, table@, i as int),
            decreases i - j,
        {
            if table[j].id == table[i].id {
                assert(table@[j as int].id == table@[i as int].id);
                let text = with_number("duplicate section ", table[i].id as u64, "");
                proof {
                    reveal_strlit("");
                    assert(repeats_id(table@, i as int));
                    assert(text@ =~= "duplicate section "@ + crate::gpx::text::decimal(table@[i as int].id as nat));
                    assert(entries_fault(file_len as int, table@, i as int) == Some(text@));
                }
                return Err(CoreError::Region(text));
            }
            j += 1;
        }
        proof {
            assert(!repeats_id(table@, i as int));
        }
        ranges.push(r);
        i += 1;
    }
    assert(entries_fault(file_len as int, table@, n as int) is None);
    let mut a: usize = 0;
    while a < n
        invariant
            n == table@.len(),
            a <= n,
            ranges@.len() == n,
            forall|k: int| 0 <= k < n ==> (#[trigger] ranges@[k]).0 == table@[k].offset
                && ranges@[k].1 == table@[k].offset + table@[k].len,
            forall|x: int, y: int| 0 <= x < a && 0 <= y < n && x != y && #[trigger] placed_before(table@, x, y)
                ==> table@[x].offset + table@[x].len <= table@[y].offset,
            entries_fault(file_len as int, table@, 0) is None,
        decreases n - a,
    {
        let mut b: usize = 0;
        while b < n
            invariant
                n == table@.len(),
                a < n,
                ranges@.len() == n,
                forall|k: int| 0 <= k < n ==> (#[trigger] ranges@[k]).0 == table@[k].offset
                    && ranges@[k].1 == table@[k].offset + table@[k].len,
                b <= n,
                forall|x: int, y: int| 0 <= x < a && 0 <= y < n && x != y && #[trigger] placed_before(table@, x, y)
                    ==> table@[x].offset + table@[x].len <= table@[y].offset,
                forall|y: int| 0 <= y < b && a != y && #[trigger] placed_before(table@, a as int, y)
                    ==> table@[a as int].offset + table@[a as int].len <= table@[y].offset,
                entries_fault(file_len as int, table@, 0) is None,
            decreases n - b,
        {
            let (sa, ea) = ranges[a];
            let (sb, _) = ranges[b];
            if a != b && (sa < sb || (sa == sb && a < b)) && ea > sb {
                assert(placed_before(table@, a as int, b as int));
                assert(!no_overlap(table@));
                return Err(region_error("sections overlap"));
            }
            b += 1;
        }
        a += 1;
    }
    Ok(ranges)
}


/// The byte range of section `id`, from the checked table.
pub fn find_section(table: &Vec<SectionEntry>, ranges: &Vec<(usize, usize)>, id: u32) -> (r: Result<(usize, usize), CoreError>)
    requires
        ranges@.len() == table@.len(),
        forall|i: int| 0 <= i < table@.len() ==> (#[trigger] ranges@[i]).0 == table@[i].offset
            && ranges@[i].1 == table@[i].offset + table@[i].len,
    ensures
        r is Ok <==> has_section(table@, id),
        r matches Err(e) ==> e is Region,
        r is Err ==> (r matches Err(CoreError::Region(m)) && m@ == "missing section "@ + crate::gpx::text::decimal(id as nat)),
        r matches Ok((a, b)) ==> exists|i: int| 0 <= i < table@.len() && #[trigger] table@[i].id == id
            && a == table@[i].offset && b == table@[i].offset + table@[i].len,
{
    let mut i: usize = 0;
    while i < table.len()
        invariant
            i <= table@.len(),
            ranges@.len() == table@.len(),
            forall|k: int| 0 <= k < table@.len() ==> (#[trigger] ranges@[k]).0 == table@[k].offset
                && ranges@[k].1 == table@[k].offset + table@[k].len,
            forall|k: int| 0 <= k < i ==> #[trigger] table@[k].id != id,
        decreases table@.len() - i,
    {
        if table[i].id == id {
            assert(table@[i as int].id == id);
            assert(ranges@[i as int].0 == table@[i as int].offset);
            return Ok(ranges[i]);
        }
        i += 1;
    }
    let text = with_number("missing section ", id as u64, "");
    proof {
        reveal_strlit("");
        assert(text@ =~= "missing section "@ + crate::gpx::text::decimal(id as nat));
    }
    Err(CoreError::Region(text))
}

/// In a table without repeated ids, the entry with `id` is the one
/// `section_bytes` picks.
pub proof fn lemma_chosen_entry(t: Seq<SectionEntry>, id: u32, i: int)
    requires
        ids_distinct(t),
        0 <= i < t.len(),
        t[i].id == id,
    ensures
        (choose|j: int| 0 <= j < t.len() && #[trigger] t[j].id == id) == i,
{
    let j = choose|j: int| 0 <= j < t.len() && #[trigger] t[j].id == id;
    assert(0 <= j < t.len() && t[j].id == id);
    if j != i {
        assert(t[i].id != t[j].id);
    }
}

/// A section of `len` bytes holds whole records of `size` bytes.
pub fn check_whole(id: u32, len: usize, size: usize) -> (r: Result<(), CoreError>)
    requires
        size > 0,
    ensures
        r is Ok <==> len % size == 0,
        r matches Err(e) ==> e is Region,
        r is Err ==> (r matches Err(CoreError::Region(m)) && m@ == broken_text(id)),
{
    if len % size == 0 {
        Ok(())
    } else {
        Err(CoreError::Region(with_number("section ", id as u64, " is not a whole array: OutputSliceWouldHaveSlop")))
    }
}

pub fn decode_u32s(s: &[u8]) -> (v: Vec<u32>)
    requires
        s@.len() % 4 == 0,
    ensures
        v@ == u32s(s@),
{
    proof { lemma_slice_len_bound(s); }
    let n = s.len() / 4;
    let mut v: Vec<u32> = Vec::with_capacity(n);
    let mut i: usize = 0;
    while i < n
        invariant
            n == s@.len() / 4,
            s@.len() % 4 == 0,
            s@.len() <= usize::MAX,
            i <= n,
            v@.len() == i,
            forall|k: int| 0 <= k < i ==> v@[k] == le_u32(s@, 4 * k) as u32,
        decreases n - i,
    {
        v.push(read_u32(s, 4 * i));
        i += 1;
    }
    assert(v@ =~= u32s(s@));
    v
}

pub fn decode_points(s: &[u8]) -> (v: Vec<PointE7>)
    requires
        s@.len() % 8 == 0,
    ensures
        v@ == points(s@),
{
    proof { lemma_slice_len_bound(s); }
    let n = s.len() / 8;
    let mut v: Vec<PointE7> = Vec::with_capacity(n);
    let mut i: usize = 0;
    while i < n
        invariant
            n == s@.len() / 8,
            s@.len() % 8 == 0,
            s@.len() <= usize::MAX,
            i <= n,
            v@.len() == i,
            forall|k: int| 0 <= k < i ==> v@[k] == spec_point(s@, 8 * k),
        decreases n - i,
    {
        v.push(decode_point(s, 8 * i));
        i += 1;
    }
    assert(v@ =~= points(s@));
    v
}

pub fn decode_edges(s: &[u8]) -> (v: Vec<Edge>)
    requires
        s@.len() % 20 == 0,
    ensures
        v@ == edges(s@),
{
    proof { lemma_slice_len_bound(s); }
    let n = s.len() / 20;
    let mut v: Vec<Edge> = Vec::with_capacity(n);
    let mut i: usize = 0;
    while i < n
        invariant
            n == s@.len() / 20,
            s@.len() % 20 == 0,
            s@.len() <= usize::MAX,
            i <= n,
            v@.len() == i,
            forall|k: int| 0 <= k < i ==> v@[k] == spec_edge(s@, 20 * k),
        decreases n - i,
    {
        v.push(decode_edge(s, 20 * i));
        i += 1;
    }
    assert(v@ =~= edges(s@));
    v
}

pub fn decode_way_refs(s: &[u8]) -> (v: Vec<WayRef>)
    requires
        s@.len() % 16 == 0,
    ensures
        v@ == way_refs(s@),
{
    proof { lemma_slice_len_bound(s); }
    let n = s.len() / 16;
    let mut v: Vec<WayRef> = Vec::with_capacity(n);
    let mut i: usize = 0;
    while i < n
        invariant
            n == s@.len() / 16,
            s@.len() % 16 == 0,
            s@.len() <= usize::MAX,
            i <= n,
            v@.len() == i,
            forall|k: int| 0 <= k < i ==> v@[k] == spec_way_ref(s@, 16 * k),
        decreases n - i,
    {
        v.push(decode_way_ref(s, 16 * i));
        i += 1;
    }
    assert(v@ =~= way_refs(s@));
    v
}

pub fn decode_grid_metas(s: &[u8]) -> (v: Vec<GridMeta>)
    requires
        s@.len() % 24 == 0,
    ensures
        v@ == grid_metas(s@),
{
    proof { lemma_slice_len_bound(s); }
    let n = s.len() / 24;
    let mut v: Vec<GridMeta> = Vec::with_capacity(n);
    let mut i: usize = 0;
    while i < n
        invariant
            n == s@.len() / 24,
            s@.len() % 24 == 0,
            s@.len() <= usize::MAX,
            i <= n,
            v@.len() == i,
            forall|k: int| 0 <= k < i ==> v@[k] == spec_grid_meta(s@, 24 * k),
        decreases n - i,
    {
        v.push(decode_grid_meta(s, 24 * i));
        i += 1;
    }
    assert(v@ =~= grid_metas(s@));
    v
}

/// Curvature record `k` of the section bytes `s`.
pub open spec fn curvature_at(c: CurvatureMetrics, s: Seq<u8>, k: int) -> bool {
    c.turn_ddeg == le_u32(s, 16 * k) && c.radius_len_m@ == spec_radius_bins(s, 16 * k)
}

pub fn decode_curvatures(s: &[u8]) -> (v: Vec<CurvatureMetrics>)
    requires
        s@.len() % 16 == 0,
    ensures
        v@.len() == s@.len() / 16,
        forall|k: int| 0 <= k < v@.len() ==> curvature_at(#[trigger] v@[k], s@, k),
{
    proof { lemma_slice_len_bound(s); }
    let n = s.len() / 16;
    let mut v: Vec<CurvatureMetrics> = Vec::with_capacity(n);
    let mut i: usize = 0;
    while i < n
        invariant
            n == s@.len() / 16,
            s@.len() % 16 == 0,
            s@.len() <= usize::MAX,
            i <= n,
            v@.len() == i,
            forall|k: int| 0 <= k < i ==> curvature_at(#[trigger] v@[k], s@, k),
        decreases n - i,
    {
        v.push(decode_curvature(s, 16 * i));
        i += 1;
    }
    v
}

} // verus!

//! Lays region content out in the file format.
//!
//! The writer derives the CSR offsets, the backward edge list and the
//! snapping grid's index itself, so callers only supply the logical
//! content (and, for the grid, which cells each edge passes through).

use vstd::prelude::*;
use vstd::utf8::{encode_utf8, is_char_boundary};
use vstd::string::StringSliceAdditionalSpecFns;
use crate::le::{le_i64, le_u16, le_u32, push_i32, push_i64, push_u16, push_u32, i32_bytes, i64_bytes, u16_bytes, u32_bytes};
use super::format::{spec_bbox, spec_entry, spec_magic, BBoxE7, SectionEntry, MAX_SECTIONS, PAGE};
use super::encode::{entry_bytes, lays_out, lemma_entry_decode, lemma_lays_out_push, push_entry};
use super::layout::{header_ok, spec_table};
use super::RegionInfo;
use super::crc32;

verus! {

/// `end` is where a text of bytes `b` is cut to fit `width` bytes: the
/// last character boundary that fits.
pub open spec fn text_cut(b: Seq<u8>, width: int, end: int) -> bool {
    &&& 0 <= end <= width
    &&& end <= b.len()
    &&& is_char_boundary(b, end)
    &&& forall|k: int| end < k <= width && k <= b.len() ==> !is_char_boundary(b, k)
}

/// `n` zero bytes.
pub open spec fn zeros(n: int) -> Seq<u8> {
    Seq::new(n as nat, |i: int| 0u8)
}

/// Appends `n` zero bytes.
pub fn push_zeros(out: &mut Vec<u8>, n: usize)
    ensures
        final(out)@ == old(out)@ + zeros(n as int),
{
    let mut i: usize = 0;
    while i < n
        invariant
            i <= n,
            out@ == old(out)@ + zeros(i as int),
        decreases n - i,
    {
        out.push(0u8);
        i += 1;
        assert(out@ =~= old(out)@ + zeros(i as int));
    }
}

/// Appends `data`.
pub fn push_all(out: &mut Vec<u8>, data: &[u8])
    ensures
        final(out)@ == old(out)@ + data@,
{
    let mut i: usize = 0;
    while i < data.len()
        invariant
            i <= data@.len(),
            out@ == old(out)@ + data@.take(i as int),
        decreases data@.len() - i,
    {
        out.push(data[i]);
        i += 1;
        assert(out@ =~= old(out)@ + data@.take(i as int));
    }
    assert(data@.take(data@.len() as int) =~= data@);
}

/// Appends `data`.
pub fn push_all_u32(out: &mut Vec<u32>, data: &[u32])
    ensures
        final(out)@ == old(out)@ + data@,
{
    let mut i: usize = 0;
    while i < data.len()
        invariant
            i <= data@.len(),
            out@ == old(out)@ + data@.take(i as int),
        decreases data@.len() - i,
    {
        out.push(data[i]);
        i += 1;
        assert(out@ =~= old(out)@ + data@.take(i as int));
    }
    assert(data@.take(data@.len() as int) =~= data@);
}

/// As much of `s` as fits in `width` bytes, cut only at a character
/// boundary, NUL-padded to `width`.
pub fn copy_str(s: &str, width: usize) -> (r: Vec<u8>)
    ensures
        exists|end: int| text_cut(s.spec_bytes(), width as int, end)
            && r@ == s.spec_bytes().take(end) + zeros(width - end),
{
    let b = s.as_bytes();
    let mut end = if b.len() < width { b.len() } else { width };
    proof {
        vstd::utf8::encode_utf8_valid_utf8(s@);
        vstd::utf8::is_char_boundary_start_end_of_seq(b@);
    }
    while !s.is_char_boundary(end)
        invariant
            b@ == s.spec_bytes(),
            vstd::utf8::valid_utf8(b@),
            is_char_boundary(b@, 0),
            end <= width,
            end <= b@.len(),
            forall|k: int| end < k <= width && k <= b@.len() ==> !is_char_boundary(b@, k),
        decreases end,
    {
        end -= 1;
    }
    let mut out: Vec<u8> = Vec::new();
    push_all(&mut out, &b[0..end]);
    push_zeros(&mut out, width - end);
    assert(out@ =~= s.spec_bytes().take(end as int) + zeros(width - end));
    assert(text_cut(s.spec_bytes(), width as int, end as int));
    out
}


/// A section's length rounded up to whole pages.
pub open spec fn padded(l: int) -> int {
    if l % 4096 == 0 { l } else { l - l % 4096 + 4096 }
}

/// The lengths of the sections handed to [`assemble`].
pub open spec fn lens(sections: Seq<(u32, &[u8])>) -> Seq<int> {
    Seq::new(sections.len(), |i: int| sections[i].1@.len() as int)
}

/// Where section `i` starts: after the first page and the padded
/// sections before it.
pub open spec fn offset_of(lens: Seq<int>, i: int) -> int
    decreases i,
{
    if i <= 0 { 4096 } else { offset_of(lens, i - 1) + padded(lens[i - 1]) }
}

/// Page-padding never shrinks a length.
pub proof fn lemma_padded(l: int)
    requires
        l >= 0,
    ensures
        l <= padded(l) < l + 4096,
        padded(l) % 4096 == 0,
{
}

/// Section offsets are page-aligned and after the first page.
pub proof fn lemma_offset_aligned(lens: Seq<int>, i: int)
    requires
        0 <= i <= lens.len(),
        forall|k: int| 0 <= k < lens.len() ==> lens[k] >= 0,
    ensures
        offset_of(lens, i) >= 4096,
        offset_of(lens, i) % 4096 == 0,
    decreases i,
{
    if i > 0 {
        lemma_offset_aligned(lens, i - 1);
        lemma_padded(lens[i - 1]);
    }
}

/// Section `i` ends before section `j` starts, for `i < j`.
pub proof fn lemma_offset_mono(lens: Seq<int>, i: int, j: int)
    requires
        0 <= i < j <= lens.len(),
        forall|k: int| 0 <= k < lens.len() ==> lens[k] >= 0,
    ensures
        offset_of(lens, i) + lens[i] <= offset_of(lens, i) + padded(lens[i]) <= offset_of(lens, j),
    decreases j,
{
    lemma_padded(lens[i]);
    if j > i + 1 {
        lemma_offset_mono(lens, i, j - 1);
        lemma_padded(lens[j - 1]);
    }
}

/// The lengths of the first `i` sections added up.
pub open spec fn total_of(lens: Seq<int>, i: int) -> int
    decreases i,
{
    if i <= 0 { 0 } else { total_of(lens, i - 1) + lens[i - 1] }
}

/// Padding adds less than a page to each section.
pub proof fn lemma_offset_bound(lens: Seq<int>, i: int)
    requires
        0 <= i <= lens.len(),
        forall|k: int| 0 <= k < lens.len() ==> lens[k] >= 0,
    ensures
        offset_of(lens, i) <= 4096 * (i + 1) + total_of(lens, i),
    decreases i,
{
    if i > 0 {
        lemma_offset_bound(lens, i - 1);
        lemma_padded(lens[i - 1]);
    }
}

/// The table entry `assemble` writes for section `i`.
pub open spec fn entry_of(sections: Seq<(u32, &[u8])>, i: int) -> SectionEntry {
    SectionEntry {
        id: sections[i].0,
        crc32: super::crc32_ieee(sections[i].1@),
        offset: offset_of(lens(sections), i) as u64,
        len: sections[i].1@.len() as u64,
    }
}

/// The first 256 bytes of a region file.
pub open spec fn header_bytes(info: RegionInfo, count: u32, builder: Seq<u8>, source: Seq<u8>) -> Seq<u8> {
    spec_magic() + u16_bytes(1) + u16_bytes(0) + u32_bytes(count) + i64_bytes(info.osm_timestamp)
        + i32_bytes(info.bbox.min_lat) + i32_bytes(info.bbox.min_lon) + i32_bytes(info.bbox.max_lat)
        + i32_bytes(info.bbox.max_lon) + builder + source + zeros(120)
}

/// `field` holds the longest prefix of `text` (UTF-8) that fits `width`
/// bytes without cutting a character, NUL-padded.
pub open spec fn text_field(text: Seq<char>, width: int, field: Seq<u8>) -> bool {
    exists|end: int| text_cut(encode_utf8(text), width, end) && field == encode_utf8(text).take(end) + zeros(width - end)
}

/// The header and section table on the first page.
fn header_page(info: &RegionInfo, entries: &Vec<SectionEntry>) -> (r: Vec<u8>)
    requires
        entries@.len() <= 160,
    ensures
        r@.len() == 4096,
        exists|builder: Seq<u8>, source: Seq<u8>| {
            &&& r@.subrange(0, 256) == header_bytes(*info, entries@.len() as u32, builder, source)
            &&& text_field(info.builder_version@, 32, builder)
            &&& text_field(info.source_name@, 64, source)
        },
        lays_out(r@.subrange(256, 256 + 24 * entries@.len() as int), entries@, 24, |e: SectionEntry| entry_bytes(e)),
{
    let mut out: Vec<u8> = Vec::new();
    out.push(0x4du8);
    out.push(0x4fu8);
    out.push(0x54u8);
    out.push(0x4fu8);
    out.push(0x52u8);
    out.push(0x45u8);
    out.push(0x47u8);
    out.push(0u8);
    push_u16(&mut out, 1);
    push_u16(&mut out, 0);
    push_u32(&mut out, entries.len() as u32);
    push_i64(&mut out, info.osm_timestamp);
    push_i32(&mut out, info.bbox.min_lat);
    push_i32(&mut out, info.bbox.min_lon);
    push_i32(&mut out, info.bbox.max_lat);
    push_i32(&mut out, info.bbox.max_lon);
    let bv = info.builder_version.as_str();
    let sn = info.source_name.as_str();
    let builder = copy_str(bv, 32);
    let source = copy_str(sn, 64);
    assert(text_field(info.builder_version@, 32, builder@));
    assert(text_field(info.source_name@, 64, source@));
    push_all(&mut out, builder.as_slice());
    push_all(&mut out, source.as_slice());
    push_zeros(&mut out, 120);
    assert(out@ =~= header_bytes(*info, entries@.len() as u32, builder@, source@));
    let ghost head = out@;
    let mut i: usize = 0;
    while i < entries.len()
        invariant
            i <= entries@.len(),
            head.len() == 256,
            out@.len() == 256 + 24 * i,
            out@.subrange(0, 256) == head,
            lays_out(out@.subrange(256, out@.len() as int), entries@.take(i as int), 24, |e: SectionEntry| entry_bytes(e)),
        decreases entries@.len() - i,
    {
        let ghost before = out@;
        proof {
            lemma_lays_out_push(before.subrange(256, before.len() as int), entries@.take(i as int), 24,
                |e: SectionEntry| entry_bytes(e), entries@[i as int]);
            assert(entries@.take(i + 1) =~= entries@.take(i as int).push(entries@[i as int]));
        }
        push_entry(&mut out, entries[i]);
        proof {
            assert(out@.subrange(256, out@.len() as int) =~= before.subrange(256, before.len() as int) + entry_bytes(entries@[i as int]));
            assert(out@.subrange(0, 256) =~= before.subrange(0, 256));
        }
        i += 1;
    }
    assert(entries@.take(entries@.len() as int) =~= entries@);
    let used = out.len();
    let ghost table = out@;
    push_zeros(&mut out, 4096 - used);
    assert(out@.subrange(0, 256) =~= table.subrange(0, 256));
    assert(out@.subrange(256, 256 + 24 * entries@.len() as int) =~= table.subrange(256, table.len() as int));
    assert(out@.subrange(0, 256) == header_bytes(*info, entries@.len() as u32, builder@, source@));
    out
}


/// Appending leaves what was there.
pub proof fn lemma_subrange_of_prefix(s: Seq<u8>, extra: Seq<u8>, a: int, b: int)
    requires
        0 <= a <= b <= s.len(),
    ensures
        (s + extra).subrange(a, b) == s.subrange(a, b),
{
    assert((s + extra).subrange(a, b) =~= s.subrange(a, b));
}

proof fn lemma_append_section(
    sections: Seq<(u32, &[u8])>,
    before: Seq<u8>,
    data: Seq<u8>,
    pad: int,
    i: int,
    after: Seq<u8>,
)
    requires
        0 <= i < sections.len(),
        data == sections[i].1@,
        before.len() == offset_of(lens(sections), i),
        before.len() >= 4096,
        pad == padded(data.len() as int) - data.len(),
        pad >= 0,
        after == before + (data + zeros(pad)),
        forall|k: int| 0 <= k < i ==> before.subrange(offset_of(lens(sections), k), offset_of(lens(sections), k) + lens(sections)[k])
            == (#[trigger] sections[k]).1@,
    ensures
        after.len() == offset_of(lens(sections), i + 1),
        after.subrange(0, 4096) == before.subrange(0, 4096),
        forall|k: int| 0 <= k < i + 1 ==> after.subrange(offset_of(lens(sections), k), offset_of(lens(sections), k) + lens(sections)[k])
            == (#[trigger] sections[k]).1@,
{
    let ls = lens(sections);
    assert(offset_of(ls, i + 1) == offset_of(ls, i) + padded(ls[i]));
    lemma_subrange_of_prefix(before, data + zeros(pad), 0, 4096);
    assert forall|k: int| 0 <= k < i + 1 implies after.subrange(offset_of(ls, k), offset_of(ls, k) + ls[k])
        == (#[trigger] sections[k]).1@ by {
        if k < i {
            lemma_offset_mono(ls, k, i);
            lemma_offset_aligned(ls, k);
            lemma_subrange_of_prefix(before, data + zeros(pad), offset_of(ls, k), offset_of(ls, k) + ls[k]);
        } else {
            assert(after.subrange(offset_of(ls, k), offset_of(ls, k) + ls[k]) =~= data);
        }
    }
}

/// The CRC32 written for a section.
pub fn section_crc(data: &[u8]) -> (c: u32)
    ensures
        c == super::crc32_ieee(data@),
{
    crc32(data)
}

/// Lays out the header, the section table and the page-aligned sections.
pub fn assemble(info: &RegionInfo, sections: &[(u32, &[u8])]) -> (r: Vec<u8>)
    requires
        sections@.len() <= MAX_SECTIONS,
        offset_of(lens(sections@), sections@.len() as int) <= usize::MAX,
    ensures
        r@.len() == offset_of(lens(sections@), sections@.len() as int),
        exists|builder: Seq<u8>, source: Seq<u8>| {
            &&& r@.subrange(0, 256) == header_bytes(*info, sections@.len() as u32, builder, source)
            &&& text_field(info.builder_version@, 32, builder)
            &&& text_field(info.source_name@, 64, source)
        },
        forall|i: int| 0 <= i < sections@.len() ==> spec_entry(r@, 256 + 24 * i) == #[trigger] entry_of(sections@, i),
        forall|i: int| 0 <= i < sections@.len() ==> r@.subrange(
            offset_of(lens(sections@), i),
            offset_of(lens(sections@), i) + sections@[i].1@.len(),
        ) == (#[trigger] sections@[i]).1@,
{
    let n = sections.len();
    let ghost ls = lens(sections@);
    let mut entries: Vec<SectionEntry> = Vec::new();
    let mut offset: u64 = PAGE;
    let mut i: usize = 0;
    while i < n
        invariant
            n == sections@.len(),
            ls == lens(sections@),
            n <= 160,
            offset_of(ls, n as int) <= usize::MAX,
            i <= n,
            entries@.len() == i,
            offset == offset_of(ls, i as int),
            forall|k: int| 0 <= k < i ==> entries@[k] == #[trigger] entry_of(sections@, k),
        decreases n - i,
    {
        let (id, data) = sections[i];
        proof {
            lemma_offset_mono(ls, i as int, n as int);
            lemma_padded(ls[i as int]);
        }
        let len = data.len() as u64;
        entries.push(SectionEntry { id, crc32: section_crc(data), offset, len });
        let rem = len % PAGE;
        offset = if rem == 0 { offset + len } else { offset + (len - rem) + PAGE };
        i += 1;
    }
    let page = header_page(info, &entries);
    let mut out = page;
    let mut i: usize = 0;
    while i < n
        invariant
            n == sections@.len(),
            ls == lens(sections@),
            offset_of(ls, n as int) <= usize::MAX,
            n <= 160,
            i <= n,
            page@.len() == 4096,
            out@.len() == offset_of(ls, i as int),
            out@.subrange(0, 4096) == page@,
            forall|k: int| 0 <= k < i ==> out@.subrange(offset_of(ls, k), offset_of(ls, k) + ls[k])
                == (#[trigger] sections@[k]).1@,
        decreases n - i,
    {
        let (_, data) = sections[i];
        let ghost before = out@;
        proof {
            lemma_offset_mono(ls, i as int, n as int);
            lemma_padded(ls[i as int]);
            lemma_offset_aligned(ls, i as int);
        }
        push_all(&mut out, data);
        let rem = data.len() % 4096;
        let pad = if rem == 0 { 0 } else { 4096 - rem };
        push_zeros(&mut out, pad);
        proof {
            assert(out@ =~= before + (data@ + zeros(pad as int)));
            lemma_append_section(sections@, before, data@, pad as int, i as int, out@);
        }
        i += 1;
    }
    proof {
        lemma_offset_aligned(ls, n as int);
        assert forall|i: int| 0 <= i < n implies spec_entry(out@, 256 + 24 * i) == #[trigger] entry_of(sections@, i) by {
            let t = page@.subrange(256, 256 + 24 * n as int);
            assert(t.subrange(24 * i, 24 * i + 24) == (|e: SectionEntry| entry_bytes(e))(entries@[i]));
            assert(out@.subrange(256 + 24 * i, 256 + 24 * i + 24) =~= out@.subrange(0, 4096).subrange(256 + 24 * i, 256 + 24 * i + 24));
            assert(out@.subrange(256 + 24 * i, 256 + 24 * i + 24) =~= t.subrange(24 * i, 24 * i + 24));
            lemma_entry_decode(out@, 256 + 24 * i, entries@[i]);
        }
        assert(out@.subrange(0, 256) =~= page@.subrange(0, 256));
    }
    out
}

} // verus!

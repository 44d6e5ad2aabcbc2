//! The containers an export can come in: plain GeoJSON, gzip, zip or
//! tar.gz, told apart by content. Sizes are capped before and after
//! decompression, so a small archive can't expand into a memory bomb.

use std::io::{Read, Write};
use vstd::prelude::*;
use crate::error::{join, owned, CoreError};

verus! {

/// Largest file accepted for import, as picked (possibly compressed).
pub const MAX_IMPORT_BYTES: usize = 33554432;
/// Largest GeoJSON accepted after decompression.
pub const MAX_JSON_BYTES: usize = 67108864;
/// Most archive entries looked at.
pub const MAX_ENTRIES: usize = 1000;
/// The GeoJSON file inside zip and tar exports.
pub const ENTRY_NAME: &'static str = "moto-sections.geojson";

/// How an export is packed.
#[derive(Debug, Clone, Copy, PartialEq, Eq, Structural)]
pub enum ExportFormat {
    /// Plain `.geojson`.
    GeoJson,
    /// `.geojson.gz`.
    Gzip,
    /// `.zip` holding one `.geojson`.
    Zip,
    /// `.tar.gz` holding one `.geojson`.
    TarGz,
}

impl ExportFormat {
    /// The usual file name extension.
    pub fn extension(self) -> (s: &'static str)
        ensures
            s@ == match self {
                ExportFormat::GeoJson => "geojson"@,
                ExportFormat::Gzip => "geojson.gz"@,
                ExportFormat::Zip => "zip"@,
                ExportFormat::TarGz => "tar.gz"@,
            },
    {
        match self {
            ExportFormat::GeoJson => "geojson",
            ExportFormat::Gzip => "geojson.gz",
            ExportFormat::Zip => "zip",
            ExportFormat::TarGz => "tar.gz",
        }
    }
}

/// The magic `ustar` at offset 257 of a tar header.
pub open spec fn tar_magic_at(b: Seq<u8>) -> bool {
    b.len() >= 262 && b.subrange(257, 262) == seq![117u8, 115u8, 116u8, 97u8, 114u8]
}

/// Whether the bytes are a tar archive (a ustar header first).
pub fn is_tar(bytes: &[u8]) -> (r: bool)
    ensures
        r == tar_magic_at(bytes@),
{
    if bytes.len() < 262 {
        return false;
    }
    let r = bytes[257] == 117 && bytes[258] == 115 && bytes[259] == 116 && bytes[260] == 97 && bytes[261] == 114;
    proof {
        if r {
            assert(bytes@.subrange(257, 262) =~= seq![117u8, 115u8, 116u8, 97u8, 114u8]);
        } else {
            let m = seq![117u8, 115u8, 116u8, 97u8, 114u8];
            if bytes@.subrange(257, 262) == m {
                assert(bytes@.subrange(257, 262)[0] == m[0]);
                assert(bytes@.subrange(257, 262)[1] == m[1]);
                assert(bytes@.subrange(257, 262)[2] == m[2]);
                assert(bytes@.subrange(257, 262)[3] == m[3]);
                assert(bytes@.subrange(257, 262)[4] == m[4]);
            }
        }
    }
    r
}

/// `c` with ASCII capitals made small.
pub open spec fn ascii_lower(c: char) -> char {
    if 'A' <= c <= 'Z' { ((c as u32) + 32) as char } else { c }
}

/// `s` ends with `suffix`, ignoring ASCII case (`suffix` given in small
/// letters).
pub open spec fn ends_with_nocase(s: Seq<char>, suffix: Seq<char>) -> bool {
    &&& suffix.len() <= s.len()
    &&& forall|i: int| 0 <= i < suffix.len() ==> #[trigger] ascii_lower(s[s.len() - suffix.len() + i]) == suffix[i]
}

fn lower(c: char) -> (r: char)
    ensures
        r == ascii_lower(c),
{
    if 'A' <= c && c <= 'Z' {
        ((c as u8) + 32) as char
    } else {
        c
    }
}

/// Whether `s` ends with the small-letter `suffix`, ignoring ASCII case.
fn ends_with_lower(s: &Vec<char>, suffix: &Vec<char>) -> (r: bool)
    ensures
        r == ends_with_nocase(s@, suffix@),
{
    if suffix.len() > s.len() {
        return false;
    }
    let sl = s.len();
    let base = sl - suffix.len();
    let mut i: usize = 0;
    while i < suffix.len()
        invariant
            sl == s@.len(),
            base + suffix@.len() == s@.len(),
            i <= suffix@.len(),
            forall|j: int| 0 <= j < i ==> #[trigger] ascii_lower(s@[s@.len() - suffix@.len() + j]) == suffix@[j],
        decreases suffix@.len() - i,
    {
        if lower(s[base + i]) != suffix[i] {
            assert(ascii_lower(s@[s@.len() - suffix@.len() + i as int]) != suffix@[i as int]);
            return false;
        }
        i += 1;
    }
    true
}

/// Whether an archive entry name looks like GeoJSON: it ends in
/// `.geojson` or `.json`, in any ASCII case. Names are only compared,
/// never used as paths.
pub fn is_json_name(name: &str) -> (r: bool)
    ensures
        r == (ends_with_nocase(name@, ".geojson"@) || ends_with_nocase(name@, ".json"@)),
{
    let n = crate::gpx::read::chars_of(name);
    let geojson = crate::gpx::read::chars_of(".geojson");
    let json = crate::gpx::read::chars_of(".json");
    ends_with_lower(&n, &geojson) || ends_with_lower(&n, &json)
}

/// The gzip file flate2 writes for `data` at the default level: one gzip
/// member holding it.
pub uninterp spec fn gzip_of(data: Seq<u8>) -> Seq<u8>;

/// `s` starts with the bytes `m`.
pub open spec fn starts_with(s: Seq<u8>, m: Seq<u8>) -> bool {
    m.len() <= s.len() && s.subrange(0, m.len() as int) == m
}

/// The local or end-of-directory signature a zip file starts with.
pub open spec fn zip_magic_at(b: Seq<u8>) -> bool {
    starts_with(b, seq![80u8, 75u8, 3u8, 4u8]) || starts_with(b, seq![80u8, 75u8, 5u8, 6u8])
}

/// The two magic bytes a gzip file starts with.
pub open spec fn gzip_magic_at(b: Seq<u8>) -> bool {
    starts_with(b, seq![0x1fu8, 0x8bu8])
}

/// `flate2::write::GzEncoder` over a `Vec` at the default level: `data`
/// gzipped. What comes out is named [`gzip_of`]; it starts with the gzip
/// magic bytes, as every gzip member does. The encoder fails only where
/// the writer under it fails, and writing to a `Vec` does not fail.
#[verifier::external_body]
fn gzip(data: &[u8]) -> (r: Result<Vec<u8>, String>)
    ensures
        r is Ok,
        r matches Ok(v) ==> v@ == gzip_of(data@) && gzip_magic_at(v@),
{
    let mut enc = flate2::write::GzEncoder::new(Vec::new(), flate2::Compression::default());
    if let Err(e) = enc.write_all(data) {
        return Err(e.to_string());
    }
    enc.finish().map_err(|e| e.to_string())
}

/// The first `cap` bytes of `d` (all of it when shorter).
pub open spec fn upto(d: Seq<u8>, cap: int) -> Seq<u8> {
    if d.len() <= cap { d } else { d.take(cap) }
}

/// `r`, read from `bytes`, is the data `bytes` was gzipped from, cut to
/// `cap` bytes.
pub open spec fn gives_back(r: Result<Vec<u8>, String>, bytes: Seq<u8>, cap: int) -> bool {
    forall|x: Seq<u8>| #![trigger gzip_of(x)] bytes == gzip_of(x) ==> (r matches Ok(v) && v@ == upto(x, cap))
}

/// What [`gunzip`] reads from `bytes` with a cap of `cap` bytes (`None`
/// where it fails).
pub uninterp spec fn gunzip_of(bytes: Seq<u8>, cap: u64) -> Option<Seq<u8>>;

/// `flate2::read::GzDecoder` read to its end, at most `cap` bytes of it:
/// the data of the first gzip member of `bytes`, named [`gunzip_of`]. For
/// what [`gzip`] wrote it gives back the data (its first `cap` bytes). The
/// error's text is left unstated.
#[verifier::external_body]
fn gunzip(bytes: &[u8], cap: u64) -> (r: Result<Vec<u8>, String>)
    ensures
        r is Ok <==> gunzip_of(bytes@, cap) is Some,
        r matches Ok(v) ==> gunzip_of(bytes@, cap) == Some(v@) && v@.len() <= cap,
        gives_back(r, bytes@, cap as int),
{
    let mut out = Vec::new();
    match flate2::read::GzDecoder::new(bytes).take(cap).read_to_end(&mut out) {
        Ok(_) => Ok(out),
        Err(e) => Err(e.to_string()),
    }
}

/// The zip file [`zip_one`] writes.
pub uninterp spec fn zip_of(name: Seq<char>, data: Seq<u8>) -> Seq<u8>;

/// Whether `n` bytes fit one zip entry written without zip's large-file
/// option: the data, and its deflated form, must stay within 32-bit sizes
/// (4 GiB); deflate adds at most 5 bytes per 65535-byte stored block, so
/// 1 GiB of data leaves ample room.
pub open spec fn fits_plain_zip(n: int) -> bool {
    n <= 0x4000_0000
}

/// `zip::ZipWriter` over a `Vec`: a zip file of one deflated entry `name`
/// holding `data`, named [`zip_of`]. It starts with the entry's local file
/// header, whose signature is `PK\x03\x04`. With the export's entry name
/// it succeeds for data that fits the entry's 32-bit sizes (the writer
/// refuses larger data only for want of the large-file option; writing to
/// a `Vec` does not fail).
#[verifier::external_body]
fn zip_one(name: &str, data: &[u8]) -> (r: Result<Vec<u8>, String>)
    ensures
        name@ == ENTRY_NAME@ && fits_plain_zip(data@.len() as int) ==> r is Ok,
        r matches Ok(v) ==> v@ == zip_of(name@, data@) && starts_with(v@, seq![80u8, 75u8, 3u8, 4u8]),
{
    let mut out = zip::ZipWriter::new(std::io::Cursor::new(Vec::new()));
    let options = zip::write::SimpleFileOptions::default().compression_method(zip::CompressionMethod::Deflated);
    out.start_file(name, options).map_err(|e| e.to_string())?;
    out.write_all(data).map_err(|e| e.to_string())?;
    out.finish().map(|c| c.into_inner()).map_err(|e| e.to_string())
}

/// The tar archive [`tar_one`] writes.
pub uninterp spec fn tar_of(name: Seq<char>, mode: u32, data: Seq<u8>) -> Seq<u8>;

/// `n` rounded up to whole 512-byte tar blocks.
pub open spec fn block_padded(n: int) -> int {
    if n % 512 == 0 { n } else { n - n % 512 + 512 }
}

/// `tar::Builder` over a `Vec`: a ustar archive of one regular file `name`
/// with permissions `mode`, holding `data`, named [`tar_of`]. It starts
/// with a tar header, whose magic `ustar` stands at offset 257. With the
/// export's entry name (short enough for the header) it is that header's
/// block, the data padded to whole blocks, and the two zero blocks that
/// end an archive. With that name it succeeds: the name fits the header,
/// the size field takes any length, and writing to a `Vec` does not fail.
#[verifier::external_body]
fn tar_one(name: &str, mode: u32, data: &[u8]) -> (r: Result<Vec<u8>, String>)
    ensures
        name@ == ENTRY_NAME@ ==> r is Ok,
        r matches Ok(v) ==> v@ == tar_of(name@, mode, data@) && tar_magic_at(v@),
        r matches Ok(v) ==> (name@ == ENTRY_NAME@ ==> v@.len() == 1536 + block_padded(data@.len() as int)),
{
    let mut builder = tar::Builder::new(Vec::new());
    let mut header = tar::Header::new_ustar();
    header.set_size(data.len() as u64);
    header.set_mode(mode);
    header.set_entry_type(tar::EntryType::Regular);
    builder.append_data(&mut header, name, data).map_err(|e| e.to_string())?;
    builder.into_inner().map_err(|e| e.to_string())
}

/// `r`, the entry count of `bytes`, is 1 where `bytes` is the zip file
/// [`zip_one`] writes for the export's entry name and at most `u32::MAX`
/// bytes of data.
pub open spec fn zip_count_back(r: Result<usize, String>, bytes: Seq<u8>) -> bool {
    forall|d: Seq<u8>| #![trigger zip_of(ENTRY_NAME@, d)]
        bytes == zip_of(ENTRY_NAME@, d) && d.len() <= u32::MAX ==> (r matches Ok(n) && n == 1)
}

/// `r`, entry `i` of `bytes`, is the plain file of the export's entry name
/// and the data's size where `bytes` is the zip file [`zip_one`] writes for
/// that name and at most `u32::MAX` bytes of data and `i` is 0.
pub open spec fn zip_entry_back(r: Entry, bytes: Seq<u8>, i: usize) -> bool {
    forall|d: Seq<u8>| #![trigger zip_of(ENTRY_NAME@, d)]
        bytes == zip_of(ENTRY_NAME@, d) && d.len() <= u32::MAX && i == 0 ==> (r matches Entry::Found { file, name, size }
            && file && name@ == ENTRY_NAME@ && size == d.len())
}

/// `r`, the content of entry `i` of `bytes` cut to `cap` bytes, is the
/// data (cut to `cap`) where `bytes` is the zip file [`zip_one`] writes
/// for the export's entry name and at most `u32::MAX` bytes of data and
/// `i` is 0.
pub open spec fn zip_read_back(r: Result<Vec<u8>, String>, bytes: Seq<u8>, i: usize, cap: u64) -> bool {
    forall|d: Seq<u8>| #![trigger zip_of(ENTRY_NAME@, d)]
        bytes == zip_of(ENTRY_NAME@, d) && d.len() <= u32::MAX && i == 0 ==> (r matches Ok(v) && v@ == upto(d, cap as int))
}

/// `r`, entry `k` of `bytes`, is the regular file of the export's entry
/// name and the data's size for `k` 0, and the end for `k` 1, where `bytes`
/// is the archive [`tar_one`] writes for that name, mode `0o644` and at
/// most `u32::MAX` bytes of data.
pub open spec fn tar_entry_back(r: Entry, bytes: Seq<u8>, k: usize) -> bool {
    forall|d: Seq<u8>| #![trigger tar_of(ENTRY_NAME@, 0o644u32, d)]
        bytes == tar_of(ENTRY_NAME@, 0o644u32, d) && d.len() <= u32::MAX ==> (k == 0 ==> (r matches Entry::Found {
            file,
            name,
            size,
        } && file && name@ == ENTRY_NAME@ && size == d.len())) && (k == 1 ==> r is End)
}

/// `r`, the content of entry `k` of `bytes` cut to `cap` bytes, is the
/// data (cut to `cap`) where `bytes` is the archive [`tar_one`] writes for
/// the export's entry name, mode `0o644` and at most `u32::MAX` bytes of
/// data and `k` is 0.
pub open spec fn tar_read_back(r: Result<Vec<u8>, String>, bytes: Seq<u8>, k: usize, cap: u64) -> bool {
    forall|d: Seq<u8>| #![trigger tar_of(ENTRY_NAME@, 0o644u32, d)]
        bytes == tar_of(ENTRY_NAME@, 0o644u32, d) && d.len() <= u32::MAX && k == 0 ==> (r matches Ok(v) && v@ == upto(
            d,
            cap as int,
        ))
}

/// An archive entry as the unpacker looks at it.
pub enum Entry {
    /// No entry at this index.
    End,
    /// The archive could not be read up to this entry.
    Failed(String),
    Found {
        /// A plain file (not a directory, link or the like).
        file: bool,
        name: String,
        size: u64,
    },
}

/// How many entries [`zip_entry_count`] finds in `bytes` (`None` where it
/// cannot read them).
pub uninterp spec fn zip_len_of(bytes: Seq<u8>) -> Option<usize>;

/// `zip::ZipArchive::len` of `bytes` read as a zip file, named
/// [`zip_len_of`]. The file [`zip_one`] writes for the export's entry name
/// and at most `u32::MAX` bytes of data holds one entry. The error's text
/// is left unstated.
#[verifier::external_body]
fn zip_entry_count(bytes: &[u8]) -> (r: Result<usize, String>)
    ensures
        r is Ok <==> zip_len_of(bytes@) is Some,
        r matches Ok(n) ==> zip_len_of(bytes@) == Some(n),
        zip_count_back(r, bytes@),
{
    zip::ZipArchive::new(std::io::Cursor::new(bytes)).map(|a| a.len()).map_err(|e| e.to_string())
}

/// Entry `i` of `bytes` as [`zip_entry_at`] sees it: whether it is a
/// plain file, its name and its size (`None` where it cannot be read).
pub uninterp spec fn zip_entry_of(bytes: Seq<u8>, i: usize) -> Option<(bool, Seq<char>, u64)>;

/// `zip::ZipArchive::by_index`: entry `i` of `bytes` read as a zip file,
/// named [`zip_entry_of`]; never [`Entry::End`] (an index past the end is
/// an error). Entry 0 of the file [`zip_one`] writes for the export's entry
/// name and at most `u32::MAX` bytes of data is a plain file (mode
/// `0o100644`) of that name and size. The error's text is left unstated.
#[verifier::external_body]
fn zip_entry_at(bytes: &[u8], i: usize) -> (r: Entry)
    ensures
        !(r is End),
        r is Failed <==> zip_entry_of(bytes@, i) is None,
        r matches Entry::Found { file, name, size } ==> zip_entry_of(bytes@, i) == Some((file, name@, size)),
        zip_entry_back(r, bytes@, i),
{
    let mut archive = match zip::ZipArchive::new(std::io::Cursor::new(bytes)) {
        Ok(a) => a,
        Err(e) => return Entry::Failed(e.to_string()),
    };
    let entry = match archive.by_index(i) {
        Ok(f) => Entry::Found { file: f.is_file(), name: f.name().to_owned(), size: f.size() },
        Err(e) => Entry::Failed(e.to_string()),
    };
    entry
}

/// What [`zip_read_at`] reads of entry `i` of `bytes` with a cap of `cap`
/// bytes (`None` where it fails).
pub uninterp spec fn zip_content_of(bytes: Seq<u8>, i: usize, cap: u64) -> Option<Seq<u8>>;

/// The content of zip entry `i` of `bytes`, at most `cap` bytes of it,
/// named [`zip_content_of`]. Entry 0 of the file [`zip_one`] writes for
/// the export's entry name and at most `u32::MAX` bytes of data reads back
/// as the data. The error's text is left unstated.
#[verifier::external_body]
fn zip_read_at(bytes: &[u8], i: usize, cap: u64) -> (r: Result<Vec<u8>, String>)
    ensures
        r is Ok <==> zip_content_of(bytes@, i, cap) is Some,
        r matches Ok(v) ==> zip_content_of(bytes@, i, cap) == Some(v@) && v@.len() <= cap,
        zip_read_back(r, bytes@, i, cap),
{
    let mut archive = zip::ZipArchive::new(std::io::Cursor::new(bytes)).map_err(|e| e.to_string())?;
    let entry = archive.by_index(i).map_err(|e| e.to_string())?;
    let mut out = Vec::new();
    entry.take(cap).read_to_end(&mut out).map_err(|e| e.to_string())?;
    Ok(out)
}

/// Entry `k` of `bytes` as [`tar_entry_at`] sees it: `None` where the
/// archive cannot be read up to it, `Some(None)` past the last entry, else
/// whether it is a regular file, its name and its size.
pub uninterp spec fn tar_entry_of(bytes: Seq<u8>, k: usize) -> Option<Option<(bool, Seq<char>, u64)>>;

/// `tar::Archive::entries`: entry `k` of `bytes` read as a tar archive,
/// its name read as lossy UTF-8, named [`tar_entry_of`]. In the archive
/// [`tar_one`] writes for the export's entry name, mode `0o644` and at
/// most `u32::MAX` bytes of data, entry 0 is the regular file of that name
/// and size, and no entry follows it. The error's text is left unstated.
#[verifier::external_body]
fn tar_entry_at(bytes: &[u8], k: usize) -> (r: Entry)
    ensures
        r is Failed <==> tar_entry_of(bytes@, k) is None,
        r is End <==> tar_entry_of(bytes@, k) == Some(None::<(bool, Seq<char>, u64)>),
        r matches Entry::Found { file, name, size } ==> tar_entry_of(bytes@, k) == Some(Some((file, name@, size))),
        tar_entry_back(r, bytes@, k),
{
    let mut archive = tar::Archive::new(std::io::Cursor::new(bytes));
    let mut entries = match archive.entries() {
        Ok(e) => e,
        Err(e) => return Entry::Failed(e.to_string()),
    };
    match entries.nth(k) {
        None => Entry::End,
        Some(Err(e)) => Entry::Failed(e.to_string()),
        Some(Ok(e)) => Entry::Found {
            file: matches!(e.header().entry_type(), tar::EntryType::Regular),
            name: String::from_utf8_lossy(&e.path_bytes()).into_owned(),
            size: e.size(),
        },
    }
}

/// What [`tar_read_at`] reads of entry `k` of `bytes` with a cap of `cap`
/// bytes (`None` where it fails).
pub uninterp spec fn tar_content_of(bytes: Seq<u8>, k: usize, cap: u64) -> Option<Seq<u8>>;

/// The content of tar entry `k` of `bytes`, at most `cap` bytes of it,
/// named [`tar_content_of`]. Entry 0 of the archive [`tar_one`] writes for
/// the export's entry name, mode `0o644` and at most `u32::MAX` bytes of
/// data reads back as the data. The error's text is left unstated.
#[verifier::external_body]
fn tar_read_at(bytes: &[u8], k: usize, cap: u64) -> (r: Result<Vec<u8>, String>)
    ensures
        r is Ok <==> tar_content_of(bytes@, k, cap) is Some,
        r matches Ok(v) ==> tar_content_of(bytes@, k, cap) == Some(v@) && v@.len() <= cap,
        tar_read_back(r, bytes@, k, cap),
{
    let mut archive = tar::Archive::new(std::io::Cursor::new(bytes));
    let mut entries = archive.entries().map_err(|e| e.to_string())?;
    let entry = entries.nth(k).ok_or_else(|| "no such entry".to_string())?.map_err(|e| e.to_string())?;
    let mut out = Vec::new();
    entry.take(cap).read_to_end(&mut out).map_err(|e| e.to_string())?;
    Ok(out)
}

fn bad(msg: &str) -> (e: CoreError)
    ensures
        e matches CoreError::InvalidArgument(m) && m@ == msg@,
{
    CoreError::InvalidArgument(owned(msg))
}

fn pack_failed(why: String) -> (e: CoreError)
    ensures
        e matches CoreError::Storage(m) && m@ == "could not pack the export: "@ + why@,
{
    CoreError::Storage(join(owned("could not pack the export: "), why))
}

/// Packs GeoJSON text in `format`: as it is, gzipped, as the one entry of
/// a zip file, or as the one file of a gzipped tar archive.
pub fn pack(json: &[u8], format: ExportFormat) -> (r: Result<Vec<u8>, CoreError>)
    ensures
        format == ExportFormat::GeoJson ==> (r matches Ok(v) && v@ == json@),
        format == ExportFormat::Gzip ==> (r matches Ok(v) && v@ == gzip_of(json@) && gzip_magic_at(v@)),
        format == ExportFormat::Zip && fits_plain_zip(json@.len() as int) ==> r is Ok,
        format == ExportFormat::Zip ==> (r matches Ok(v) ==> v@ == zip_of(ENTRY_NAME@, json@) && zip_magic_at(v@)),
        format == ExportFormat::TarGz ==> (r matches Ok(v) && v@ == gzip_of(tar_of(ENTRY_NAME@, 0o644, json@))
            && gzip_magic_at(v@) && tar_magic_at(tar_of(ENTRY_NAME@, 0o644, json@))
            && tar_of(ENTRY_NAME@, 0o644, json@).len() == 1536 + block_padded(json@.len() as int)),
        r matches Err(e) ==> e is Storage,
{
    match format {
        ExportFormat::GeoJson => Ok(vstd::slice::slice_to_vec(json)),
        ExportFormat::Gzip => match gzip(json) {
            Ok(v) => Ok(v),
            Err(e) => Err(pack_failed(e)),
        },
        ExportFormat::Zip => match zip_one(ENTRY_NAME, json) {
            Ok(v) => Ok(v),
            Err(e) => Err(pack_failed(e)),
        },
        ExportFormat::TarGz => {
            let tar = match tar_one(ENTRY_NAME, 0o644, json) {
                Ok(v) => v,
                Err(e) => return Err(pack_failed(e)),
            };
            match gzip(tar.as_slice()) {
                Ok(v) => Ok(v),
                Err(e) => Err(pack_failed(e)),
            }
        },
    }
}

/// Whether `bytes` starts with `m`.
fn has_prefix(bytes: &[u8], m: &[u8]) -> (r: bool)
    ensures
        r == starts_with(bytes@, m@),
{
    if m.len() > bytes.len() {
        return false;
    }
    let mut i: usize = 0;
    while i < m.len()
        invariant
            m@.len() <= bytes@.len(),
            i <= m@.len(),
            forall|j: int| 0 <= j < i ==> bytes@[j] == m@[j],
        decreases m@.len() - i,
    {
        if bytes[i] != m[i] {
            assert(bytes@.subrange(0, m@.len() as int)[i as int] != m@[i as int]);
            return false;
        }
        i += 1;
    }
    assert(bytes@.subrange(0, m@.len() as int) =~= m@);
    true
}

/// What is kept of a read: the data when it was read and is at most
/// [`MAX_JSON_BYTES`] long.
pub open spec fn capped_of(read: Option<Seq<u8>>) -> Option<Seq<u8>> {
    match read {
        Some(v) => if v.len() <= MAX_JSON_BYTES { Some(v) } else { None },
        None => None,
    }
}

/// The data read from an archive entry or a gzip stream, refused when it
/// is more than [`MAX_JSON_BYTES`]: too much is an error, not a cut.
pub fn read_capped(read: Result<Vec<u8>, String>) -> (r: Result<Vec<u8>, CoreError>)
    ensures
        r is Ok <==> capped_of(match read { Ok(v) => Some(v@), Err(_) => None }) is Some,
        r matches Ok(v) ==> capped_of(match read { Ok(w) => Some(w@), Err(_) => None }) == Some(v@),
        r matches Err(e) ==> e is InvalidArgument,
        (read matches Ok(v) && v@.len() > MAX_JSON_BYTES) ==> (r matches Err(CoreError::InvalidArgument(m))
            && m@ == "the file unpacks to more than 64 MiB"@),
        read matches Err(why) ==> (r matches Err(CoreError::InvalidArgument(m)) && m@ == "unreadable file: "@ + why@),
{
    match read {
        Ok(v) => {
            if v.len() > MAX_JSON_BYTES {
                Err(bad("the file unpacks to more than 64 MiB"))
            } else {
                Ok(v)
            }
        },
        Err(e) => Err(CoreError::InvalidArgument(join(owned("unreadable file: "), e))),
    }
}

/// An entry name that looks like GeoJSON.
pub open spec fn json_name(name: Seq<char>) -> bool {
    ends_with_nocase(name, ".geojson"@) || ends_with_nocase(name, ".json"@)
}

/// What the unpacker does with an archive entry.
#[derive(Debug, Clone, Copy, PartialEq, Eq, Structural)]
pub enum Step {
    /// Not a GeoJSON file: look at the next entry.
    Next,
    /// The GeoJSON file: read it.
    Read,
    /// The GeoJSON file, larger than [`MAX_JSON_BYTES`]: refuse the import.
    TooLarge,
}

/// The step for an entry, as a spec.
pub open spec fn step_of(file: bool, name: Seq<char>, size: u64) -> Step {
    if !file || !json_name(name) {
        Step::Next
    } else if size > MAX_JSON_BYTES {
        Step::TooLarge
    } else {
        Step::Read
    }
}

/// What the unpacker does with an entry named `name` of `size` bytes: a
/// plain file (`file`) with a GeoJSON name is read, unless it is too
/// large; any other entry is passed over.
pub fn entry_step(file: bool, name: &str, size: u64) -> (s: Step)
    ensures
        s == step_of(file, name@, size),
{
    if !file || !is_json_name(name) {
        Step::Next
    } else if size > MAX_JSON_BYTES as u64 {
        Step::TooLarge
    } else {
        Step::Read
    }
}

/// The GeoJSON of a zip file, looking from entry `i` on among the first
/// `n` (`None` where the unpacker refuses the file).
pub open spec fn zip_pick(bytes: Seq<u8>, i: int, n: int) -> Option<Seq<u8>>
    decreases n - i,
{
    if i < 0 || i >= n {
        None
    } else {
        match zip_entry_of(bytes, i as usize) {
            None => None,
            Some(e) => match step_of(e.0, e.1, e.2) {
                Step::Next => zip_pick(bytes, i + 1, n),
                Step::TooLarge => None,
                Step::Read => capped_of(zip_content_of(bytes, i as usize, (MAX_JSON_BYTES + 1) as u64)),
            },
        }
    }
}

/// The GeoJSON of a zip file: the first GeoJSON entry among the first
/// [`MAX_ENTRIES`].
pub open spec fn zip_json(bytes: Seq<u8>) -> Option<Seq<u8>> {
    match zip_len_of(bytes) {
        None => None,
        Some(count) => zip_pick(bytes, 0, if count < MAX_ENTRIES { count as int } else { MAX_ENTRIES as int }),
    }
}

/// The GeoJSON of a tar archive, looking from entry `k` on.
pub open spec fn tar_pick(bytes: Seq<u8>, k: int) -> Option<Seq<u8>>
    decreases MAX_ENTRIES - k,
{
    if k < 0 || k >= MAX_ENTRIES {
        None
    } else {
        match tar_entry_of(bytes, k as usize) {
            None => None,
            Some(None) => None,
            Some(Some(e)) => match step_of(e.0, e.1, e.2) {
                Step::Next => tar_pick(bytes, k + 1),
                Step::TooLarge => None,
                Step::Read => capped_of(tar_content_of(bytes, k as usize, (MAX_JSON_BYTES + 1) as u64)),
            },
        }
    }
}

/// The GeoJSON inside an import file (`None` where it is refused).
pub open spec fn unpacked(bytes: Seq<u8>) -> Option<Seq<u8>> {
    if bytes.len() > MAX_IMPORT_BYTES {
        None
    } else if zip_magic_at(bytes) {
        zip_json(bytes)
    } else if gzip_magic_at(bytes) {
        match capped_of(gunzip_of(bytes, (MAX_JSON_BYTES + 1) as u64)) {
            None => None,
            Some(inner) => if tar_magic_at(inner) { tar_pick(inner, 0) } else { Some(inner) },
        }
    } else if tar_magic_at(bytes) {
        tar_pick(bytes, 0)
    } else if bytes.len() > MAX_JSON_BYTES {
        None
    } else {
        Some(bytes)
    }
}

/// Message `m` is what `t` says: the whole text where `t.1`, else a text
/// that starts with `t.0` (a fixed prefix before an outside crate's own
/// error text).
pub open spec fn told(m: Seq<char>, t: (Seq<char>, bool)) -> bool {
    if t.1 { m == t.0 } else { t.0.len() <= m.len() && m.take(t.0.len() as int) == t.0 }
}

/// A prefix followed by more text starts with the prefix.
proof fn lemma_prefix(p: Seq<char>, x: Seq<char>)
    ensures
        told(p + x, (p, false)),
{
    assert((p + x).take(p.len() as int) =~= p);
}

/// The text for data read past [`MAX_JSON_BYTES`].
pub open spec fn too_much_text() -> Seq<char> {
    "the file unpacks to more than 64 MiB"@
}

/// Why a zip file is refused, from entry `i` on among the first `n` (only
/// meaningful where [`zip_pick`] refuses it).
pub open spec fn zip_refusal_from(bytes: Seq<u8>, i: int, n: int) -> (Seq<char>, bool)
    decreases n - i,
{
    if i < 0 || i >= n {
        ("no .geojson or .json file in the zip"@, true)
    } else {
        match zip_entry_of(bytes, i as usize) {
            None => ("not a readable zip file: "@, false),
            Some(e) => match step_of(e.0, e.1, e.2) {
                Step::Next => zip_refusal_from(bytes, i + 1, n),
                Step::TooLarge => ("the zip entry is too large"@, true),
                Step::Read => match zip_content_of(bytes, i as usize, (MAX_JSON_BYTES + 1) as u64) {
                    None => ("unreadable file: "@, false),
                    Some(_) => (too_much_text(), true),
                },
            },
        }
    }
}

/// Why a zip file is refused.
pub open spec fn zip_refusal(bytes: Seq<u8>) -> (Seq<char>, bool) {
    match zip_len_of(bytes) {
        None => ("not a readable zip file: "@, false),
        Some(count) => zip_refusal_from(bytes, 0, if count < MAX_ENTRIES { count as int } else { MAX_ENTRIES as int }),
    }
}

/// Why a tar archive is refused, from entry `k` on (only meaningful where
/// [`tar_pick`] refuses it).
pub open spec fn tar_refusal_from(bytes: Seq<u8>, k: int) -> (Seq<char>, bool)
    decreases MAX_ENTRIES - k,
{
    if k < 0 || k >= MAX_ENTRIES {
        ("no .geojson or .json file in the archive"@, true)
    } else {
        match tar_entry_of(bytes, k as usize) {
            None => ("unreadable file: "@, false),
            Some(None) => ("no .geojson or .json file in the archive"@, true),
            Some(Some(e)) => match step_of(e.0, e.1, e.2) {
                Step::Next => tar_refusal_from(bytes, k + 1),
                Step::TooLarge => ("the tar entry is too large"@, true),
                Step::Read => match tar_content_of(bytes, k as usize, (MAX_JSON_BYTES + 1) as u64) {
                    None => ("unreadable file: "@, false),
                    Some(_) => (too_much_text(), true),
                },
            },
        }
    }
}

/// Why an import file is refused (only meaningful where [`unpacked`]
/// refuses it).
pub open spec fn unpack_refusal(bytes: Seq<u8>) -> (Seq<char>, bool) {
    if bytes.len() > MAX_IMPORT_BYTES {
        ("the file is larger than 32 MiB"@, true)
    } else if zip_magic_at(bytes) {
        zip_refusal(bytes)
    } else if gzip_magic_at(bytes) {
        match gunzip_of(bytes, (MAX_JSON_BYTES + 1) as u64) {
            None => ("unreadable file: "@, false),
            Some(inner) => if inner.len() > MAX_JSON_BYTES { (too_much_text(), true) } else { tar_refusal_from(inner, 0) },
        }
    } else if tar_magic_at(bytes) {
        tar_refusal_from(bytes, 0)
    } else {
        ("the file is too large"@, true)
    }
}

/// The export's entry name looks like GeoJSON.
proof fn lemma_entry_name_is_json()
    ensures
        json_name(ENTRY_NAME@),
{
    reveal_strlit("moto-sections.geojson");
    reveal_strlit(".geojson");
    assert(ends_with_nocase(ENTRY_NAME@, ".geojson"@));
}

/// The first GeoJSON entry (by name) among the first [`MAX_ENTRIES`] of a
/// zip file.
fn from_zip(bytes: &[u8]) -> (r: Result<Vec<u8>, CoreError>)
    ensures
        r is Ok <==> zip_json(bytes@) is Some,
        r matches Ok(v) ==> zip_json(bytes@) == Some(v@) && v@.len() <= MAX_JSON_BYTES,
        r matches Err(e) ==> e is InvalidArgument,
        r matches Err(e) ==> (e matches CoreError::InvalidArgument(m) && told(m@, zip_refusal(bytes@))),
        forall|d: Seq<u8>| #![trigger zip_of(ENTRY_NAME@, d)]
            bytes@ == zip_of(ENTRY_NAME@, d) && d.len() <= MAX_JSON_BYTES ==> (r matches Ok(v) && v@ == d),
{
    proof { lemma_entry_name_is_json(); }
    let count = match zip_entry_count(bytes) {
        Ok(n) => n,
        Err(e) => {
            proof { lemma_prefix("not a readable zip file: "@, e@); }
            return Err(CoreError::InvalidArgument(join(owned("not a readable zip file: "), e)));
        },
    };
    let n = if count < MAX_ENTRIES { count } else { MAX_ENTRIES };
    let ghost whole = zip_pick(bytes@, 0, n as int);
    let mut i: usize = 0;
    while i < n
        invariant
            n <= MAX_ENTRIES,
            i <= n,
            zip_json(bytes@) == whole,
            whole == zip_pick(bytes@, i as int, n as int),
            zip_refusal(bytes@) == zip_refusal_from(bytes@, i as int, n as int),
            json_name(ENTRY_NAME@),
            forall|d: Seq<u8>| #![trigger zip_of(ENTRY_NAME@, d)]
                bytes@ == zip_of(ENTRY_NAME@, d) && d.len() <= MAX_JSON_BYTES ==> n == 1 && i == 0,
        decreases n - i,
    {
        match zip_entry_at(bytes, i) {
            Entry::End => {},
            Entry::Failed(e) => {
                proof { lemma_prefix("not a readable zip file: "@, e@); }
                return Err(CoreError::InvalidArgument(join(owned("not a readable zip file: "), e)));
            },
            Entry::Found { file, name, size } => match entry_step(file, name.as_str(), size) {
                Step::Next => {},
                Step::TooLarge => return Err(bad("the zip entry is too large")),
                Step::Read => {
                    let read = zip_read_at(bytes, i, MAX_JSON_BYTES as u64 + 1);
                    proof {
                        if let Err(why) = &read {
                            lemma_prefix("unreadable file: "@, why@);
                        }
                    }
                    return read_capped(read);
                },
            },
        }
        i += 1;
    }
    Err(bad("no .geojson or .json file in the zip"))
}

/// The first GeoJSON file (by name) among the first [`MAX_ENTRIES`]
/// entries of a tar archive.
fn from_tar(bytes: &[u8]) -> (r: Result<Vec<u8>, CoreError>)
    ensures
        r is Ok <==> tar_pick(bytes@, 0) is Some,
        r matches Ok(v) ==> tar_pick(bytes@, 0) == Some(v@) && v@.len() <= MAX_JSON_BYTES,
        r matches Err(e) ==> e is InvalidArgument,
        r matches Err(e) ==> (e matches CoreError::InvalidArgument(m) && told(m@, tar_refusal_from(bytes@, 0))),
        forall|d: Seq<u8>| #![trigger tar_of(ENTRY_NAME@, 0o644u32, d)]
            bytes@ == tar_of(ENTRY_NAME@, 0o644u32, d) && d.len() <= MAX_JSON_BYTES ==> (r matches Ok(v) && v@ == d),
{
    proof { lemma_entry_name_is_json(); }
    let mut k: usize = 0;
    while k < MAX_ENTRIES
        invariant
            k <= MAX_ENTRIES,
            tar_pick(bytes@, 0) == tar_pick(bytes@, k as int),
            tar_refusal_from(bytes@, 0) == tar_refusal_from(bytes@, k as int),
            json_name(ENTRY_NAME@),
            forall|d: Seq<u8>| #![trigger tar_of(ENTRY_NAME@, 0o644u32, d)]
                bytes@ == tar_of(ENTRY_NAME@, 0o644u32, d) && d.len() <= MAX_JSON_BYTES ==> k == 0,
        decreases MAX_ENTRIES - k,
    {
        match tar_entry_at(bytes, k) {
            Entry::End => return Err(bad("no .geojson or .json file in the archive")),
            Entry::Failed(e) => {
                proof { lemma_prefix("unreadable file: "@, e@); }
                return Err(CoreError::InvalidArgument(join(owned("unreadable file: "), e)));
            },
            Entry::Found { file, name, size } => match entry_step(file, name.as_str(), size) {
                Step::Next => {},
                Step::TooLarge => return Err(bad("the tar entry is too large")),
                Step::Read => {
                    let read = tar_read_at(bytes, k, MAX_JSON_BYTES as u64 + 1);
                    proof {
                        if let Err(why) = &read {
                            lemma_prefix("unreadable file: "@, why@);
                        }
                    }
                    return read_capped(read);
                },
            },
        }
        k += 1;
    }
    Err(bad("no .geojson or .json file in the archive"))
}

/// The GeoJSON inside an import file in any of the export formats, told
/// apart by content, not by name: a zip file, gzip (of a tar archive or of
/// the text itself), a tar archive, or the text as it is.
pub fn unpack(bytes: &[u8]) -> (r: Result<Vec<u8>, CoreError>)
    ensures
        r is Ok <==> unpacked(bytes@) is Some,
        r matches Ok(v) ==> unpacked(bytes@) == Some(v@),
        bytes@.len() > MAX_IMPORT_BYTES ==> r is Err,
        r matches Ok(v) ==> v@.len() <= MAX_JSON_BYTES,
        r matches Err(e) ==> e is InvalidArgument,
        r matches Err(e) ==> (e matches CoreError::InvalidArgument(m) && told(m@, unpack_refusal(bytes@))),
        bytes@.len() > MAX_IMPORT_BYTES ==> (r matches Err(CoreError::InvalidArgument(m))
            && m@ == "the file is larger than 32 MiB"@),
        bytes@.len() <= MAX_IMPORT_BYTES && !zip_magic_at(bytes@) && gzip_magic_at(bytes@)
            && (gunzip_of(bytes@, (MAX_JSON_BYTES + 1) as u64) matches Some(inner) && inner.len() > MAX_JSON_BYTES)
            ==> (r matches Err(CoreError::InvalidArgument(m)) && m@ == "the file unpacks to more than 64 MiB"@),
        bytes@.len() <= MAX_IMPORT_BYTES && !zip_magic_at(bytes@) && !gzip_magic_at(bytes@) && !tar_magic_at(bytes@)
            ==> (r matches Ok(v) && v@ == bytes@),
        forall|x: Seq<u8>| #![trigger gzip_of(x)]
            bytes@ == gzip_of(x) && gzip_magic_at(bytes@) && bytes@.len() <= MAX_IMPORT_BYTES
            && x.len() <= MAX_JSON_BYTES && !tar_magic_at(x) ==> (r matches Ok(v) && v@ == x),
        forall|d: Seq<u8>| #![trigger zip_of(ENTRY_NAME@, d)]
            bytes@ == zip_of(ENTRY_NAME@, d) && zip_magic_at(bytes@) && bytes@.len() <= MAX_IMPORT_BYTES
            && d.len() <= MAX_JSON_BYTES ==> (r matches Ok(v) && v@ == d),
        forall|d: Seq<u8>| #![trigger tar_of(ENTRY_NAME@, 0o644u32, d)]
            bytes@ == gzip_of(tar_of(ENTRY_NAME@, 0o644u32, d)) && gzip_magic_at(bytes@)
            && tar_magic_at(tar_of(ENTRY_NAME@, 0o644u32, d)) && bytes@.len() <= MAX_IMPORT_BYTES
            && tar_of(ENTRY_NAME@, 0o644u32, d).len() <= MAX_JSON_BYTES && d.len() <= MAX_JSON_BYTES
            ==> (r matches Ok(v) && v@ == d),
{
    if bytes.len() > MAX_IMPORT_BYTES {
        return Err(bad("the file is larger than 32 MiB"));
    }
    let zip_local: [u8; 4] = [80, 75, 3, 4];
    let zip_end: [u8; 4] = [80, 75, 5, 6];
    let gz: [u8; 2] = [0x1f, 0x8b];
    assert(zip_local@ =~= seq![80u8, 75u8, 3u8, 4u8]);
    assert(zip_end@ =~= seq![80u8, 75u8, 5u8, 6u8]);
    assert(gz@ =~= seq![0x1fu8, 0x8bu8]);
    if has_prefix(bytes, zip_local.as_slice()) || has_prefix(bytes, zip_end.as_slice()) {
        proof {
            if gzip_magic_at(bytes@) {
                assert(bytes@[0] == 0x1fu8);
            }
        }
        return from_zip(bytes);
    }
    if has_prefix(bytes, gz.as_slice()) {
        let unzipped = gunzip(bytes, MAX_JSON_BYTES as u64 + 1);
        proof {
            if let Err(why) = &unzipped {
                lemma_prefix("unreadable file: "@, why@);
            }
        }
        let inner = match read_capped(unzipped) {
            Ok(v) => v,
            Err(e) => return Err(e),
        };
        return if is_tar(inner.as_slice()) { from_tar(inner.as_slice()) } else { Ok(inner) };
    }
    if is_tar(bytes) {
        return from_tar(bytes);
    }
    if bytes.len() > MAX_JSON_BYTES {
        return Err(bad("the file is too large"));
    }
    Ok(vstd::slice::slice_to_vec(bytes))
}

} // verus!

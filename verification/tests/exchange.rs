use std::io::{Cursor, Write};

use moto_core::error::CoreError;
use moto_core::exchange::archive::{
    entry_step, is_json_name, is_tar, pack, read_capped, unpack, ExportFormat, Step, MAX_IMPORT_BYTES, MAX_JSON_BYTES,
};
use moto_core::exchange::{
    clean_name, direction_from_name, direction_name, rating_from_name, rating_name, source_name, way_span_from,
};
use moto_core::exchange::plan::{plan, Plan};
use moto_core::section::{Direction, Rating, Source};

const JSON: &[u8] = br#"{"type":"FeatureCollection","features":[]}"#;

#[test]
fn every_format_round_trips() {
    for f in [ExportFormat::GeoJson, ExportFormat::Gzip, ExportFormat::Zip, ExportFormat::TarGz] {
        let packed = pack(JSON, f).unwrap();
        assert_eq!(unpack(&packed).unwrap(), JSON, "{f:?}");
    }
    assert_eq!(ExportFormat::TarGz.extension(), "tar.gz");
}

#[test]
fn a_plain_tar_is_read_too() {
    let mut b = tar::Builder::new(Vec::new());
    let mut h = tar::Header::new_ustar();
    h.set_size(JSON.len() as u64);
    h.set_entry_type(tar::EntryType::Regular);
    b.append_data(&mut h, "x/sections.JSON", JSON).unwrap();
    assert_eq!(unpack(&b.into_inner().unwrap()).unwrap(), JSON);
}

#[test]
fn archives_without_geojson_are_errors() {
    let mut z = zip::ZipWriter::new(Cursor::new(Vec::new()));
    z.start_file("readme.txt", zip::write::SimpleFileOptions::default()).unwrap();
    z.write_all(b"hello").unwrap();
    let bytes = z.finish().unwrap().into_inner();
    assert!(matches!(unpack(&bytes), Err(CoreError::InvalidArgument(_))));
}

fn gzip(data: &[u8]) -> Vec<u8> {
    let mut enc = flate2::write::GzEncoder::new(Vec::new(), flate2::Compression::default());
    enc.write_all(data).unwrap();
    enc.finish().unwrap()
}

#[test]
fn decompression_bombs_are_refused() {
    let zeros = vec![0u8; 100 * 1024 * 1024];
    let bomb = gzip(&zeros);
    assert!(bomb.len() < MAX_IMPORT_BYTES);
    let err = unpack(&bomb).unwrap_err();
    assert!(matches!(err, CoreError::InvalidArgument(ref m) if m.contains("unpacks to more")), "{err:?}");
    let mut z = zip::ZipWriter::new(Cursor::new(Vec::new()));
    z.start_file(
        "big.geojson",
        zip::write::SimpleFileOptions::default().compression_method(zip::CompressionMethod::Deflated).large_file(true),
    )
    .unwrap();
    z.write_all(&zeros).unwrap();
    let bytes = z.finish().unwrap().into_inner();
    assert!(unpack(&bytes).is_err());
}

#[test]
fn oversized_files_are_refused_before_reading() {
    let big = vec![b' '; MAX_IMPORT_BYTES + 1];
    assert!(matches!(unpack(&big), Err(CoreError::InvalidArgument(_))));
}

#[test]
fn corrupt_archives_never_panic() {
    let good =
        [pack(JSON, ExportFormat::Gzip).unwrap(), pack(JSON, ExportFormat::Zip).unwrap(), pack(JSON, ExportFormat::TarGz).unwrap()];
    let mut x: u64 = 0x2545_f491_4f6c_dd1d;
    for base in &good {
        for _ in 0..300 {
            let mut bytes = base.clone();
            x ^= x << 13;
            x ^= x >> 7;
            x ^= x << 17;
            if x % 4 == 0 {
                bytes.truncate((x as usize / 7) % bytes.len());
            } else {
                for k in 0..(x % 5 + 1) {
                    let i = ((x >> (k * 8)) as usize) % bytes.len();
                    bytes[i] ^= (x >> 3) as u8 | 1;
                }
            }
            let _ = unpack(&bytes);
        }
    }
    let _ = unpack(b"PK\x03\x04");
    let _ = unpack(&[0x1f, 0x8b]);
    let _ = unpack(b"");
}

#[test]
fn containers_are_told_apart_by_content() {
    let tar = {
        let mut b = tar::Builder::new(Vec::new());
        let mut h = tar::Header::new_ustar();
        h.set_size(JSON.len() as u64);
        h.set_entry_type(tar::EntryType::Regular);
        b.append_data(&mut h, "a.geojson", JSON).unwrap();
        b.into_inner().unwrap()
    };
    assert!(is_tar(&tar));
    assert!(!is_tar(JSON));
    assert!(is_json_name("x/Sections.GeoJSON"));
    assert!(is_json_name("a.json"));
    assert!(!is_json_name("a.json.txt"));
    assert!(!is_json_name("json"));
    assert_eq!(pack(JSON, ExportFormat::Gzip).unwrap()[..2], [0x1f, 0x8b]);
}

#[test]
fn names_in_files_read_back() {
    for r in [Rating::Good, Rating::Great, Rating::Epic] {
        assert_eq!(rating_from_name(Some(rating_name(r))).unwrap(), r);
    }
    for d in [Direction::Both, Direction::Forward] {
        assert_eq!(direction_from_name(Some(direction_name(d))).unwrap(), d);
    }
    assert_eq!(rating_from_name(None).unwrap(), Rating::Good);
    assert_eq!(direction_from_name(None).unwrap(), Direction::Both);
    assert!(matches!(rating_from_name(Some("superb")), Err(CoreError::InvalidArgument(_))));
    assert!(matches!(direction_from_name(Some("backward")), Err(CoreError::InvalidArgument(_))));
    assert_eq!(rating_name(Rating::Epic), "epic");
    assert_eq!(direction_name(Direction::Forward), "forward");
    assert_eq!(source_name(Source::OnMap), "map");
    assert_eq!(source_name(Source::Import), "import");
}

#[test]
fn names_are_cleaned_and_capped() {
    let long = format!("a\u{1}b\u{7f}é{}", "x".repeat(300));
    let s = clean_name(&long);
    assert!(s.starts_with("abé"));
    assert_eq!(s.chars().count(), 200);
    assert_eq!(clean_name("tab\tname"), "tabname");
}

#[test]
fn way_spans_need_32_bit_indices() {
    let w = way_span_from(5, 1, 0).unwrap();
    assert_eq!((w.way_id, w.from_idx, w.to_idx), (5, 1, 0));
    assert!(way_span_from(5, -1, 0).is_err());
    assert!(way_span_from(5, 0, 1 << 32).is_err());
    assert!(way_span_from(5, u32::MAX as i64, 0).is_ok());
}

#[test]
fn a_longer_import_replaces_a_shorter_one_from_the_same_file() {
    // Import 1 covers import 0 and is at least as long.
    let p = plan(&[], &[vec![], vec![false]], &[vec![], vec![true]]);
    assert_eq!(p.add, vec![1]);
    assert!(p.remove.is_empty());
    assert_eq!(p.skipped, 1);
}

#[test]
fn covered_imports_are_skipped_and_covering_ones_replace_saved_sections() {
    // Saved sections 10 and 20. Import 0 is covered by saved 20; import 1
    // replaces saved 10; import 2 is covered by the accepted import 1.
    let covered = vec![vec![false, true], vec![false, false, false], vec![false, false, false, true]];
    let replaces = vec![vec![false, false], vec![true, false, false], vec![false, false, false, false]];
    let p = plan(&[10, 20], &covered, &replaces);
    assert_eq!(p.add, vec![1]);
    assert_eq!(p.remove, vec![10]);
    assert_eq!(p.skipped, 2);
    assert_eq!(p, Plan { add: vec![1], remove: vec![10], skipped: 2 });
}

#[test]
fn a_removed_section_no_longer_covers_later_imports() {
    // Import 0 replaces saved 5; import 1 would be covered by saved 5 only,
    // which is gone, so it is added.
    let covered = vec![vec![false], vec![true, false]];
    let replaces = vec![vec![true], vec![false, false]];
    let p = plan(&[5], &covered, &replaces);
    assert_eq!(p.add, vec![0, 1]);
    assert_eq!(p.remove, vec![5]);
    assert_eq!(p.skipped, 0);
}

#[test]
fn every_import_is_added_or_skipped() {
    let n = 6;
    let mut covered = Vec::new();
    let mut replaces = Vec::new();
    for j in 0..n {
        covered.push((0..3 + j).map(|o| (o * 7 + j * 3) % 5 == 0).collect::<Vec<bool>>());
        replaces.push((0..3 + j).map(|o| (o + j) % 3 == 1).collect::<Vec<bool>>());
    }
    let p = plan(&[1, 2, 3], &covered, &replaces);
    assert_eq!(p.skipped as usize + p.add.len(), n);
    assert!(p.add.windows(2).all(|w| w[0] < w[1]));
    let mut ids = p.remove.clone();
    ids.sort();
    ids.dedup();
    assert_eq!(ids.len(), p.remove.len());
}

#[test]
fn geojson_entries_are_read_and_others_passed_over() {
    assert_eq!(entry_step(true, "x/sections.GeoJSON", 10), Step::Read);
    assert_eq!(entry_step(true, "export.json", 0), Step::Read);
    assert_eq!(entry_step(false, "dir.json", 0), Step::Next);
    assert_eq!(entry_step(true, "readme.txt", 5), Step::Next);
    assert_eq!(entry_step(true, "json", 5), Step::Next);
    assert_eq!(entry_step(true, "big.json", MAX_JSON_BYTES as u64 + 1), Step::TooLarge);
    assert_eq!(entry_step(true, "edge.json", MAX_JSON_BYTES as u64), Step::Read);
}

#[test]
fn reads_over_the_cap_are_refused() {
    assert_eq!(read_capped(Ok(vec![1, 2, 3])).unwrap(), vec![1, 2, 3]);
    let err = read_capped(Ok(vec![0; MAX_JSON_BYTES + 1])).unwrap_err();
    assert!(matches!(err, CoreError::InvalidArgument(_)));
    match read_capped(Err("broken stream".to_string())) {
        Err(CoreError::InvalidArgument(m)) => assert_eq!(m, "unreadable file: broken stream"),
        other => panic!("{other:?}"),
    }
}

#[test]
fn importing_covered_sections_again_changes_nothing() {
    // Each import is covered by one of the two saved sections, even where
    // it would replace the other.
    let covered = vec![vec![true, false], vec![false, true, false], vec![true, true, false, false]];
    let replaces = vec![vec![false, true], vec![true, false, true], vec![true, true, true, true]];
    let p = plan(&[1, 2], &covered, &replaces);
    assert!(p.add.is_empty());
    assert!(p.remove.is_empty());
    assert_eq!(p.skipped, 3);
}

#[test]
fn unknown_names_are_quoted() {
    assert_eq!(
        rating_from_name(Some("superb")),
        Err(CoreError::InvalidArgument("unknown rating \"superb\"".into()))
    );
    assert_eq!(
        direction_from_name(Some("back\"ward")),
        Err(CoreError::InvalidArgument("unknown direction \"back\\\"ward\"".into()))
    );
    assert_eq!(way_span_from(1, -1, 0), Err(CoreError::InvalidArgument("invalid way span".into())));
}

fn refusal(bytes: &[u8]) -> String {
    match unpack(bytes) {
        Err(CoreError::InvalidArgument(m)) => m,
        other => panic!("expected a refusal, got {other:?}"),
    }
}

#[test]
fn unpack_refusals_say_why() {
    assert_eq!(refusal(&vec![b' '; MAX_IMPORT_BYTES + 1]), "the file is larger than 32 MiB");

    let mut z = zip::ZipWriter::new(Cursor::new(Vec::new()));
    z.start_file("readme.txt", zip::write::SimpleFileOptions::default()).unwrap();
    z.write_all(b"hello").unwrap();
    assert_eq!(refusal(&z.finish().unwrap().into_inner()), "no .geojson or .json file in the zip");

    let mut b = tar::Builder::new(Vec::new());
    let mut h = tar::Header::new_ustar();
    h.set_size(5);
    h.set_entry_type(tar::EntryType::Regular);
    b.append_data(&mut h, "readme.txt", &b"hello"[..]).unwrap();
    let tar = b.into_inner().unwrap();
    assert_eq!(refusal(&tar), "no .geojson or .json file in the archive");
    assert_eq!(refusal(&gzip(&tar)), "no .geojson or .json file in the archive");

    assert_eq!(refusal(&gzip(&vec![0u8; MAX_JSON_BYTES + 1])), "the file unpacks to more than 64 MiB");
    assert!(refusal(b"PK\x03\x04").starts_with("not a readable zip file: "));
}

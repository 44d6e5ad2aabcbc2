use moto_core::error::CoreError;
use moto_core::exchange::archive;
use moto_core::ffi::{
    export_extension, Avoid, Direction, ExportFormat, ImportReport, MotoError, Rating, RoadClass, SectionSource,
    SectionStatus, SectionUpdate, Surface, TagStatus, TrackAppend, WaySpan,
};
use moto_core::region::format as f;
use moto_core::section as sec;
use moto_core::tag;

#[test]
fn unknown_classes_and_surfaces_map_to_catch_alls() {
    assert_eq!(RoadClass::from(None), RoadClass::Other);
    assert_eq!(Surface::from(None), Surface::Unknown);
    for c in f::RoadClass::all() {
        assert_ne!(RoadClass::from(Some(c)), RoadClass::Other, "{c:?}");
    }
    assert_eq!(Surface::from(Some(f::Surface::Gravel)), Surface::Gravel);
}

#[test]
fn enums_convert_both_ways() {
    for r in [Rating::Good, Rating::Great, Rating::Epic] {
        assert_eq!(Rating::from(sec::Rating::from(r)), r);
    }
    for d in [Direction::Both, Direction::Forward] {
        assert_eq!(Direction::from(sec::Direction::from(d)), d);
    }
    for s in [SectionSource::OnMap, SectionSource::Tag, SectionSource::Track, SectionSource::Import] {
        assert_eq!(SectionSource::from(sec::Source::from(s)), s);
    }
    assert_eq!(SectionStatus::from(sec::Status::Unmatched), SectionStatus::Unmatched);
    assert_eq!(SectionStatus::from(sec::Status::NeedsRematch), SectionStatus::NeedsRematch);
}

#[test]
fn statuses_convert_both_ways() {
    for s in [TagStatus::Pending, TagStatus::Used, TagStatus::Discarded] {
        assert_eq!(TagStatus::from(tag::TagStatus::from(s)), s);
    }
}

#[test]
fn records_convert_field_by_field() {
    let w = WaySpan { way_id: 7, from_idx: 3, to_idx: 1 };
    let c = sec::WaySpan::from(w);
    assert_eq!((c.way_id, c.from_idx, c.to_idx), (7, 3, 1));
    assert_eq!(WaySpan::from(c), w);
    let r = ImportReport::from(moto_core::exchange::ImportReport { added: 1, skipped: 2, replaced: 3, unmatched: 4 });
    assert_eq!((r.added, r.skipped, r.replaced, r.unmatched), (1, 2, 3, 4));
    let t = TrackAppend::from(moto_core::types::Appended { added: 5, point_count: 9 });
    assert_eq!((t.added, t.point_count), (5, 9));
    let a = Avoid::from(moto_core::types::Avoid { motorways: false, unpaved: true, ferries: true });
    assert_eq!((a.motorways, a.ferries), (false, true));
    let u = sec::SectionUpdate::from(SectionUpdate { name: Some("x".into()), rating: Some(Rating::Epic), direction: None });
    assert_eq!(u.name.as_deref(), Some("x"));
    assert_eq!(u.rating, Some(sec::Rating::Epic));
    assert_eq!(u.direction, None);
}

#[test]
fn export_formats_name_their_extension() {
    assert_eq!(export_extension(ExportFormat::TarGz), "tar.gz");
    assert_eq!(export_extension(ExportFormat::GeoJson), "geojson");
    assert_eq!(archive::ExportFormat::from(ExportFormat::Zip), archive::ExportFormat::Zip);
}

#[test]
fn core_errors_cross_as_typed_errors() {
    let e = MotoError::from_core(&CoreError::InvalidArgument("bad".into()));
    assert_eq!(e, MotoError::InvalidInput { message: "invalid argument: bad".into() });
    let e = MotoError::from_core(&CoreError::Region("damaged".into()));
    assert_eq!(e, MotoError::Region { message: "region file error: damaged".into() });
    let e = MotoError::from_core(&CoreError::Storage("locked".into()));
    assert_eq!(e, MotoError::Storage { message: "storage error: locked".into() });
    let e = MotoError::from_core(&CoreError::NoRoute("too far".into()));
    assert_eq!(e, MotoError::NoRoute { message: "no route satisfies the constraints: too far".into() });
}

use moto_core::error::CoreError;
use moto_core::section::{
    validate_fields, validate_name, validate_ways, Direction, Rating, Source, Status, WaySpan, LOCAL_RIDER,
    MAX_SECTION_POINTS, MAX_SECTION_WAYS,
};
use moto_core::tag::TagStatus;
use moto_core::types::Avoid;

#[test]
fn enums_round_trip_through_integers() {
    for r in [Rating::Good, Rating::Great, Rating::Epic] {
        assert_eq!(Rating::from_i64(r.to_i64()), Some(r));
    }
    for d in [Direction::Both, Direction::Forward] {
        assert_eq!(Direction::from_i64(d.to_i64()), Some(d));
    }
    for s in [Source::OnMap, Source::Tag, Source::Track, Source::Import] {
        assert_eq!(Source::from_i64(s.to_i64()), Some(s));
    }
    for s in [Status::Matched, Status::NeedsRematch, Status::Unmatched] {
        assert_eq!(Status::from_i64(s.to_i64()), Some(s));
    }
    for bad in [-1, 4, 99] {
        assert_eq!(Rating::from_i64(bad), None);
        assert_eq!(Source::from_i64(bad), None);
    }
    assert_eq!(Rating::from_i64(0), None);
    assert_eq!(Direction::from_i64(2), None);
    assert_eq!(Status::from_i64(3), None);
    assert!(Rating::Epic > Rating::Good);
}

#[test]
fn stored_integers_are_fixed() {
    assert_eq!(Rating::Good.to_i64(), 1);
    assert_eq!(Rating::Epic.to_i64(), 3);
    assert_eq!(Direction::Forward.to_i64(), 1);
    assert_eq!(Source::Import.to_i64(), 3);
    assert_eq!(Status::Unmatched.to_i64(), 2);
    for s in [TagStatus::Pending, TagStatus::Used, TagStatus::Discarded] {
        assert_eq!(TagStatus::from_i64(s.to_i64()), Some(s));
    }
    assert_eq!(TagStatus::Discarded.to_i64(), 2);
    assert_eq!(TagStatus::from_i64(3), None);
}

fn ways() -> Vec<WaySpan> {
    vec![WaySpan { way_id: 42, from_idx: 0, to_idx: 3 }]
}

#[test]
fn accepts_a_normal_section() {
    validate_fields(LOCAL_RIDER, "Kullaberg loop", 2).unwrap();
    validate_ways(&ways()).unwrap();
}

#[test]
fn rejects_bad_sections() {
    let bad_fields: Vec<(&str, String, String, usize)> = vec![
        ("empty rider", String::new(), "Kullaberg loop".into(), 2),
        ("long rider", "x".repeat(101), "Kullaberg loop".into(), 2),
        ("long name", LOCAL_RIDER.into(), "é".repeat(201), 2),
        ("control char", LOCAL_RIDER.into(), "a\u{0}b".into(), 2),
        ("one point", LOCAL_RIDER.into(), "Kullaberg loop".into(), 1),
        ("too many points", LOCAL_RIDER.into(), "Kullaberg loop".into(), MAX_SECTION_POINTS + 1),
    ];
    for (why, rider, name, points) in bad_fields {
        assert!(
            matches!(validate_fields(&rider, &name, points), Err(CoreError::InvalidArgument(_))),
            "{why} should be rejected"
        );
    }
    assert!(validate_ways(&vec![ways()[0]; MAX_SECTION_WAYS + 1]).is_err(), "too many ways should be rejected");
    let mut w = ways();
    w[0].way_id = 0;
    assert!(validate_ways(&w).is_err(), "bad way id should be rejected");
    validate_fields(LOCAL_RIDER, &"é".repeat(200), 2).unwrap();
    validate_ways(&[]).unwrap();
}

#[test]
fn names_may_have_200_characters_and_no_controls() {
    assert!(validate_name(&"a".repeat(200)).is_ok());
    assert!(validate_name(&"a".repeat(201)).is_err());
    assert!(validate_name("tab\there").is_err());
    assert!(validate_name("del\u{7f}").is_err());
    assert!(validate_name("c1\u{85}").is_err());
    assert!(validate_name("Skåne väg 13").is_ok());
    assert!(validate_name("").is_ok());
}

#[test]
fn routes_avoid_motorways_and_unpaved_roads_by_default() {
    let a = Avoid::default();
    assert!(a.motorways && a.unpaved && !a.ferries);
}

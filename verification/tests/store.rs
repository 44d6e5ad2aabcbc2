use moto_core::error::CoreError;
use moto_core::region::format::PointE7;
use moto_core::store::{bounds, decode_geometry, encode_geometry, migration_start};

#[test]
fn migrations_start_where_the_database_is() {
    assert_eq!(migration_start(0, 2).unwrap(), 0);
    assert_eq!(migration_start(1, 2).unwrap(), 1);
    assert_eq!(migration_start(2, 2).unwrap(), 2);
    assert!(matches!(migration_start(3, 2), Err(CoreError::Storage(_))));
    assert!(matches!(migration_start(-1, 2), Err(CoreError::Storage(_))));
}

#[test]
fn geometry_is_stored_as_e7_pairs() {
    let pts = vec![PointE7 { lat: 557_000_000, lon: 132_000_000 }, PointE7 { lat: -1, lon: 1_800_000_000 }];
    let b = encode_geometry(&pts);
    assert_eq!(b.len(), 16);
    assert_eq!(&b[..4], &557_000_000i32.to_le_bytes());
    assert_eq!(&b[8..12], &(-1i32).to_le_bytes());
    assert_eq!(decode_geometry(&b).unwrap(), pts);
    assert!(decode_geometry(&b[..15]).is_none());
    assert!(decode_geometry(&b[..8]).is_none());
    assert!(decode_geometry(&[]).is_none());
}

#[test]
fn bounds_cover_the_geometry() {
    let pts = [PointE7 { lat: 3, lon: -5 }, PointE7 { lat: -2, lon: 7 }, PointE7 { lat: 1, lon: 0 }];
    let (lo, hi) = bounds(&pts);
    assert_eq!((lo.lat, lo.lon, hi.lat, hi.lon), (-2, -5, 3, 7));
    let (lo, hi) = bounds(&[]);
    assert_eq!((lo.lat, hi.lat), (i32::MAX, i32::MIN));
}

#[test]
fn schema_refusals_name_the_versions() {
    assert_eq!(
        migration_start(5, 4),
        Err(CoreError::Storage("the database is from a newer version of the app (schema 5, this app knows 4)".into()))
    );
    assert_eq!(migration_start(-1, 4), Err(CoreError::Storage("invalid schema version -1".into())));
}

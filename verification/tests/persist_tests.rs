//! Tests of the object-store layout, the snapshot-load planning, and
//! database-name validation.

use influxdb3_core::catalog::CatalogUuid;
use influxdb3_core::catalog_api::Catalog;
use influxdb3_core::database::{DatabaseSchema, DeletedSchema, IfNotDeleted};
use influxdb3_core::log::FieldDataType;
use influxdb3_core::persist::{catalog_checkpoint_path, catalog_log_path,
    parquet_file_path, select_newest_snapshots, snapshot_info_path};
use influxdb3_core::table::TableDefinition;
use influxdb3_core::types::{DbId, HardDeletionTime, TableId};
use influxdb3_core::validate::{validate_db_name, ValidateDbNameError};

#[test]
fn object_store_keys_are_zero_padded() {
    assert_eq!(catalog_log_path("host", 42),
        "host/catalog/log/00000000000000000042.bin");
    assert_eq!(catalog_checkpoint_path("host"), "host/catalog/checkpoint.bin");
    assert_eq!(snapshot_info_path("host", 7),
        "host/snapshots/00000000000000000007.json");
}

#[test]
fn parquet_keys_carry_generation_and_date() {
    // chunk time at the epoch lands in the first calendar bucket
    assert_eq!(
        parquet_file_path("weather", DbId(3), TableId(5), 2, 0, 9),
        "dbs/weather-3/weather-5/gen2/1970-01-01/00-00/9.parquet"
    );
    // one hour and one minute past the epoch
    assert_eq!(
        parquet_file_path("weather", DbId(3), TableId(5), 1, 3_660_000_000_000, 0),
        "dbs/weather-3/weather-5/gen1/1970-01-01/01-01/0.parquet"
    );
}

#[test]
fn load_snapshots_returns_newest_first() {
    // a store holding 1001 snapshots answers a request for 1500 with all
    // 1001, newest first
    let mut seqs: Vec<u64> = Vec::new();
    for id in 0u64..1001 {
        seqs.push(id);
    }
    let selected = select_newest_snapshots(&seqs, 1500);
    assert_eq!(selected.len(), 1001);
    assert_eq!(selected[0], 1000);
    assert_eq!(selected[1000], 0);
    for w in selected.windows(2) {
        assert!(w[0] >= w[1]);
    }

    // asking for fewer cuts to the newest
    let top = select_newest_snapshots(&seqs, 2);
    assert_eq!(top, vec![1000, 999]);
}

#[test]
fn retention_cutoff_map_covers_live_tables() {
    let mut catalog = Catalog::new_empty("c".to_string(), CatalogUuid { hi: 1, lo: 2 });
    catalog.create_database("with_retention", Some(1_000), 0).unwrap();
    catalog.create_table("with_retention", "kept", &vec!["tag1".to_string()],
        &vec![("f".to_string(), FieldDataType::Integer)], 1).unwrap();
    catalog.create_table("with_retention", "dropped", &vec!["tag1".to_string()],
        &vec![("f".to_string(), FieldDataType::Integer)], 2).unwrap();
    catalog.soft_delete_table("with_retention", "dropped", HardDeletionTime::Never, 3)
        .unwrap();
    catalog.create_database("indefinite", None, 4).unwrap();
    catalog.create_table("indefinite", "ignored", &vec!["tag1".to_string()],
        &vec![("f".to_string(), FieldDataType::Integer)], 5).unwrap();

    let map = catalog.get_retention_period_cutoff_map(10_000);
    // only the live table of the database with a duration gets a cutoff
    assert_eq!(map.len(), 1);
    assert_eq!(map[0].0, DbId(0));
    assert_eq!(map[0].1, TableId(0));
    assert_eq!(map[0].2, 10_000 - 1_000);
}

#[test]
fn deleted_schema_filters_itself() {
    let db = DatabaseSchema::new(DbId(1), "db".to_string());
    assert!(!db.is_deleted());
    assert!(db.if_not_deleted().is_some());

    let mut table = TableDefinition::new_empty(TableId(1), "t".to_string());
    table.deleted = true;
    assert!(table.is_deleted());
    assert!(table.if_not_deleted().is_none());
}

#[test]
fn test_validate_db_name() {
    assert!(matches!(validate_db_name("foo/bar", false),
        Err(ValidateDbNameError::InvalidChar)));
    assert!(validate_db_name("foo/bar", true).is_ok());
    assert!(matches!(validate_db_name("foo/bar/baz", true),
        Err(ValidateDbNameError::InvalidRetentionPolicy)));
    assert!(matches!(validate_db_name("foo/", true),
        Err(ValidateDbNameError::InvalidRetentionPolicy)));
    assert!(matches!(validate_db_name("foo/bar/baz", false),
        Err(ValidateDbNameError::InvalidChar)));
    assert!(matches!(validate_db_name("_foo", false),
        Err(ValidateDbNameError::InvalidStartChar)));
    assert!(matches!(validate_db_name("", false), Err(ValidateDbNameError::Empty)));
    assert!(validate_db_name("db_one-2", false).is_ok());
}

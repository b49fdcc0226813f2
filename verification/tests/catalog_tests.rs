//! Tests of the catalog: batch application, soft and hard deletion,
//! tokens, generation configuration, the permit path and replay.

use influxdb3_core::catalog::{CatalogUuid, InnerCatalog};
use influxdb3_core::catalog_api::{Catalog, CatalogState};
use influxdb3_core::database::DatabaseSchema;
use influxdb3_core::errors::CatalogError;
use influxdb3_core::log::{CatalogBatch, DatabaseBatch, DatabaseCatalogOp, DeleteBatch,
    DeleteOp, FieldDataType, NodeBatch, NodeCatalogOp, NodeMode, Prompt, RegisterNodeLog,
    SetRetentionPeriodLog, TriggerDefinition, TriggerSpecificationDefinition};
use influxdb3_core::table::TableDefinition;
use influxdb3_core::types::{ColumnId, DbId, HardDeletionTime, InfluxColumnType,
    InfluxFieldType, NodeId, RetentionPeriod, TableId};

fn test_uuid() -> CatalogUuid {
    CatalogUuid { hi: 7, lo: 11 }
}

fn new_catalog() -> Catalog {
    Catalog::new_empty("test-catalog".to_string(), test_uuid())
}

#[test]
fn test_deleted_objects_initialization() {
    let catalog = InnerCatalog::new("test-catalog".to_string(), test_uuid());
    assert_eq!(catalog.catalog_id.as_str(), "test-catalog");
}

#[test]
fn test_apply_delete_batch_delete_database() {
    let mut catalog = InnerCatalog::new("test-catalog".to_string(), test_uuid());
    let db_id = DbId(1);

    let db_schema = DatabaseSchema::new(db_id, "test_db".to_string());
    catalog.databases.insert(db_id.0, "test_db".to_string(), db_schema).unwrap();

    let delete_batch = DeleteBatch { time_ns: 1000, ops: vec![DeleteOp::DeleteDatabase(db_id)] };

    let result = catalog.apply_delete_batch(&delete_batch).unwrap();
    assert!(result);
}

#[test]
fn test_apply_delete_batch_delete_table() {
    let mut catalog = InnerCatalog::new("test-catalog".to_string(), test_uuid());
    let db_id = DbId(1);
    let table_id = TableId(1);

    let mut db_schema = DatabaseSchema::new(db_id, "test_db".to_string());
    let table_def = TableDefinition::new_empty(table_id, "test_table".to_string());
    db_schema.tables.insert(table_id.0, "test_table".to_string(), table_def).unwrap();
    catalog.databases.insert(db_id.0, "test_db".to_string(), db_schema).unwrap();

    let delete_batch = DeleteBatch {
        time_ns: 1000,
        ops: vec![DeleteOp::DeleteTable(db_id, table_id)],
    };

    let result = catalog.apply_delete_batch(&delete_batch).unwrap();
    assert!(result);
}

#[test]
fn test_apply_delete_batch_multiple_tables() {
    let mut catalog = InnerCatalog::new("test-catalog".to_string(), test_uuid());
    let db_id = DbId(1);
    let table_id_1 = TableId(1);
    let table_id_2 = TableId(2);
    let table_id_3 = TableId(3);

    let mut db_schema = DatabaseSchema::new(db_id, "test_db".to_string());
    db_schema.tables.insert(table_id_1.0, "table1".to_string(),
        TableDefinition::new_empty(table_id_1, "table1".to_string())).unwrap();
    db_schema.tables.insert(table_id_2.0, "table2".to_string(),
        TableDefinition::new_empty(table_id_2, "table2".to_string())).unwrap();
    db_schema.tables.insert(table_id_3.0, "table3".to_string(),
        TableDefinition::new_empty(table_id_3, "table3".to_string())).unwrap();
    catalog.databases.insert(db_id.0, "test_db".to_string(), db_schema).unwrap();

    let delete_batch = DeleteBatch {
        time_ns: 1000,
        ops: vec![
            DeleteOp::DeleteTable(db_id, table_id_1),
            DeleteOp::DeleteTable(db_id, table_id_2),
            DeleteOp::DeleteTable(db_id, table_id_3),
        ],
    };

    let result = catalog.apply_delete_batch(&delete_batch).unwrap();
    assert!(result);
}

#[test]
fn test_apply_delete_batch_mixed_operations() {
    let mut catalog = InnerCatalog::new("test-catalog".to_string(), test_uuid());
    let db_id_1 = DbId(1);
    let db_id_2 = DbId(2);
    let table_id_1 = TableId(1);
    let table_id_2 = TableId(2);

    let mut db_schema_1 = DatabaseSchema::new(db_id_1, "test_db1".to_string());
    db_schema_1.tables.insert(table_id_1.0, "table1".to_string(),
        TableDefinition::new_empty(table_id_1, "table1".to_string())).unwrap();
    db_schema_1.tables.insert(table_id_2.0, "table2".to_string(),
        TableDefinition::new_empty(table_id_2, "table2".to_string())).unwrap();
    catalog.databases.insert(db_id_1.0, "test_db1".to_string(), db_schema_1).unwrap();

    let db_schema_2 = DatabaseSchema::new(db_id_2, "test_db2".to_string());
    catalog.databases.insert(db_id_2.0, "test_db2".to_string(), db_schema_2).unwrap();

    let delete_batch = DeleteBatch {
        time_ns: 1000,
        ops: vec![
            DeleteOp::DeleteTable(db_id_1, table_id_1),
            DeleteOp::DeleteTable(db_id_1, table_id_2),
            DeleteOp::DeleteDatabase(db_id_2),
        ],
    };

    let result = catalog.apply_delete_batch(&delete_batch).unwrap();
    assert!(result);
}

#[test]
fn test_apply_delete_batch_database_overrides_tables() {
    let mut catalog = InnerCatalog::new("test-catalog".to_string(), test_uuid());
    let db_id = DbId(1);
    let table_id = TableId(1);

    let mut db_schema = DatabaseSchema::new(db_id, "test_db".to_string());
    db_schema.tables.insert(table_id.0, "test_table".to_string(),
        TableDefinition::new_empty(table_id, "test_table".to_string())).unwrap();
    catalog.databases.insert(db_id.0, "test_db".to_string(), db_schema).unwrap();

    let delete_batch_1 = DeleteBatch {
        time_ns: 1000,
        ops: vec![DeleteOp::DeleteTable(db_id, table_id)],
    };
    assert!(catalog.apply_delete_batch(&delete_batch_1).unwrap());

    let delete_batch_2 = DeleteBatch {
        time_ns: 2000,
        ops: vec![DeleteOp::DeleteDatabase(db_id)],
    };
    assert!(catalog.apply_delete_batch(&delete_batch_2).unwrap());
    assert!(!catalog.databases.contains_id(db_id.0));
}

#[test]
fn test_apply_delete_batch_removes_database_from_schema() {
    let mut catalog = InnerCatalog::new("test-catalog".to_string(), test_uuid());
    let db_id = DbId(1);
    let db_schema = DatabaseSchema::new(db_id, "test_db".to_string());
    catalog.databases.insert(db_id.0, "test_db".to_string(), db_schema).unwrap();
    assert!(catalog.databases.contains_id(db_id.0));

    let delete_batch = DeleteBatch { time_ns: 1000, ops: vec![DeleteOp::DeleteDatabase(db_id)] };
    assert!(catalog.apply_delete_batch(&delete_batch).unwrap());
    assert!(!catalog.databases.contains_id(db_id.0));
}

#[test]
fn test_apply_delete_batch_removes_table_from_schema() {
    let mut catalog = InnerCatalog::new("test-catalog".to_string(), test_uuid());
    let db_id = DbId(1);
    let table_id = TableId(1);

    let mut db_schema = DatabaseSchema::new(db_id, "test_db".to_string());
    db_schema.tables.insert(table_id.0, "test_table".to_string(),
        TableDefinition::new_empty(table_id, "test_table".to_string())).unwrap();
    catalog.databases.insert(db_id.0, "test_db".to_string(), db_schema).unwrap();

    let delete_batch = DeleteBatch {
        time_ns: 1000,
        ops: vec![DeleteOp::DeleteTable(db_id, table_id)],
    };
    assert!(catalog.apply_delete_batch(&delete_batch).unwrap());

    let db = catalog.databases.get_by_id(db_id.0).unwrap();
    assert!(!db.tables.contains_id(table_id.0));
}

#[test]
fn test_apply_delete_batch_database_deletion_removes_all_tables() {
    let mut catalog = InnerCatalog::new("test-catalog".to_string(), test_uuid());
    let db_id = DbId(1);

    let mut db_schema = DatabaseSchema::new(db_id, "test_db".to_string());
    for t in 1u64..=3 {
        let name = format!("table{}", t);
        db_schema.tables.insert(t, name.clone(),
            TableDefinition::new_empty(TableId(t), name)).unwrap();
    }
    catalog.databases.insert(db_id.0, "test_db".to_string(), db_schema).unwrap();

    let delete_batch = DeleteBatch { time_ns: 1000, ops: vec![DeleteOp::DeleteDatabase(db_id)] };
    assert!(catalog.apply_delete_batch(&delete_batch).unwrap());
    assert!(!catalog.databases.contains_id(db_id.0));
}

#[test]
fn test_apply_delete_batch_table_deletion_after_database_deletion() {
    let mut catalog = InnerCatalog::new("test-catalog".to_string(), test_uuid());
    let db_id = DbId(1);
    let table_id = TableId(1);

    let mut db_schema = DatabaseSchema::new(db_id, "test_db".to_string());
    db_schema.tables.insert(table_id.0, "test_table".to_string(),
        TableDefinition::new_empty(table_id, "test_table".to_string())).unwrap();
    catalog.databases.insert(db_id.0, "test_db".to_string(), db_schema).unwrap();

    let delete_db = DeleteBatch { time_ns: 1000, ops: vec![DeleteOp::DeleteDatabase(db_id)] };
    assert!(catalog.apply_delete_batch(&delete_db).unwrap());

    // deleting a table of a gone database changes nothing
    let delete_table = DeleteBatch {
        time_ns: 2000,
        ops: vec![DeleteOp::DeleteTable(db_id, table_id)],
    };
    assert!(!catalog.apply_delete_batch(&delete_table).unwrap());
}

#[test]
fn test_database_deletion_removes_from_deleted_tables() {
    let mut catalog = InnerCatalog::new("test-catalog".to_string(), test_uuid());
    let db_id_1 = DbId(1);
    let db_id_2 = DbId(2);
    let table_id_1 = TableId(1);
    let table_id_2 = TableId(2);
    let table_id_3 = TableId(3);

    // deleting tables of absent databases changes nothing
    let delete_batch_1 = DeleteBatch {
        time_ns: 1000,
        ops: vec![
            DeleteOp::DeleteTable(db_id_1, table_id_1),
            DeleteOp::DeleteTable(db_id_1, table_id_2),
            DeleteOp::DeleteTable(db_id_2, table_id_3),
        ],
    };
    catalog.apply_delete_batch(&delete_batch_1).unwrap();

    // nor does deleting an absent database
    let delete_batch_2 = DeleteBatch {
        time_ns: 2000,
        ops: vec![DeleteOp::DeleteDatabase(db_id_1)],
    };
    catalog.apply_delete_batch(&delete_batch_2).unwrap();
}

#[test]
fn test_apply_delete_batch_database_delete_table_correctness_with_multiple_schema_references() {
    let mut catalog = InnerCatalog::new("test-catalog".to_string(), test_uuid());

    let db_id = DbId(1);
    let mut db_schema_1 = DatabaseSchema::new(db_id, "db1".to_string());
    let table_id_1 = TableId(1);
    let table_id_2 = TableId(2);
    db_schema_1.tables.insert(table_id_1.0, "table1".to_string(),
        TableDefinition::new_empty(table_id_1, "table1".to_string())).unwrap();
    db_schema_1.tables.insert(table_id_2.0, "table2".to_string(),
        TableDefinition::new_empty(table_id_2, "table2".to_string())).unwrap();
    catalog.databases.insert(db_id.0, "db1".to_string(), db_schema_1).unwrap();

    let delete_batch = DeleteBatch {
        time_ns: 1000,
        ops: vec![DeleteOp::DeleteTable(db_id, table_id_1)],
    };

    let result = catalog.apply_delete_batch(&delete_batch).unwrap();
    assert!(result);

    let new_db_schema = catalog.databases.get_by_id(db_id.0).unwrap();
    assert!(new_db_schema.tables.get_by_id(table_id_1.0).is_none());
    assert!(new_db_schema.tables.get_by_id(table_id_2.0).is_some());
}

#[test]
fn test_apply_delete_batch_mixed_operations_with_schema_removal() {
    let mut catalog = InnerCatalog::new("test-catalog".to_string(), test_uuid());

    let db_id_1 = DbId(1);
    let db_id_2 = DbId(2);

    let mut db_schema_1 = DatabaseSchema::new(db_id_1, "db1".to_string());
    let table_id_1 = TableId(1);
    let table_id_2 = TableId(2);
    db_schema_1.tables.insert(table_id_1.0, "table1".to_string(),
        TableDefinition::new_empty(table_id_1, "table1".to_string())).unwrap();
    db_schema_1.tables.insert(table_id_2.0, "table2".to_string(),
        TableDefinition::new_empty(table_id_2, "table2".to_string())).unwrap();

    let mut db_schema_2 = DatabaseSchema::new(db_id_2, "db2".to_string());
    let table_id_3 = TableId(3);
    db_schema_2.tables.insert(table_id_3.0, "table3".to_string(),
        TableDefinition::new_empty(table_id_3, "table3".to_string())).unwrap();

    catalog.databases.insert(db_id_1.0, "db1".to_string(), db_schema_1).unwrap();
    catalog.databases.insert(db_id_2.0, "db2".to_string(), db_schema_2).unwrap();

    let delete_batch = DeleteBatch {
        time_ns: 1000,
        ops: vec![
            DeleteOp::DeleteTable(db_id_1, table_id_1),
            DeleteOp::DeleteDatabase(db_id_2),
        ],
    };

    let result = catalog.apply_delete_batch(&delete_batch).unwrap();
    assert!(result);

    // the first database keeps only its second table
    let db1 = catalog.databases.get_by_id(db_id_1.0).unwrap();
    assert!(db1.tables.get_by_id(table_id_1.0).is_none());
    assert!(db1.tables.get_by_id(table_id_2.0).is_some());

    // the second database is gone for good
    assert!(catalog.databases.get_by_id(db_id_2.0).is_none());
}

#[test]
fn add_columns_updates_schema_and_column_map() {
    let mut database = DatabaseSchema::new(DbId(0), "test".to_string());
    let table = TableDefinition::new(
        TableId(0),
        "test".to_string(),
        vec![
            (ColumnId(0), "test".to_string(),
                InfluxColumnType::Field(InfluxFieldType::String)),
            (ColumnId(1), "test999".to_string(), InfluxColumnType::Tag),
        ],
        vec![ColumnId(1)],
    )
    .unwrap();
    database.tables.insert(0, "test".to_string(), table).unwrap();

    let table = database.tables.get_by_id(0).unwrap();
    assert_eq!(table.num_columns(), 2);
    assert_eq!(table.column_id_to_name(ColumnId(0)).unwrap().as_str(), "test");
    assert_eq!(table.column_id_to_name(ColumnId(1)).unwrap().as_str(), "test999");
    assert_eq!(table.series_key.len(), 1);
    assert_eq!(table.series_key_names.len(), 1);
    assert_eq!(table.sort_key, vec!["test999".to_string()]);

    // add time and verify the sort key is updated
    let mut table = table.duplicate();
    table.add_columns(vec![(ColumnId(2), "time".to_string(),
        InfluxColumnType::Timestamp)]).unwrap();
    assert_eq!(table.series_key.len(), 1);
    assert_eq!(table.series_key_names.len(), 1);
    assert_eq!(table.sort_key, vec!["test999".to_string(), "time".to_string()]);

    table.add_columns(vec![(ColumnId(3), "test2".to_string(), InfluxColumnType::Tag)])
        .unwrap();

    // the series key, series key names and sort key are updated when a tag
    // column is added, and the time column still stands at the end
    assert_eq!(table.series_key.len(), 2);
    assert_eq!(table.series_key_names,
        vec!["test999".to_string(), "test2".to_string()]);
    assert_eq!(table.sort_key,
        vec!["test999".to_string(), "test2".to_string(), "time".to_string()]);
}

#[test]
fn soft_delete_database_is_idempotent_for_default() {
    // create a database at one second past the epoch, soft delete it with
    // an explicit time, then ask for the default again
    let mut catalog = new_catalog();
    catalog.create_database("test_db", None, 1_000_000_000).unwrap();

    catalog.soft_delete_database("test_db",
        HardDeletionTime::Timestamp(5_000_000_000), 1_000_000_000).unwrap();

    let db = catalog.db_schema_by_id(DbId(0)).unwrap();
    assert!(db.deleted);
    assert_eq!(db.hard_delete_time, Some(5_000_000_000));
    // renamed with the deletion time: one second past the epoch
    assert_eq!(db.name.as_str(), "test_db-19700101T000001");

    // a second soft delete with the default hard time signals the deletion
    // and changes nothing
    let renamed = "test_db-19700101T000001";
    let result = catalog.soft_delete_database(renamed, HardDeletionTime::Default,
        2_000_000_000);
    assert!(matches!(result, Err(CatalogError::AlreadyDeleted)));
    let db = catalog.db_schema_by_id(DbId(0)).unwrap();
    assert_eq!(db.hard_delete_time, Some(5_000_000_000));
}

#[test]
fn column_add_promotes_series_and_sort_key() {
    let mut table = TableDefinition::new(
        TableId(0),
        "t".to_string(),
        vec![
            (ColumnId(0), "f1".to_string(), InfluxColumnType::Field(InfluxFieldType::String)),
            (ColumnId(1), "tag999".to_string(), InfluxColumnType::Tag),
        ],
        vec![ColumnId(1)],
    )
    .unwrap();
    table.add_columns(vec![(ColumnId(2), "time".to_string(), InfluxColumnType::Timestamp)])
        .unwrap();
    assert_eq!(table.series_key_names, vec!["tag999".to_string()]);
    assert_eq!(table.sort_key, vec!["tag999".to_string(), "time".to_string()]);
    table.add_columns(vec![(ColumnId(3), "tag2".to_string(), InfluxColumnType::Tag)])
        .unwrap();
    assert_eq!(table.series_key_names, vec!["tag999".to_string(), "tag2".to_string()]);
    assert_eq!(table.sort_key,
        vec!["tag999".to_string(), "tag2".to_string(), "time".to_string()]);
}

#[test]
fn permit_retry_on_stale_sequence() {
    let mut catalog = new_catalog();
    catalog.create_database("one", None, 0).unwrap();
    let observed = catalog.sequence_number();

    // another writer advances the catalog
    catalog.create_database("two", None, 0).unwrap();

    // a batch composed against the stale observation is refused
    let stale = CatalogBatch::Database(DatabaseBatch {
        time_ns: 0,
        database_id: DbId(0),
        database_name: "one".to_string(),
        ops: vec![DatabaseCatalogOp::SetRetentionPeriod(SetRetentionPeriodLog {
            database_name: "one".to_string(),
            retention_period: RetentionPeriod::Duration(1000),
        })],
    });
    match catalog.get_permit_and_verify_catalog_batch(stale, observed) {
        Prompt::Retry => {},
        Prompt::Success(_) => panic!("stale observation must be refused"),
    }

    // recomposed against the current sequence it goes through
    let current = catalog.sequence_number();
    let fresh = CatalogBatch::Database(DatabaseBatch {
        time_ns: 0,
        database_id: DbId(0),
        database_name: "one".to_string(),
        ops: vec![DatabaseCatalogOp::SetRetentionPeriod(SetRetentionPeriodLog {
            database_name: "one".to_string(),
            retention_period: RetentionPeriod::Duration(1000),
        })],
    });
    let ordered = match catalog.get_permit_and_verify_catalog_batch(fresh, current) {
        Prompt::Success(ordered) => ordered,
        Prompt::Retry => panic!("current observation must be accepted"),
    };
    assert!(catalog.apply_ordered_catalog_batch(&ordered).unwrap());
    assert_eq!(catalog.sequence_number().get(), current.get() + 1);
}

#[test]
fn admin_token_create_twice_fails_and_regenerate_replaces_hash() {
    let mut catalog = new_catalog();
    let (token, _batch) = catalog.create_admin_token(false, 0, 100).unwrap();
    assert!(token.starts_with("apiv3_"));

    // creating the operator token again fails
    let result = catalog.create_admin_token(false, 1, 101);
    match result {
        Err(CatalogError::TokenNameAlreadyExists(name)) => assert_eq!(name, "_admin"),
        _ => panic!("creating the operator token twice must fail"),
    }

    let before = catalog.inner.tokens.repo.get_by_name("_admin").unwrap();
    let created_at = before.created_at;
    let old_hash = before.hash.clone();

    // regenerating replaces only the hash and the update time
    let (token2, _batch) = catalog.create_admin_token(true, 2, 222).unwrap();
    assert_ne!(token, token2);
    let after = catalog.inner.tokens.repo.get_by_name("_admin").unwrap();
    assert_ne!(after.hash, old_hash);
    assert_eq!(after.created_at, created_at);
    assert_eq!(after.updated_at, Some(222));
    assert_eq!(after.name.as_str(), "_admin");
}

#[test]
fn token_plaintext_shape_and_hash() {
    let mut catalog = new_catalog();
    let (token, _batch) = catalog.create_admin_token(false, 0, 100).unwrap();

    // the plaintext is `apiv3_` and 86 characters of the URL-safe base64
    // alphabet
    assert_eq!(token.len(), 92);
    assert!(token.starts_with("apiv3_"));
    for c in token[6..].chars() {
        assert!(c.is_ascii_alphanumeric() || c == '-' || c == '_');
    }

    // the stored hash is the SHA-512 of the plaintext
    let stored = catalog.inner.tokens.repo.get_by_name("_admin").unwrap();
    let expected: Vec<u8> = <sha2::Sha512 as sha2::Digest>::digest(token.as_bytes()).to_vec();
    assert_eq!(stored.hash, expected);
}

#[test]
fn set_generation_duration_is_idempotent_for_equal_values() {
    let mut catalog = new_catalog();
    let first = catalog.set_generation_duration(1, 60_000_000_000, 0).unwrap();
    assert!(first.is_some());
    let seq = catalog.sequence_number().get();

    // the same value again is a no-op
    let second = catalog.set_generation_duration(1, 60_000_000_000, 1).unwrap();
    assert!(second.is_none());
    assert_eq!(catalog.sequence_number().get(), seq);

    // a differing value fails
    let third = catalog.set_generation_duration(1, 120_000_000_000, 2);
    match third {
        Err(CatalogError::CannotChangeGenerationDuration { level, existing_ns,
            attempted_ns }) => {
            assert_eq!(level, 1);
            assert_eq!(existing_ns, 60_000_000_000);
            assert_eq!(attempted_ns, 120_000_000_000);
        },
        _ => panic!("changing a set duration must fail"),
    }
    assert_eq!(catalog.get_generation_duration(1), Some(60_000_000_000));
}

#[test]
fn adding_too_many_tags_fails() {
    // a table with 250 tags is fine; the next tag is refused
    let mut columns: Vec<(ColumnId, String, InfluxColumnType)> = Vec::new();
    for i in 0u64..250 {
        columns.push((ColumnId(i), format!("tag{}", i), InfluxColumnType::Tag));
    }
    let mut table = TableDefinition::new(TableId(0), "t".to_string(), columns,
        Vec::new()).unwrap();
    assert_eq!(table.num_tag_columns(), 250);

    let result = table.add_columns(vec![(ColumnId(250), "tag250".to_string(),
        InfluxColumnType::Tag)]);
    assert!(matches!(result, Err(CatalogError::TooManyTagColumns)));
    assert_eq!(table.num_tag_columns(), 250);
}

#[test]
fn hard_delete_internal_database_fails() {
    let mut catalog = new_catalog();
    catalog.create_database("_internal", None, 0).unwrap();
    catalog.create_database("user_db", None, 0).unwrap();

    let internal_id = catalog.db_name_to_id("_internal").unwrap();
    let result = catalog.hard_delete_database(internal_id, 1);
    assert!(matches!(result, Err(CatalogError::CannotDeleteInternalDatabase)));
    assert!(catalog.db_exists(internal_id));

    // other databases are removed for good
    let user_id = catalog.db_name_to_id("user_db").unwrap();
    catalog.hard_delete_database(user_id, 2).unwrap();
    assert!(!catalog.db_exists(user_id));
}

#[test]
fn replay_advances_sequence_by_history_length() {
    // build a catalog online, collecting the log
    let mut online = new_catalog();
    let mut log = Vec::new();
    log.push(online.create_database("db_one", None, 10).unwrap());
    log.push(online.create_database("db_two", Some(1000), 20).unwrap());
    log.push(online.create_table("db_one", "weather",
        &vec!["city".to_string()],
        &vec![("temp".to_string(), FieldDataType::Float)], 30).unwrap());
    log.push(online.soft_delete_database("db_two", HardDeletionTime::Never, 40).unwrap());
    let final_seq = online.sequence_number().get();
    assert_eq!(final_seq, log.len() as u64);

    // replaying the log on a fresh catalog reaches the same sequence and
    // the same observable state
    let mut replayed = Catalog::new_empty("test-catalog".to_string(), test_uuid());
    replayed.replay(&log).unwrap();
    assert_eq!(replayed.sequence_number().get(), final_seq);
    assert_eq!(replayed.db_names(), online.db_names());
    assert_eq!(replayed.db_name_to_id("db_one"), online.db_name_to_id("db_one"));
    let online_table = online.db_schema("db_one").unwrap()
        .table_definition("weather").unwrap();
    let replayed_table = replayed.db_schema("db_one").unwrap()
        .table_definition("weather").unwrap();
    assert_eq!(replayed_table.sort_key, online_table.sort_key);
    assert_eq!(replayed_table.num_columns(), online_table.num_columns());
    let online_deleted = online.db_schema_by_id(DbId(1)).unwrap();
    let replayed_deleted = replayed.db_schema_by_id(DbId(1)).unwrap();
    assert!(replayed_deleted.deleted);
    assert_eq!(replayed_deleted.name, online_deleted.name);
}

#[test]
fn snapshot_round_trip_preserves_catalog() {
    let mut catalog = new_catalog();
    catalog.create_database("db_one", None, 10).unwrap();
    catalog.create_table("db_one", "weather", &vec!["city".to_string()],
        &vec![("temp".to_string(), FieldDataType::Float)], 20).unwrap();
    catalog.create_admin_token(false, 30, 300).unwrap();
    catalog.set_generation_duration(1, 60_000_000_000, 40).unwrap();

    let snapshot = catalog.snapshot();
    let mut restored = Catalog::new_empty("other".to_string(),
        CatalogUuid { hi: 0, lo: 0 });
    restored.update_from_snapshot(snapshot);

    assert_eq!(restored.sequence_number().get(), catalog.sequence_number().get());
    assert_eq!(restored.catalog_id(), catalog.catalog_id());
    assert_eq!(restored.catalog_uuid(), catalog.catalog_uuid());
    assert_eq!(restored.db_names(), catalog.db_names());
    assert_eq!(restored.list_generation_durations(),
        catalog.list_generation_durations());
    let orig_table = catalog.db_schema("db_one").unwrap()
        .table_definition("weather").unwrap();
    let restored_table = restored.db_schema("db_one").unwrap()
        .table_definition("weather").unwrap();
    assert_eq!(restored_table.sort_key, orig_table.sort_key);
    let orig_token = catalog.inner.tokens.repo.get_by_name("_admin").unwrap();
    let restored_token = restored.inner.tokens.repo.get_by_name("_admin").unwrap();
    assert_eq!(restored_token.hash, orig_token.hash);
}

#[test]
fn create_database_errors() {
    let mut catalog = new_catalog();
    catalog.create_database("db", None, 0).unwrap();
    assert!(matches!(catalog.create_database("db", None, 1),
        Err(CatalogError::AlreadyExists)));

    assert!(matches!(catalog.soft_delete_database("missing",
        HardDeletionTime::Default, 2), Err(CatalogError::NotFound)));
}

#[test]
fn soft_delete_table_idempotent_for_default() {
    let mut catalog = new_catalog();
    catalog.create_database("db", None, 0).unwrap();
    catalog.create_table("db", "t", &vec!["tag1".to_string()],
        &vec![("f".to_string(), FieldDataType::Integer)], 1).unwrap();

    catalog.soft_delete_table("db", "t", HardDeletionTime::Timestamp(9_000_000_000), 2)
        .unwrap();
    let db = catalog.db_schema("db").unwrap();
    let table = db.table_definition_by_id(TableId(0)).unwrap();
    assert!(table.deleted);
    assert_eq!(table.hard_delete_time, Some(9_000_000_000));

    let renamed = table.table_name.clone();
    let result = catalog.soft_delete_table("db", renamed.as_str(),
        HardDeletionTime::Default, 3);
    assert!(matches!(result, Err(CatalogError::AlreadyDeleted)));
    let table = catalog.db_schema("db").unwrap()
        .table_definition_by_id(TableId(0)).unwrap();
    assert_eq!(table.hard_delete_time, Some(9_000_000_000));
}

#[test]
fn delete_operator_token_is_refused() {
    let mut catalog = new_catalog();
    catalog.create_admin_token(false, 0, 1).unwrap();
    assert!(matches!(catalog.delete_token("_admin", 2),
        Err(CatalogError::CannotDeleteOperatorToken)));
    assert!(matches!(catalog.delete_token("missing", 3), Err(CatalogError::NotFound)));

    let (_tok, _b) = catalog
        .create_named_admin_token_with_permission("ops", Some(9999), 4, 5).unwrap();
    catalog.delete_token("ops", 6).unwrap();
    assert!(catalog.inner.tokens.repo.get_by_name("ops").is_none());
}

#[test]
fn checkpoint_covers_log() {
    // build a catalog, checkpoint it mid-way, go on writing, and restart
    // from the checkpoint plus the log records past it
    let mut online = new_catalog();
    online.create_database("test_db", None, 0).unwrap();
    let mut tail = Vec::new();
    for t in 0..10u64 {
        let name = format!("table{}", t);
        let batch = online.create_table("test_db", name.as_str(),
            &vec!["tag1".to_string()],
            &vec![("f".to_string(), FieldDataType::Integer)], t as i64).unwrap();
        if t >= 5 {
            tail.push(batch);
        }
    }
    // the checkpoint taken after the first five tables, with the log
    // records past it, reaches the final state
    let mut checkpointed = new_catalog();
    checkpointed.create_database("test_db", None, 0).unwrap();
    for t in 0..5u64 {
        let name = format!("table{}", t);
        checkpointed.create_table("test_db", name.as_str(),
            &vec!["tag1".to_string()],
            &vec![("f".to_string(), FieldDataType::Integer)], t as i64).unwrap();
    }
    let snapshot = checkpointed.snapshot();
    let mut restarted = Catalog::new_empty("x".to_string(), test_uuid());
    restarted.update_from_snapshot(snapshot);
    restarted.replay(&tail).unwrap();

    assert_eq!(restarted.sequence_number().get(), online.sequence_number().get());
    let db = restarted.db_schema("test_db").unwrap();
    assert_eq!(db.table_count(), 10);
    for t in 0..10u64 {
        let name = format!("table{}", t);
        assert!(db.table_definition(name.as_str()).is_some());
    }
}

#[test]
fn trigger_counts_by_kind() {
    let mut db = DatabaseSchema::new(DbId(0), "db".to_string());
    let specs = vec![
        TriggerSpecificationDefinition::SingleTableWalWrite { table_name: "t".to_string() },
        TriggerSpecificationDefinition::AllTablesWalWrite,
        TriggerSpecificationDefinition::Schedule { schedule: "daily".to_string() },
        TriggerSpecificationDefinition::Every { duration_secs: 60 },
        TriggerSpecificationDefinition::RequestPath { path: "/hook".to_string() },
    ];
    for (i, spec) in specs.into_iter().enumerate() {
        let name = format!("trig{}", i);
        db.processing_engine_triggers.insert(i as u64, name.clone(), TriggerDefinition {
            trigger_id: influxdb3_core::types::TriggerId(i as u64),
            trigger_name: name,
            plugin_filename: "plugin.py".to_string(),
            database_name: "db".to_string(),
            trigger: spec,
            disabled: false,
        }).unwrap();
    }
    // the two schedule kinds count together
    assert_eq!(db.trigger_count_by_type(), (1, 1, 2, 1));

    let mut catalog = new_catalog();
    catalog.inner.databases.insert(0, "db".to_string(), db).unwrap();
    assert_eq!(catalog.num_triggers(), (1, 1, 2, 1));
    assert_eq!(catalog.table_count(), 0);
}

#[test]
fn tokens_are_listed_and_found_by_hash() {
    let mut catalog = new_catalog();
    let (token, _b) = catalog.create_admin_token(false, 0, 1).unwrap();
    catalog.create_named_admin_token_with_permission("ops", None, 2, 3).unwrap();

    let tokens = catalog.get_tokens();
    assert_eq!(tokens.len(), 2);
    assert_eq!(tokens[0].name.as_str(), "_admin");
    assert_eq!(tokens[1].name.as_str(), "ops");

    let hash: Vec<u8> = <sha2::Sha512 as sha2::Digest>::digest(token.as_bytes()).to_vec();
    let found = catalog.get_token(&hash).unwrap();
    assert_eq!(found.name.as_str(), "_admin");
    assert!(catalog.get_token(&vec![0u8; 64]).is_none());
}

#[test]
fn http_status_mapping() {
    assert_eq!(CatalogError::NotFound.http_status(), 404);
    assert_eq!(CatalogError::AlreadyExists.http_status(), 409);
    assert_eq!(CatalogError::AlreadyDeleted.http_status(), 409);
    assert_eq!(CatalogError::TokenNameAlreadyExists("x".to_string()).http_status(), 409);
    assert_eq!(CatalogError::TooManyTagColumns.http_status(), 422);
    assert_eq!(CatalogError::TooManyDbs(1).http_status(), 422);
    assert_eq!(CatalogError::InvalidConfiguration.http_status(), 400);
    assert_eq!(CatalogError::CannotDeleteOperatorToken.http_status(), 405);
    assert_eq!(CatalogError::CannotDeleteInternalDatabase.http_status(), 500);
}

#[test]
fn catalog_state_shutdown() {
    let mut catalog = new_catalog();
    assert!(!CatalogState::Active.is_shutdown());
    assert!(CatalogState::Shutdown.is_shutdown());
    catalog.set_state_shutdown();
    assert!(catalog.state.is_shutdown());
}

#[test]
fn node_registration_keeps_instance_id() {
    let mut catalog = InnerCatalog::new("c".to_string(), test_uuid());
    let register = NodeBatch {
        time_ns: 0,
        node_catalog_id: NodeId(0),
        node_id: "node-a".to_string(),
        ops: vec![NodeCatalogOp::RegisterNode(RegisterNodeLog {
            node_id: "node-a".to_string(),
            instance_id: "uuid-1".to_string(),
            registered_time_ns: 5,
            core_count: 4,
            mode: vec![NodeMode::Core],
        })],
    };
    assert!(catalog.apply_node_batch(&register).unwrap());
    assert!(catalog.nodes.get_by_name("node-a").unwrap().is_running());

    // re-registration with a different instance id is refused
    let reregister = NodeBatch {
        time_ns: 1,
        node_catalog_id: NodeId(0),
        node_id: "node-a".to_string(),
        ops: vec![NodeCatalogOp::RegisterNode(RegisterNodeLog {
            node_id: "node-a".to_string(),
            instance_id: "uuid-2".to_string(),
            registered_time_ns: 6,
            core_count: 4,
            mode: vec![NodeMode::Core],
        })],
    };
    assert!(matches!(catalog.apply_node_batch(&reregister),
        Err(CatalogError::InvalidNodeRegistration)));
}

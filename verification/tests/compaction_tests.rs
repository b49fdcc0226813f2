//! Tests of the compaction planner and the persisted-files index.

use influxdb3_core::catalog::CatalogUuid;
use influxdb3_core::catalog_api::Catalog;
use influxdb3_core::compaction::{calculate_chunk_time_for_generation,
    calculate_time_range_from_batch, can_compact_to_generation, complete_compaction_job,
    get_file_generation, get_next_generation, identify_compaction_jobs,
    identify_jobs_for_table, validate_compacted_data, validate_job_sort_key,
    CompactionConfig, CompactionError, CompactionJob};
use influxdb3_core::files::{ParquetFile, PersistedFiles};
use influxdb3_core::log::FieldDataType;
use influxdb3_core::types::{DbId, ParquetFileId, TableId};

fn file(id: u64, path: &str, min_time: i64, max_time: i64) -> ParquetFile {
    ParquetFile {
        id: ParquetFileId(id),
        path: path.to_string(),
        size_bytes: 100,
        row_count: 10,
        chunk_time: min_time,
        min_time,
        max_time,
    }
}

#[test]
fn test_compaction_config_default() {
    let config = CompactionConfig::default();
    assert!(config.enabled);
    assert_eq!(config.interval_secs, 3600);
    assert_eq!(config.max_files_per_run, 100);
    assert_eq!(config.min_files_for_compaction, 10);
}

#[test]
fn test_get_next_generation() {
    let config = CompactionConfig::default();
    assert_eq!(config.max_files_per_run, 100);
    assert_eq!(config.min_files_for_compaction, 10);
    assert_eq!(get_next_generation(1), Some(2));
    assert_eq!(get_next_generation(4), Some(5));
    assert_eq!(get_next_generation(5), None);
}

#[test]
fn file_generation_parsed_from_path() {
    assert_eq!(
        get_file_generation("dbs/test-1/test-1/gen1/2023-01-01/00-00/0.parquet"),
        Ok(1)
    );
    assert_eq!(
        get_file_generation("dbs/test-1/test-1/gen3/2023-01-01/00-00/0.parquet"),
        Ok(3)
    );
    // a path without a generation marker belongs to the first generation
    assert_eq!(get_file_generation("dbs/test-1/test-1/2023-01-01/0.parquet"), Ok(1));
    // a level above the coarsest is refused
    assert_eq!(
        get_file_generation("dbs/test-1/test-1/gen6/2023-01-01/00-00/0.parquet"),
        Err(CompactionError::InvalidGeneration)
    );
    // a marker without digits is refused
    assert_eq!(
        get_file_generation("dbs/test-1/test-1/gen/2023-01-01/00-00/0.parquet"),
        Err(CompactionError::InvalidGeneration)
    );
}

#[test]
fn span_decides_compaction() {
    let files = vec![
        file(1, "a", 10_000_000_000, 20_000_000_000),
        file(2, "b", 30_000_000_000, 40_000_000_000),
    ];
    // two files spanning 30 s reach a 20 s target but not a 60 s one
    assert!(can_compact_to_generation(&files, 2, 20_000_000_000));
    assert!(!can_compact_to_generation(&files, 2, 60_000_000_000));
    // too few files never compact
    assert!(!can_compact_to_generation(&files, 3, 20_000_000_000));
}

#[test]
fn time_range_requires_sorted_column() {
    assert_eq!(calculate_time_range_from_batch(&vec![]), Ok((0, 0)));
    // the rewrite hands the column over non-decreasing
    assert_eq!(calculate_time_range_from_batch(&vec![10, 20, 30, 40, 130]),
        Ok((10, 130)));
    assert_eq!(calculate_time_range_from_batch(&vec![10, 30, 20, 40, 130]),
        Err(CompactionError::TimeColumnNotSorted));
    assert_eq!(calculate_time_range_from_batch(&vec![10, 5, 20]),
        Err(CompactionError::TimeColumnNotSorted));
}

#[test]
fn chunk_time_rounds_to_duration() {
    // 130 s rounds down to the 120 s boundary of a two-minute bucket
    assert_eq!(
        calculate_chunk_time_for_generation(130_000_000_000, 120_000_000_000, 777),
        120_000_000_000
    );
    // a batch starting at the epoch falls back to the current time
    assert_eq!(calculate_chunk_time_for_generation(0, 120_000_000_000, 777), 777);
    // an unusable duration keeps the minimum
    assert_eq!(calculate_chunk_time_for_generation(50, 0, 777), 50);
    // instants before the epoch round towards minus infinity
    assert_eq!(calculate_chunk_time_for_generation(-10, 60, 777), -60);
    assert_eq!(calculate_chunk_time_for_generation(-60, 60, 777), -60);
    assert_eq!(calculate_chunk_time_for_generation(-61, 60, 777), -120);
}

#[test]
fn compacted_outputs_must_be_ordered() {
    let ordered = vec![file(1, "a", 10, 20), file(2, "b", 15, 40)];
    assert!(validate_compacted_data(&ordered).is_ok());
    let unordered = vec![file(1, "a", 15, 40), file(2, "b", 10, 20)];
    assert_eq!(validate_compacted_data(&unordered),
        Err(CompactionError::OutputsNotOrdered));
}

#[test]
fn empty_sort_key_rejects_job() {
    let job = CompactionJob {
        database_id: DbId(0),
        table_id: TableId(0),
        table_name: "t".to_string(),
        source_generation: 1,
        target_generation: 2,
        files: vec![],
        sort_key: vec![],
    };
    assert_eq!(validate_job_sort_key(&job), Err(CompactionError::EmptySortKey));
    let job_with_key = CompactionJob { sort_key: vec!["time".to_string()], ..job };
    assert!(validate_job_sort_key(&job_with_key).is_ok());
}

#[test]
fn planner_promotes_first_generation() {
    // five unsorted writes at seconds 10, 30, 20, 40 and 130, persisted at
    // the first generation; with a one-minute first and two-minute second
    // generation, exactly one job from the first to the second comes out
    let mut config = CompactionConfig::default();
    config.min_files_for_compaction = 1;
    config.generation_durations = vec![(1, 60_000_000_000), (2, 120_000_000_000)];

    let files = vec![
        file(1, "dbs/t-0/t-0/gen1/1970-01-01/00-00/0.parquet", 10_000_000_000,
            10_000_000_000),
        file(2, "dbs/t-0/t-0/gen1/1970-01-01/00-00/1.parquet", 30_000_000_000,
            30_000_000_000),
        file(3, "dbs/t-0/t-0/gen1/1970-01-01/00-00/2.parquet", 20_000_000_000,
            20_000_000_000),
        file(4, "dbs/t-0/t-0/gen1/1970-01-01/00-00/3.parquet", 40_000_000_000,
            40_000_000_000),
        file(5, "dbs/t-0/t-0/gen1/1970-01-01/00-02/4.parquet", 130_000_000_000,
            130_000_000_000),
    ];

    let jobs = identify_jobs_for_table(&config, DbId(0), TableId(0), &"t".to_string(),
        &vec!["time".to_string()], &files);
    assert_eq!(jobs.len(), 1);
    assert_eq!(jobs[0].source_generation, 1);
    assert_eq!(jobs[0].target_generation, 2);
    assert_eq!(jobs[0].files.len(), 5);
    assert_eq!(jobs[0].database_id, DbId(0));
    assert_eq!(jobs[0].table_id, TableId(0));
}

#[test]
fn planner_walks_catalog_and_completion_swaps_files() {
    let mut catalog = Catalog::new_empty("c".to_string(), CatalogUuid { hi: 1, lo: 2 });
    catalog.create_database("db", None, 0).unwrap();
    catalog.create_table("db", "t", &vec!["tag1".to_string()],
        &vec![("value".to_string(), FieldDataType::Float)], 1).unwrap();

    let mut config = CompactionConfig::default();
    config.min_files_for_compaction = 1;
    config.generation_durations = vec![(1, 60_000_000_000), (2, 120_000_000_000)];

    let mut index = PersistedFiles::new();
    index.add_files(DbId(0), TableId(0), vec![
        file(1, "dbs/t-0/t-0/gen1/1970-01-01/00-00/0.parquet", 10_000_000_000,
            40_000_000_000),
        file(2, "dbs/t-0/t-0/gen1/1970-01-01/00-02/1.parquet", 130_000_000_000,
            130_000_000_000),
    ]).unwrap();

    let jobs = identify_compaction_jobs(&catalog, &config, &index);
    assert_eq!(jobs.len(), 1);
    let job = &jobs[0];
    assert_eq!(job.source_generation, 1);
    assert_eq!(job.target_generation, 2);
    assert_eq!(job.table_name.as_str(), "t");
    assert_eq!(job.sort_key, vec!["tag1".to_string(), "time".to_string()]);

    // completing the job swaps the inputs for the rewritten output
    let output = file(7, "dbs/t-0/t-0/gen2/1970-01-01/00-00/0.parquet",
        10_000_000_000, 130_000_000_000);
    let result = complete_compaction_job(&mut index, job, vec![output]).unwrap();
    assert_eq!(result.compacted_files.len(), 1);
    assert_eq!(result.deleted_files.len(), 2);
    assert_eq!(result.total_rows_compacted, 10);

    let after = index.get_files(DbId(0), TableId(0));
    assert_eq!(after.len(), 1);
    assert_eq!(after[0].id, ParquetFileId(7));
    assert_eq!(after[0].min_time, 10_000_000_000);
    assert_eq!(after[0].max_time, 130_000_000_000);
}

#[test]
fn index_refuses_unordered_ranges_and_doubled_ids() {
    let mut index = PersistedFiles::new();
    // an unordered range is refused
    let bad = ParquetFile { min_time: 10, max_time: 5, ..file(1, "a", 0, 0) };
    assert!(index.add_files(DbId(0), TableId(0), vec![bad]).is_err());
    // a doubled id is refused
    index.add_files(DbId(0), TableId(0), vec![file(1, "a", 0, 5)]).unwrap();
    assert!(index.add_files(DbId(0), TableId(0), vec![file(1, "b", 6, 9)]).is_err());
    // distinct tables do not collide
    index.add_files(DbId(0), TableId(1), vec![file(1, "c", 0, 5)]).unwrap();
    assert_eq!(index.get_files(DbId(0), TableId(0)).len(), 1);
    assert_eq!(index.get_files(DbId(0), TableId(1)).len(), 1);
}

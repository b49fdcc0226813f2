//! Plain identifier and schema types shared across the catalog.

use vstd::prelude::*;

verus! {

/// Identifier of a database in the catalog.
#[derive(Debug, Clone, Copy, PartialEq, Eq, Structural)]
pub struct DbId(pub u64);

/// Identifier of a table within the catalog.
#[derive(Debug, Clone, Copy, PartialEq, Eq, Structural)]
pub struct TableId(pub u64);

/// Identifier of a column within a table.
#[derive(Debug, Clone, Copy, PartialEq, Eq, Structural)]
pub struct ColumnId(pub u64);

/// Identifier of a node in the catalog.
#[derive(Debug, Clone, Copy, PartialEq, Eq, Structural)]
pub struct NodeId(pub u64);

/// Identifier of an authorization token.
#[derive(Debug, Clone, Copy, PartialEq, Eq, Structural)]
pub struct TokenId(pub u64);

/// Identifier of a processing-engine trigger.
#[derive(Debug, Clone, Copy, PartialEq, Eq, Structural)]
pub struct TriggerId(pub u64);

/// Identifier of a last-value cache.
#[derive(Debug, Clone, Copy, PartialEq, Eq, Structural)]
pub struct LastCacheId(pub u64);

/// Identifier of a distinct-value cache.
#[derive(Debug, Clone, Copy, PartialEq, Eq, Structural)]
pub struct DistinctCacheId(pub u64);

/// Identifier of a persisted Parquet file.
#[derive(Debug, Clone, Copy, PartialEq, Eq, Structural)]
pub struct ParquetFileId(pub u64);

/// The primitive type of a field column.
#[derive(Debug, Clone, Copy, PartialEq, Eq, Structural)]
pub enum InfluxFieldType {
    Float,
    Integer,
    UInteger,
    String,
    Boolean,
}

/// The Influx type of a column: a tag, a field of some primitive type, or
/// the timestamp.
#[derive(Debug, Clone, Copy, PartialEq, Eq, Structural)]
pub enum InfluxColumnType {
    Tag,
    Field(InfluxFieldType),
    Timestamp,
}

/// Retention period of a database, either indefinite or a duration in
/// nanoseconds.
#[derive(Debug, Clone, Copy, PartialEq, Eq, Structural)]
pub enum RetentionPeriod {
    Indefinite,
    Duration(u64),
}

/// The state of a node: registered and running, or gracefully stopped.
#[derive(Debug, Clone, Copy, PartialEq, Eq, Structural)]
pub enum NodeState {
    Running { registered_time_ns: i64 },
    Stopped { stopped_time_ns: i64 },
}

impl NodeState {
    pub fn is_shutdown(&self) -> (r: bool)
        ensures
            r == (self is Stopped),
    {
        match self {
            NodeState::Running { .. } => false,
            NodeState::Stopped { .. } => true,
        }
    }
}

/// When a soft-deleted entity is to be removed for good: never, right now,
/// after the configured default duration, or at a given time (nanoseconds
/// since the epoch). A timestamp lying in the past is normalized to now.
#[derive(Debug, Clone, Copy, PartialEq, Eq, Structural)]
pub enum HardDeletionTime {
    Never,
    Now,
    Default,
    Timestamp(i64),
}

/// Deletion status of a database or table: soft deleted, hard-delete time
/// reached (with the nanoseconds elapsed since), or absent altogether.
#[derive(Debug, Clone, Copy, PartialEq, Eq, Structural)]
pub enum DeletionStatus {
    Soft,
    Hard(u64),
    NotFound,
}

} // verus!

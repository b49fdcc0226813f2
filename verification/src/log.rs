//! Catalog batches: the smallest units of catalog mutation, applied
//! atomically and totally ordered by sequence number.

use vstd::prelude::*;

use crate::CatalogSequenceNumber;
use crate::types::{ColumnId, DbId, DistinctCacheId, LastCacheId, NodeId, RetentionPeriod,
    TableId, TokenId, TriggerId, InfluxColumnType, InfluxFieldType};

verus! {

/// The mode a node is operating in.
#[derive(Debug, Clone, Copy, PartialEq, Eq, Structural)]
pub enum NodeMode {
    Core,
    Ingest,
    Query,
    Compact,
    Process,
}

pub struct RegisterNodeLog {
    pub node_id: String,
    pub instance_id: String,
    pub registered_time_ns: i64,
    pub core_count: u64,
    pub mode: Vec<NodeMode>,
}

pub struct StopNodeLog {
    pub node_id: String,
    pub stopped_time_ns: i64,
}

pub enum NodeCatalogOp {
    RegisterNode(RegisterNodeLog),
    StopNode(StopNodeLog),
}

pub struct NodeBatch {
    pub time_ns: i64,
    pub node_catalog_id: NodeId,
    pub node_id: String,
    pub ops: Vec<NodeCatalogOp>,
}

pub struct CreateDatabaseLog {
    pub database_id: DbId,
    pub database_name: String,
    /// Retention period in nanoseconds, `None` for indefinite.
    pub retention_period: Option<u64>,
}

/// The data type a field is declared with in a log record.
#[derive(Debug, Clone, Copy, PartialEq, Eq, Structural)]
pub enum FieldDataType {
    String,
    Integer,
    UInteger,
    Float,
    Boolean,
    Timestamp,
    Tag,
}

impl FieldDataType {
    /// The column type that this declared data type gives a column.
    pub fn as_column_type(&self) -> (r: InfluxColumnType)
        ensures
            r == self.spec_column_type(),
    {
        match self {
            FieldDataType::String => InfluxColumnType::Field(InfluxFieldType::String),
            FieldDataType::Integer => InfluxColumnType::Field(InfluxFieldType::Integer),
            FieldDataType::UInteger => InfluxColumnType::Field(InfluxFieldType::UInteger),
            FieldDataType::Float => InfluxColumnType::Field(InfluxFieldType::Float),
            FieldDataType::Boolean => InfluxColumnType::Field(InfluxFieldType::Boolean),
            FieldDataType::Timestamp => InfluxColumnType::Timestamp,
            FieldDataType::Tag => InfluxColumnType::Tag,
        }
    }

    pub open spec fn spec_column_type(self) -> InfluxColumnType {
        match self {
            FieldDataType::String => InfluxColumnType::Field(InfluxFieldType::String),
            FieldDataType::Integer => InfluxColumnType::Field(InfluxFieldType::Integer),
            FieldDataType::UInteger => InfluxColumnType::Field(InfluxFieldType::UInteger),
            FieldDataType::Float => InfluxColumnType::Field(InfluxFieldType::Float),
            FieldDataType::Boolean => InfluxColumnType::Field(InfluxFieldType::Boolean),
            FieldDataType::Timestamp => InfluxColumnType::Timestamp,
            FieldDataType::Tag => InfluxColumnType::Tag,
        }
    }
}

pub struct FieldDefinition {
    pub name: String,
    pub id: ColumnId,
    pub data_type: FieldDataType,
}

pub struct CreateTableLog {
    pub database_id: DbId,
    pub database_name: String,
    pub table_id: TableId,
    pub table_name: String,
    pub field_definitions: Vec<FieldDefinition>,
    /// The ordered tag columns forming the series key.
    pub key: Vec<ColumnId>,
}

pub struct AddFieldsLog {
    pub database_name: String,
    pub database_id: DbId,
    pub table_name: String,
    pub table_id: TableId,
    pub field_definitions: Vec<FieldDefinition>,
}

pub struct SoftDeleteDatabaseLog {
    pub database_id: DbId,
    pub database_name: String,
    pub deletion_time: i64,
    pub hard_deletion_time: Option<i64>,
}

pub struct SoftDeleteTableLog {
    pub database_id: DbId,
    pub database_name: String,
    pub table_id: TableId,
    pub table_name: String,
    pub deletion_time: i64,
    pub hard_deletion_time: Option<i64>,
}

pub struct SetRetentionPeriodLog {
    pub database_name: String,
    pub retention_period: RetentionPeriod,
}

pub struct ClearRetentionPeriodLog {
    pub database_name: String,
}

/// What fires a processing-engine trigger.
pub enum TriggerSpecificationDefinition {
    SingleTableWalWrite { table_name: String },
    AllTablesWalWrite,
    Schedule { schedule: String },
    Every { duration_secs: u64 },
    RequestPath { path: String },
}

pub struct TriggerDefinition {
    pub trigger_id: TriggerId,
    pub trigger_name: String,
    pub plugin_filename: String,
    pub database_name: String,
    pub trigger: TriggerSpecificationDefinition,
    pub disabled: bool,
}

pub struct DeleteTriggerLog {
    pub trigger_name: String,
    pub force: bool,
}

pub struct TriggerIdentifier {
    pub db_name: String,
    pub trigger_name: String,
}

pub struct LastCacheDefinition {
    pub table_id: TableId,
    pub table: String,
    pub id: LastCacheId,
    pub name: String,
    pub key_columns: Vec<ColumnId>,
    pub count: u64,
    pub ttl_secs: u64,
}

pub struct DeleteLastCacheLog {
    pub table_id: TableId,
    pub table_name: String,
    pub id: LastCacheId,
    pub name: String,
}

pub struct DistinctCacheDefinition {
    pub table_id: TableId,
    pub table_name: String,
    pub cache_id: DistinctCacheId,
    pub cache_name: String,
    pub column_ids: Vec<ColumnId>,
    pub max_cardinality: u64,
    pub max_age_seconds: u64,
}

pub struct DeleteDistinctCacheLog {
    pub table_id: TableId,
    pub table_name: String,
    pub cache_id: DistinctCacheId,
    pub cache_name: String,
}

pub enum DatabaseCatalogOp {
    CreateDatabase(CreateDatabaseLog),
    CreateTable(CreateTableLog),
    AddFields(AddFieldsLog),
    CreateDistinctCache(DistinctCacheDefinition),
    DeleteDistinctCache(DeleteDistinctCacheLog),
    CreateLastCache(LastCacheDefinition),
    DeleteLastCache(DeleteLastCacheLog),
    SoftDeleteDatabase(SoftDeleteDatabaseLog),
    SoftDeleteTable(SoftDeleteTableLog),
    CreateTrigger(TriggerDefinition),
    DeleteTrigger(DeleteTriggerLog),
    EnableTrigger(TriggerIdentifier),
    DisableTrigger(TriggerIdentifier),
    SetRetentionPeriod(SetRetentionPeriodLog),
    ClearRetentionPeriod(ClearRetentionPeriodLog),
}

pub struct DatabaseBatch {
    pub time_ns: i64,
    pub database_id: DbId,
    pub database_name: String,
    pub ops: Vec<DatabaseCatalogOp>,
}

/// The access bitmask of a scoped permission: read is 1, write 2, create 4,
/// and for tokens delete 8; or every action at once.
#[derive(Debug, Clone, Copy, PartialEq, Eq, Structural)]
pub enum Actions {
    Wildcard,
    Mask(u8),
}

#[derive(Debug, Clone, Copy, PartialEq, Eq, Structural)]
pub enum ResourceType {
    Database,
    Token,
    Wildcard,
}

pub enum ResourceIdentifier {
    Wildcard,
    Database(Vec<DbId>),
    Token(Vec<TokenId>),
}

pub struct Permission {
    pub resource_type: ResourceType,
    pub resource_identifier: ResourceIdentifier,
    pub actions: Actions,
}

pub struct CreateAdminTokenDetails {
    pub token_id: TokenId,
    pub name: String,
    pub hash: Vec<u8>,
    pub created_at: i64,
    pub updated_at: Option<i64>,
    pub expiry: Option<i64>,
}

pub struct CreateScopedTokenDetails {
    pub token_id: TokenId,
    pub name: String,
    pub hash: Vec<u8>,
    pub created_at: i64,
    pub updated_at: Option<i64>,
    pub expiry: Option<i64>,
    pub permissions: Vec<Permission>,
}

pub struct RegenerateAdminTokenDetails {
    pub token_id: TokenId,
    pub hash: Vec<u8>,
    pub updated_at: i64,
}

pub struct DeleteTokenDetails {
    pub token_name: String,
}

pub enum TokenCatalogOp {
    CreateAdminToken(CreateAdminTokenDetails),
    CreateScopedToken(CreateScopedTokenDetails),
    RegenerateAdminToken(RegenerateAdminTokenDetails),
    DeleteToken(DeleteTokenDetails),
}

pub struct TokenBatch {
    pub time_ns: i64,
    pub ops: Vec<TokenCatalogOp>,
}

pub enum DeleteOp {
    DeleteDatabase(DbId),
    DeleteTable(DbId, TableId),
}

pub struct DeleteBatch {
    pub time_ns: i64,
    pub ops: Vec<DeleteOp>,
}

pub struct SetGenerationDurationLog {
    pub level: u8,
    pub duration_ns: u64,
}

pub enum GenerationOp {
    SetGenerationDuration(SetGenerationDurationLog),
}

pub struct GenerationBatch {
    pub time_ns: i64,
    pub ops: Vec<GenerationOp>,
}

/// The smallest unit of catalog mutation.
pub enum CatalogBatch {
    Node(NodeBatch),
    Database(DatabaseBatch),
    Token(TokenBatch),
    Delete(DeleteBatch),
    Generation(GenerationBatch),
}

impl CatalogBatch {
    pub fn database(time_ns: i64, database_id: DbId, database_name: String,
        ops: Vec<DatabaseCatalogOp>) -> (r: Self)
        ensures
            r matches CatalogBatch::Database(b) && b.time_ns == time_ns
                && b.database_id == database_id && b.database_name == database_name
                && b.ops == ops,
    {
        CatalogBatch::Database(DatabaseBatch { time_ns, database_id, database_name, ops })
    }

    pub fn n_ops(&self) -> (r: usize)
        ensures
            r == self.spec_n_ops(),
    {
        match self {
            CatalogBatch::Node(b) => b.ops.len(),
            CatalogBatch::Database(b) => b.ops.len(),
            CatalogBatch::Token(b) => b.ops.len(),
            CatalogBatch::Delete(b) => b.ops.len(),
            CatalogBatch::Generation(b) => b.ops.len(),
        }
    }

    pub open spec fn spec_n_ops(self) -> nat {
        match self {
            CatalogBatch::Node(b) => b.ops@.len(),
            CatalogBatch::Database(b) => b.ops@.len(),
            CatalogBatch::Token(b) => b.ops@.len(),
            CatalogBatch::Delete(b) => b.ops@.len(),
            CatalogBatch::Generation(b) => b.ops@.len(),
        }
    }
}

/// A catalog batch stamped with the sequence number it will consume.
pub struct OrderedCatalogBatch {
    pub batch: CatalogBatch,
    pub sequence: CatalogSequenceNumber,
}

impl OrderedCatalogBatch {
    pub fn new(batch: CatalogBatch, sequence: CatalogSequenceNumber) -> (r: Self)
        ensures
            r.batch == batch,
            r.sequence == sequence,
    {
        OrderedCatalogBatch { batch, sequence }
    }

    pub fn sequence_number(&self) -> (r: CatalogSequenceNumber)
        ensures
            r == self.sequence,
    {
        self.sequence
    }

    pub fn batch(&self) -> (r: &CatalogBatch)
        ensures
            r == &self.batch,
    {
        &self.batch
    }

    pub fn into_batch(self) -> (r: CatalogBatch)
        ensures
            r == self.batch,
    {
        self.batch
    }
}

/// The answer of the permit path: go ahead with the stamped batch, or
/// recompose against current state and try again.
pub enum Prompt<S> {
    Success(S),
    Retry,
}

} // verus!

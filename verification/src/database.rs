//! Database schemas and the application of database catalog operations.

use vstd::prelude::*;

use crate::errors::CatalogError;
use crate::log::{DatabaseCatalogOp, DeleteDistinctCacheLog, DeleteLastCacheLog, DeleteTriggerLog,
    DistinctCacheDefinition, LastCacheDefinition, SoftDeleteDatabaseLog, SoftDeleteTableLog,
    TriggerDefinition, TriggerSpecificationDefinition};
use crate::repository::{RepoEntry, Repository};
use crate::table::TableDefinition;
use crate::textutil::str_eq;
use crate::types::{DbId, RetentionPeriod, TableId};

verus! {

/// The suffix that a soft deletion appends to an entity's name: the deletion
/// time rendered as `YYYYMMDDThhmmss` in UTC. Its exact characters are the
/// calendar rendering of the instant and are not modelled here.
pub uninterp spec fn soft_delete_suffix(deletion_time_ns: i64) -> Seq<char>;

/// Relies on chrono's `DateTime::<Utc>::from_timestamp_nanos` and `format`:
/// the rendering depends on the instant alone.
#[verifier::external_body]
fn format_soft_delete_suffix(deletion_time_ns: i64) -> (r: String)
    ensures
        r@ == soft_delete_suffix(deletion_time_ns),
{
    let dt = chrono::DateTime::<chrono::Utc>::from_timestamp_nanos(deletion_time_ns);
    dt.format("%Y%m%dT%H%M%S").to_string()
}

/// The name that a soft-deleted entity is renamed to: the old name, a
/// hyphen, and the deletion time.
pub open spec fn spec_deleted_name(name: Seq<char>, deletion_time_ns: i64) -> Seq<char> {
    name + seq!['-'] + soft_delete_suffix(deletion_time_ns)
}

/// Renames an entity for soft deletion using the deletion time.
pub fn make_new_name_using_deleted_time(name: &str, deletion_time_ns: i64) -> (r: String)
    ensures
        r@ == spec_deleted_name(name@, deletion_time_ns),
{
    let mut r = name.to_owned();
    r.append("-");
    let suffix = format_soft_delete_suffix(deletion_time_ns);
    r.append(suffix.as_str());
    proof {
        reveal_strlit("-");
        assert(r@ =~= name@ + seq!['-'] + soft_delete_suffix(deletion_time_ns));
    }
    r
}

/// Whether two trigger specifications are the same.
pub fn trigger_spec_eq(a: &TriggerSpecificationDefinition, b: &TriggerSpecificationDefinition)
    -> (r: bool)
    ensures
        r == spec_trigger_spec_eq(*a, *b),
{
    match (a, b) {
        (TriggerSpecificationDefinition::SingleTableWalWrite { table_name: ta },
            TriggerSpecificationDefinition::SingleTableWalWrite { table_name: tb })
            => str_eq(ta.as_str(), tb.as_str()),
        (TriggerSpecificationDefinition::AllTablesWalWrite,
            TriggerSpecificationDefinition::AllTablesWalWrite) => true,
        (TriggerSpecificationDefinition::Schedule { schedule: sa },
            TriggerSpecificationDefinition::Schedule { schedule: sb })
            => str_eq(sa.as_str(), sb.as_str()),
        (TriggerSpecificationDefinition::Every { duration_secs: da },
            TriggerSpecificationDefinition::Every { duration_secs: db }) => da == db,
        (TriggerSpecificationDefinition::RequestPath { path: pa },
            TriggerSpecificationDefinition::RequestPath { path: pb })
            => str_eq(pa.as_str(), pb.as_str()),
        _ => false,
    }
}

/// Two trigger specifications are the same when they fire on the same thing.
pub open spec fn spec_trigger_spec_eq(a: TriggerSpecificationDefinition,
    b: TriggerSpecificationDefinition) -> bool {
    match (a, b) {
        (TriggerSpecificationDefinition::SingleTableWalWrite { table_name: ta },
            TriggerSpecificationDefinition::SingleTableWalWrite { table_name: tb })
            => ta@ == tb@,
        (TriggerSpecificationDefinition::AllTablesWalWrite,
            TriggerSpecificationDefinition::AllTablesWalWrite) => true,
        (TriggerSpecificationDefinition::Schedule { schedule: sa },
            TriggerSpecificationDefinition::Schedule { schedule: sb }) => sa@ == sb@,
        (TriggerSpecificationDefinition::Every { duration_secs: da },
            TriggerSpecificationDefinition::Every { duration_secs: db }) => da == db,
        (TriggerSpecificationDefinition::RequestPath { path: pa },
            TriggerSpecificationDefinition::RequestPath { path: pb }) => pa@ == pb@,
        _ => false,
    }
}

/// Whether two trigger definitions agree in every part.
pub fn trigger_def_eq(a: &TriggerDefinition, b: &TriggerDefinition) -> (r: bool)
    ensures
        r == spec_trigger_def_eq(*a, *b),
{
    a.trigger_id.0 == b.trigger_id.0 && str_eq(a.trigger_name.as_str(), b.trigger_name.as_str())
        && str_eq(a.plugin_filename.as_str(), b.plugin_filename.as_str())
        && str_eq(a.database_name.as_str(), b.database_name.as_str())
        && trigger_spec_eq(&a.trigger, &b.trigger) && a.disabled == b.disabled
}

pub open spec fn spec_trigger_def_eq(a: TriggerDefinition, b: TriggerDefinition) -> bool {
    &&& a.trigger_id == b.trigger_id
    &&& a.trigger_name@ == b.trigger_name@
    &&& a.plugin_filename@ == b.plugin_filename@
    &&& a.database_name@ == b.database_name@
    &&& spec_trigger_spec_eq(a.trigger, b.trigger)
    &&& a.disabled == b.disabled
}

/// How many triggers of one kind the entries hold. The kinds stand in the
/// order of the counts a caller receives: single-table writes, all writes,
/// schedules, request paths.
pub open spec fn count_triggers_kind(s: Seq<RepoEntry<TriggerDefinition>>, kind: int) -> nat
    decreases s.len(),
{
    if s.len() == 0 {
        0
    } else {
        count_triggers_kind(s.drop_last(), kind) + if trigger_kind_index(s.last().res.trigger)
            == kind { 1nat } else { 0nat }
    }
}

/// Which count a trigger specification belongs to.
pub open spec fn trigger_kind_index(t: TriggerSpecificationDefinition) -> int {
    match t {
        TriggerSpecificationDefinition::SingleTableWalWrite { .. } => 0,
        TriggerSpecificationDefinition::AllTablesWalWrite => 1,
        TriggerSpecificationDefinition::Schedule { .. } => 2,
        TriggerSpecificationDefinition::Every { .. } => 2,
        TriggerSpecificationDefinition::RequestPath { .. } => 3,
    }
}

/// How many of the table entries are not soft deleted.
pub open spec fn count_active_tables(s: Seq<RepoEntry<TableDefinition>>) -> nat
    decreases s.len(),
{
    if s.len() == 0 {
        0
    } else {
        count_active_tables(s.drop_last()) + if s.last().res.deleted { 0nat } else { 1nat }
    }
}

/// After replacing the table entry at one position with a well-formed entry
/// that keeps its id and name consistent, every table entry is consistent
/// again.
proof fn lemma_tables_ok_after_update(old_db: DatabaseSchema, new_db: DatabaseSchema, k: int)
    requires
        old_db.wf(),
        0 <= k < old_db.tables.entries@.len(),
        new_db.tables.entries@.len() == old_db.tables.entries@.len(),
        forall|i: int|
            0 <= i < old_db.tables.entries@.len() && i != k
                ==> new_db.tables.entries@[i] == old_db.tables.entries@[i],
        ({
            let e = new_db.tables.entries@[k];
            e.id == e.res.table_id.0 && e.name@ == e.res.table_name@ && e.res.wf()
        }),
    ensures
        new_db.tables_ok(),
{
    assert forall|i: int| 0 <= i < new_db.tables.entries@.len() implies {
        let e = #[trigger] new_db.tables.entries@[i];
        e.id == e.res.table_id.0 && e.name@ == e.res.table_name@ && e.res.wf()
    } by {
        if i != k {
            assert(new_db.tables.entries@[i] == old_db.tables.entries@[i]);
            let e = old_db.tables.entries@[i];
            assert(e.id == e.res.table_id.0 && e.name@ == e.res.table_name@ && e.res.wf());
        }
    }
}

/// Definition of a database in the catalog.
pub struct DatabaseSchema {
    /// Unique identifier for the database.
    pub id: DbId,
    /// Unique user-provided name for the database.
    pub name: String,
    /// Tables contained in the database.
    pub tables: Repository<TableDefinition>,
    /// Retention period for the database.
    pub retention_period: RetentionPeriod,
    /// Processing engine triggers configured on the database.
    pub processing_engine_triggers: Repository<TriggerDefinition>,
    /// Whether this database has been flagged as deleted.
    pub deleted: bool,
    /// When the database is scheduled to be hard deleted (nanoseconds).
    pub hard_delete_time: Option<i64>,
}

impl DatabaseSchema {
    /// Every table entry associates the identifier and name the table itself
    /// carries, and every table is well formed.
    pub open spec fn tables_ok(self) -> bool {
        forall|i: int|
            0 <= i < self.tables.entries@.len() ==> {
                let e = #[trigger] self.tables.entries@[i];
                e.id == e.res.table_id.0 && e.name@ == e.res.table_name@ && e.res.wf()
            }
    }

    /// Every trigger entry associates the identifier and name the trigger
    /// itself carries.
    pub open spec fn triggers_ok(self) -> bool {
        forall|i: int|
            0 <= i < self.processing_engine_triggers.entries@.len() ==> {
                let e = #[trigger] self.processing_engine_triggers.entries@[i];
                e.id == e.res.trigger_id.0 && e.name@ == e.res.trigger_name@
            }
    }

    pub open spec fn wf(self) -> bool {
        &&& self.tables.wf()
        &&& self.tables_ok()
        &&& self.processing_engine_triggers.wf()
        &&& self.triggers_ok()
    }

    pub fn new(id: DbId, name: String) -> (r: Self)
        ensures
            r.wf(),
            r.id == id,
            r.name == name,
            r.tables.entries@.len() == 0,
            r.processing_engine_triggers.entries@.len() == 0,
            r.retention_period is Indefinite,
            !r.deleted,
            r.hard_delete_time is None,
    {
        DatabaseSchema {
            id,
            name,
            tables: Repository::new(),
            retention_period: RetentionPeriod::Indefinite,
            processing_engine_triggers: Repository::new(),
            deleted: false,
            hard_delete_time: None,
        }
    }

    pub fn name(&self) -> (r: String)
        ensures
            r == self.name,
    {
        self.name.clone()
    }

    /// How many tables of the database are not soft deleted.
    pub fn table_count(&self) -> (r: usize)
        ensures
            r == count_active_tables(self.tables.entries@),
    {
        let mut count: usize = 0;
        let mut i: usize = 0;
        while i < self.tables.entries.len()
            invariant
                i <= self.tables.entries@.len(),
                count == count_active_tables(self.tables.entries@.subrange(0, i as int)),
                count <= i,
            decreases self.tables.entries@.len() - i,
        {
            proof {
                assert(self.tables.entries@.subrange(0, (i + 1) as int).drop_last()
                    =~= self.tables.entries@.subrange(0, i as int));
            }
            if !self.tables.entries[i].res.deleted {
                count += 1;
            }
            i += 1;
        }
        proof {
            assert(self.tables.entries@.subrange(0, self.tables.entries@.len() as int)
                =~= self.tables.entries@);
        }
        count
    }

    pub fn table_definition(&self, table_name: &str) -> (r: Option<&TableDefinition>)
        requires
            self.wf(),
        ensures
            match r {
                Some(t) => self.tables.spec_contains_name(table_name@)
                    && t == &self.tables.entries@[self.tables.idx_of_name(table_name@)].res,
                None => !self.tables.spec_contains_name(table_name@),
            },
    {
        self.tables.get_by_name(table_name)
    }

    pub fn table_definition_by_id(&self, table_id: TableId) -> (r: Option<&TableDefinition>)
        requires
            self.wf(),
        ensures
            match r {
                Some(t) => self.tables.spec_contains_id(table_id.0)
                    && t == &self.tables.entries@[self.tables.idx_of_id(table_id.0)].res,
                None => !self.tables.spec_contains_id(table_id.0),
            },
    {
        self.tables.get_by_id(table_id.0)
    }

    pub fn table_exists(&self, table_id: TableId) -> (r: bool)
        requires
            self.wf(),
        ensures
            r == self.tables.spec_contains_id(table_id.0),
    {
        self.tables.contains_id(table_id.0)
    }

    pub fn table_name_to_id(&self, table_name: &str) -> (r: Option<TableId>)
        requires
            self.wf(),
        ensures
            match r {
                Some(id) => self.tables.spec_contains_name(table_name@)
                    && id.0 == self.tables.entries@[self.tables.idx_of_name(table_name@)].id,
                None => !self.tables.spec_contains_name(table_name@),
            },
    {
        match self.tables.name_to_id(table_name) {
            Some(id) => Some(TableId(id)),
            None => None,
        }
    }

    pub fn table_id_to_name(&self, table_id: TableId) -> (r: Option<String>)
        requires
            self.wf(),
        ensures
            match r {
                Some(name) => self.tables.spec_contains_id(table_id.0)
                    && name@ == self.tables.entries@[self.tables.idx_of_id(table_id.0)].name@,
                None => !self.tables.spec_contains_id(table_id.0),
            },
    {
        self.tables.id_to_name(table_id.0)
    }

    pub fn table_ids(&self) -> (r: Vec<TableId>)
        ensures
            r@.len() == self.tables.entries@.len(),
            forall|i: int| 0 <= i < r@.len() ==> r@[i].0 == self.tables.entries@[i].id,
    {
        let mut v: Vec<TableId> = Vec::new();
        let mut i: usize = 0;
        while i < self.tables.entries.len()
            invariant
                i <= self.tables.entries@.len(),
                v@.len() == i,
                forall|k: int| 0 <= k < i ==> v@[k].0 == self.tables.entries@[k].id,
            decreases self.tables.entries@.len() - i,
        {
            v.push(TableId(self.tables.entries[i].id));
            i += 1;
        }
        v
    }

    pub fn table_names(&self) -> (r: Vec<String>)
        ensures
            r@.len() == self.tables.entries@.len(),
            forall|i: int| 0 <= i < r@.len() ==> (#[trigger] r@[i])@
                == self.tables.entries@[i].res.table_name@,
    {
        let mut v: Vec<String> = Vec::new();
        let mut i: usize = 0;
        while i < self.tables.entries.len()
            invariant
                i <= self.tables.entries@.len(),
                v@.len() == i,
                forall|k: int| 0 <= k < i ==> (#[trigger] v@[k])@
                    == self.tables.entries@[k].res.table_name@,
            decreases self.tables.entries@.len() - i,
        {
            v.push(self.tables.entries[i].res.table_name.clone());
            i += 1;
        }
        v
    }

    /// How many triggers of each kind the database holds: ones firing on a
    /// single table's writes, on all writes, on a schedule, and on a
    /// request path, in that order.
    pub fn trigger_count_by_type(&self) -> (r: (u64, u64, u64, u64))
        ensures
            r.0 == count_triggers_kind(self.processing_engine_triggers.entries@, 0),
            r.1 == count_triggers_kind(self.processing_engine_triggers.entries@, 1),
            r.2 == count_triggers_kind(self.processing_engine_triggers.entries@, 2),
            r.3 == count_triggers_kind(self.processing_engine_triggers.entries@, 3),
    {
        let mut wal_count: u64 = 0;
        let mut all_wal_count: u64 = 0;
        let mut schedule_count: u64 = 0;
        let mut request_count: u64 = 0;
        let mut i: usize = 0;
        while i < self.processing_engine_triggers.entries.len()
            invariant
                i <= self.processing_engine_triggers.entries@.len(),
                wal_count == count_triggers_kind(
                    self.processing_engine_triggers.entries@.subrange(0, i as int), 0),
                all_wal_count == count_triggers_kind(
                    self.processing_engine_triggers.entries@.subrange(0, i as int), 1),
                schedule_count == count_triggers_kind(
                    self.processing_engine_triggers.entries@.subrange(0, i as int), 2),
                request_count == count_triggers_kind(
                    self.processing_engine_triggers.entries@.subrange(0, i as int), 3),
                wal_count <= i && all_wal_count <= i && schedule_count <= i
                    && request_count <= i,
            decreases self.processing_engine_triggers.entries@.len() - i,
        {
            proof {
                assert(self.processing_engine_triggers.entries@
                    .subrange(0, (i + 1) as int).drop_last()
                    =~= self.processing_engine_triggers.entries@.subrange(0, i as int));
            }
            match &self.processing_engine_triggers.entries[i].res.trigger {
                TriggerSpecificationDefinition::SingleTableWalWrite { .. } => {
                    wal_count += 1;
                },
                TriggerSpecificationDefinition::AllTablesWalWrite => {
                    all_wal_count += 1;
                },
                TriggerSpecificationDefinition::Schedule { .. } => {
                    schedule_count += 1;
                },
                TriggerSpecificationDefinition::Every { .. } => {
                    schedule_count += 1;
                },
                TriggerSpecificationDefinition::RequestPath { .. } => {
                    request_count += 1;
                },
            }
            i += 1;
        }
        proof {
            assert(self.processing_engine_triggers.entries@.subrange(0,
                self.processing_engine_triggers.entries@.len() as int)
                =~= self.processing_engine_triggers.entries@);
        }
        (wal_count, all_wal_count, schedule_count, request_count)
    }

    /// The oldest allowable timestamp for this database's tables under its
    /// retention period, in nanoseconds since the epoch, clamped at the
    /// representable minimum; `None` when retention is indefinite.
    pub fn get_retention_period_cutoff_ts_nanos(&self, now_ns: i64) -> (r: Option<i64>)
        ensures
            match self.retention_period {
                RetentionPeriod::Indefinite => r is None,
                RetentionPeriod::Duration(d) => r matches Some(c)
                    && c == crate::database::clamp_i64(now_ns - d),
            },
    {
        match self.retention_period {
            RetentionPeriod::Indefinite => None,
            RetentionPeriod::Duration(d) => {
                let wide: i128 = now_ns as i128 - d as i128;
                if wide < i64::MIN as i128 {
                    Some(i64::MIN)
                } else {
                    Some(wide as i64)
                }
            },
        }
    }
}

/// Schema objects that can be marked as deleted.
pub trait DeletedSchema: Sized {
    /// Whether the object is marked deleted.
    spec fn spec_deleted(&self) -> bool;

    /// Check if the schema is marked as deleted.
    fn is_deleted(&self) -> (r: bool)
        ensures
            r == self.spec_deleted(),
    ;
}

/// Filtering by deletion status: a deleted object filters itself out.
pub trait IfNotDeleted: DeletedSchema {
    /// `Some(self)` while the object is not deleted.
    fn if_not_deleted(self) -> (r: Option<Self>)
        ensures
            self.spec_deleted() ==> r is None,
            !self.spec_deleted() ==> r == Some(self),
    ;
}

impl DeletedSchema for DatabaseSchema {
    open spec fn spec_deleted(&self) -> bool {
        self.deleted
    }

    fn is_deleted(&self) -> (r: bool)
        ensures
            r == self.deleted,
    {
        self.deleted
    }
}

impl IfNotDeleted for DatabaseSchema {
    fn if_not_deleted(self) -> (r: Option<Self>)
        ensures
            self.deleted ==> r is None,
            !self.deleted ==> r == Some(self),
    {
        if self.deleted {
            None
        } else {
            Some(self)
        }
    }
}

impl DeletedSchema for TableDefinition {
    open spec fn spec_deleted(&self) -> bool {
        self.deleted
    }

    fn is_deleted(&self) -> (r: bool)
        ensures
            r == self.deleted,
    {
        self.deleted
    }
}

impl IfNotDeleted for TableDefinition {
    fn if_not_deleted(self) -> (r: Option<Self>)
        ensures
            self.deleted ==> r is None,
            !self.deleted ==> r == Some(self),
    {
        if self.deleted {
            None
        } else {
            Some(self)
        }
    }
}

/// A mathematical value clamped from below into the `i64` range. The values
/// that arise here never exceed `i64::MAX`.
pub open spec fn clamp_i64(v: int) -> int {
    if v < i64::MIN {
        i64::MIN as int
    } else {
        v
    }
}

impl DatabaseSchema {
    /// Applies one database catalog operation to this schema, leaving it
    /// untouched on failure. Returns whether anything changed.
    pub fn apply_op(&mut self, op: &DatabaseCatalogOp) -> (r: Result<bool, CatalogError>)
        requires
            old(self).wf(),
        ensures
            final(self).wf(),
            final(self).id == old(self).id,
            r matches Ok(false) ==> crate::eqv::db_eqv(*final(self), *old(self)),
            r matches Err(_) ==> crate::eqv::db_eqv(*final(self), *old(self)),
            r matches Err(e) ==> crate::errors::apply_error(e),
            (op is CreateDatabase && op->CreateDatabase_0.database_id == old(self).id)
                ==> (r == Ok::<bool, CatalogError>(true) && *final(self)
                    == (DatabaseSchema {
                        retention_period: match op->CreateDatabase_0.retention_period {
                            Some(d) => RetentionPeriod::Duration(d),
                            None => RetentionPeriod::Indefinite,
                        },
                        ..*old(self)
                    })),
            op is SetRetentionPeriod
                ==> (r == Ok::<bool, CatalogError>(true) && *final(self)
                    == (DatabaseSchema {
                        retention_period: op->SetRetentionPeriod_0.retention_period,
                        ..*old(self) })),
            op is ClearRetentionPeriod
                ==> (r == Ok::<bool, CatalogError>(true) && *final(self)
                    == (DatabaseSchema { retention_period: RetentionPeriod::Indefinite,
                        ..*old(self) })),
            op is SoftDeleteDatabase
                ==> (r == Ok::<bool, CatalogError>(true) && ({
                    let log = op->SoftDeleteDatabase_0;
                    &&& final(self).deleted
                    &&& final(self).hard_delete_time == log.hard_deletion_time
                    &&& final(self).tables == old(self).tables
                    &&& final(self).retention_period == old(self).retention_period
                    &&& final(self).processing_engine_triggers
                        == old(self).processing_engine_triggers
                    &&& (old(self).deleted ==> final(self).name == old(self).name)
                    &&& (!old(self).deleted ==> final(self).name@
                        == spec_deleted_name(log.database_name@, log.deletion_time))
                })),
            op is SoftDeleteTable ==> ({
                let log = op->SoftDeleteTable_0;
                &&& (r matches Err(e2) ==> e2 is AlreadyExists)
                &&& (r matches Ok(false) ==> !old(self).tables.spec_contains_id(
                    log.table_id.0))
                &&& (r matches Ok(true) ==> ({
                    let k = old(self).tables.idx_of_id(log.table_id.0);
                    let t_old = old(self).tables.entries@[k].res;
                    let t_new = final(self).tables.entries@[k].res;
                    &&& old(self).tables.spec_contains_id(log.table_id.0)
                    &&& final(self).tables.entries@.len() == old(self).tables.entries@.len()
                    &&& t_new.deleted
                    &&& t_new.hard_delete_time == log.hard_deletion_time
                    &&& (t_old.deleted ==> t_new.table_name == t_old.table_name)
                    &&& (!t_old.deleted ==> t_new.table_name@
                        == spec_deleted_name(log.table_name@, log.deletion_time))
                }))
            }),
    {
        proof {
            crate::eqv::lemma_db_eqv_refl(*self);
        }
        match op {
            DatabaseCatalogOp::CreateDatabase(log) => {
                if log.database_id.0 != self.id.0 {
                    return Err(CatalogError::InvalidConfiguration);
                }
                self.retention_period = match log.retention_period {
                    Some(d) => RetentionPeriod::Duration(d),
                    None => RetentionPeriod::Indefinite,
                };
                Ok(true)
            },
            DatabaseCatalogOp::CreateTable(log) => self.create_table_op(log),
            DatabaseCatalogOp::AddFields(log) => self.add_fields_op(log),
            DatabaseCatalogOp::CreateDistinctCache(d) => self.create_distinct_cache_op(d),
            DatabaseCatalogOp::DeleteDistinctCache(log) => self.delete_distinct_cache_op(log),
            DatabaseCatalogOp::CreateLastCache(d) => self.create_last_cache_op(d),
            DatabaseCatalogOp::DeleteLastCache(log) => self.delete_last_cache_op(log),
            DatabaseCatalogOp::SoftDeleteDatabase(log) => {
                self.apply_soft_delete_database(log);
                Ok(true)
            },
            DatabaseCatalogOp::SoftDeleteTable(log) => self.apply_soft_delete_table(log),
            DatabaseCatalogOp::CreateTrigger(d) => self.create_trigger_op(d),
            DatabaseCatalogOp::DeleteTrigger(log) => self.delete_trigger_op(log),
            DatabaseCatalogOp::EnableTrigger(ident) => self.enable_trigger_op(ident),
            DatabaseCatalogOp::DisableTrigger(ident) => self.disable_trigger_op(ident),
            DatabaseCatalogOp::SetRetentionPeriod(log) => {
                self.retention_period = log.retention_period;
                Ok(true)
            },
            DatabaseCatalogOp::ClearRetentionPeriod(_log) => {
                self.retention_period = RetentionPeriod::Indefinite;
                Ok(true)
            },
        }
    }

    fn create_table_op(&mut self, log: &crate::log::CreateTableLog) -> (r: Result<bool, CatalogError>)
        requires
            old(self).wf(),
        ensures
            final(self).wf(),
            final(self).id == old(self).id,
            r matches Ok(false) ==> crate::eqv::db_eqv(*final(self), *old(self)),
            r matches Err(_) ==> crate::eqv::db_eqv(*final(self), *old(self)),
            r matches Err(e) ==> crate::errors::apply_error(e),
    {
        proof {
            crate::eqv::lemma_db_eqv_refl(*self);
        }

                match self.tables.find_id(log.table_id.0) {
                    Some(k) => {
                        let mut entry = self.tables.take_at(k);
                        let outcome = entry.res.add_fields(&log.field_definitions);
                        let ghost entry_snap = entry;
                        self.tables.put_at(k, entry);
                        proof {
                            assert(self.tables.entries@
                                =~= old(self).tables.entries@.update(k as int, entry_snap));
                            lemma_tables_ok_after_update(*old(self), *self, k as int);
                        }
                        match outcome {
                            Ok(changed) => {
                                proof {
                                    if !changed {
                                        assert(self.tables.entries@
                                            =~= old(self).tables.entries@);
                                        crate::eqv::lemma_db_eqv_of_same_parts(
                                            *self, *old(self));
                                    }
                                }
                                Ok(changed)
                            },
                            Err(e) => {
                                proof {
                                    assert(self.tables.entries@
                                        =~= old(self).tables.entries@);
                                    crate::eqv::lemma_db_eqv_of_same_parts(*self, *old(self));
                                }
                                Err(e)
                            },
                        }
                    },
                    None => {
                        if log.table_id.0 == u64::MAX {
                            return Err(CatalogError::InvalidConfiguration);
                        }
                        let mut columns: Vec<(crate::types::ColumnId, String,
                            crate::types::InfluxColumnType)> = Vec::new();
                        let mut i: usize = 0;
                        while i < log.field_definitions.len()
                            invariant
                                i <= log.field_definitions@.len(),
                            decreases log.field_definitions@.len() - i,
                        {
                            let fd = &log.field_definitions[i];
                            columns.push((fd.id, fd.name.clone(), fd.data_type.as_column_type()));
                            i += 1;
                        }
                        let table = TableDefinition::new(log.table_id,
                            log.table_name.clone(), columns, copy_column_ids(&log.key))?;
                        match self.tables.insert(log.table_id.0, log.table_name.clone(), table) {
                            Ok(()) => {},
                            Err(e) => {
                                return Err(e);
                            },
                        }
                        proof {
                            let n = self.tables.entries@.len() - 1;
                            assert(forall|i: int|
                                0 <= i < n ==> #[trigger] self.tables.entries@[i]
                                    == self.tables.entries@.drop_last()[i]);
                            assert(self.tables.entries@[n].res == table);
                            assert forall|i: int| 0 <= i < self.tables.entries@.len() implies {
                                let e = #[trigger] self.tables.entries@[i];
                                e.id == e.res.table_id.0 && e.name@ == e.res.table_name@
                                    && e.res.wf()
                            } by {
                                if i < n {
                                    assert(self.tables.entries@[i]
                                        == old(self).tables.entries@[i]);
                                    let e = old(self).tables.entries@[i];
                                    assert(e.id == e.res.table_id.0
                                        && e.name@ == e.res.table_name@ && e.res.wf());
                                }
                            }
                        }
                        Ok(true)
                    },
                }
    }

    fn add_fields_op(&mut self, log: &crate::log::AddFieldsLog) -> (r: Result<bool, CatalogError>)
        requires
            old(self).wf(),
        ensures
            final(self).wf(),
            final(self).id == old(self).id,
            r matches Ok(false) ==> crate::eqv::db_eqv(*final(self), *old(self)),
            r matches Err(_) ==> crate::eqv::db_eqv(*final(self), *old(self)),
            r matches Err(e) ==> crate::errors::apply_error(e),
    {
        proof {
            crate::eqv::lemma_db_eqv_refl(*self);
        }

                let k = match self.tables.find_id(log.table_id.0) {
                    Some(k) => k,
                    None => {
                        return Err(CatalogError::TableNotFound {
                            db_name: self.name.clone(),
                            table_name: log.table_name.clone(),
                        });
                    },
                };
                let mut entry = self.tables.take_at(k);
                let outcome = entry.res.add_fields(&log.field_definitions);
                let ghost entry_snap = entry;
                self.tables.put_at(k, entry);
                proof {
                    assert(self.tables.entries@
                        =~= old(self).tables.entries@.update(k as int, entry_snap));
                    lemma_tables_ok_after_update(*old(self), *self, k as int);
                }
                match outcome {
                    Ok(changed) => {
                        proof {
                            if !changed {
                                assert(self.tables.entries@
                                    =~= old(self).tables.entries@);
                                crate::eqv::lemma_db_eqv_of_same_parts(*self, *old(self));
                            }
                        }
                        Ok(changed)
                    },
                    Err(e) => {
                        proof {
                            assert(self.tables.entries@ =~= old(self).tables.entries@);
                            crate::eqv::lemma_db_eqv_of_same_parts(*self, *old(self));
                        }
                        Err(e)
                    },
                }
    }

    fn create_distinct_cache_op(&mut self, d: &DistinctCacheDefinition) -> (r: Result<bool, CatalogError>)
        requires
            old(self).wf(),
        ensures
            final(self).wf(),
            final(self).id == old(self).id,
            r matches Ok(false) ==> crate::eqv::db_eqv(*final(self), *old(self)),
            r matches Err(_) ==> crate::eqv::db_eqv(*final(self), *old(self)),
            r matches Err(e) ==> crate::errors::apply_error(e),
    {
        proof {
            crate::eqv::lemma_db_eqv_refl(*self);
        }

                let k = match self.tables.find_id(d.table_id.0) {
                    Some(k) => k,
                    None => {
                        return Err(CatalogError::TableNotFound {
                            db_name: self.name.clone(),
                            table_name: d.table_name.clone(),
                        });
                    },
                };
                if d.cache_id.0 == u64::MAX {
                    return Err(CatalogError::InvalidConfiguration);
                }
                let mut entry = self.tables.take_at(k);
                let dup = DistinctCacheDefinition {
                    table_id: d.table_id,
                    table_name: d.table_name.clone(),
                    cache_id: d.cache_id,
                    cache_name: d.cache_name.clone(),
                    column_ids: copy_column_ids(&d.column_ids),
                    max_cardinality: d.max_cardinality,
                    max_age_seconds: d.max_age_seconds,
                };
                let outcome = entry.res.distinct_caches.insert(d.cache_id.0,
                    d.cache_name.clone(), dup);
                let ghost entry_snap = entry;
                self.tables.put_at(k, entry);
                proof {
                    assert(self.tables.entries@
                        =~= old(self).tables.entries@.update(k as int, entry_snap));
                    lemma_tables_ok_after_update(*old(self), *self, k as int);
                }
                match outcome {
                    Ok(()) => Ok(true),
                    Err(e) => {
                        proof {
                            assert(self.tables.entries@ =~= old(self).tables.entries@);
                            crate::eqv::lemma_db_eqv_of_same_parts(*self, *old(self));
                        }
                        Err(e)
                    },
                }
    }

    fn create_last_cache_op(&mut self, d: &LastCacheDefinition) -> (r: Result<bool, CatalogError>)
        requires
            old(self).wf(),
        ensures
            final(self).wf(),
            final(self).id == old(self).id,
            r matches Ok(false) ==> crate::eqv::db_eqv(*final(self), *old(self)),
            r matches Err(_) ==> crate::eqv::db_eqv(*final(self), *old(self)),
            r matches Err(e) ==> crate::errors::apply_error(e),
    {
        proof {
            crate::eqv::lemma_db_eqv_refl(*self);
        }

                let k = match self.tables.find_id(d.table_id.0) {
                    Some(k) => k,
                    None => {
                        return Err(CatalogError::TableNotFound {
                            db_name: self.name.clone(),
                            table_name: d.table.clone(),
                        });
                    },
                };
                if d.id.0 == u64::MAX {
                    return Err(CatalogError::InvalidConfiguration);
                }
                let mut entry = self.tables.take_at(k);
                let dup = LastCacheDefinition {
                    table_id: d.table_id,
                    table: d.table.clone(),
                    id: d.id,
                    name: d.name.clone(),
                    key_columns: copy_column_ids(&d.key_columns),
                    count: d.count,
                    ttl_secs: d.ttl_secs,
                };
                let outcome = entry.res.last_caches.insert(d.id.0, d.name.clone(), dup);
                let ghost entry_snap = entry;
                self.tables.put_at(k, entry);
                proof {
                    assert(self.tables.entries@
                        =~= old(self).tables.entries@.update(k as int, entry_snap));
                    lemma_tables_ok_after_update(*old(self), *self, k as int);
                }
                match outcome {
                    Ok(()) => Ok(true),
                    Err(e) => {
                        proof {
                            assert(self.tables.entries@ =~= old(self).tables.entries@);
                            crate::eqv::lemma_db_eqv_of_same_parts(*self, *old(self));
                        }
                        Err(e)
                    },
                }
    }

    fn create_trigger_op(&mut self, d: &TriggerDefinition) -> (r: Result<bool, CatalogError>)
        requires
            old(self).wf(),
        ensures
            final(self).wf(),
            final(self).id == old(self).id,
            r matches Ok(false) ==> crate::eqv::db_eqv(*final(self), *old(self)),
            r matches Err(_) ==> crate::eqv::db_eqv(*final(self), *old(self)),
            r matches Err(e) ==> crate::errors::apply_error(e),
    {
        proof {
            crate::eqv::lemma_db_eqv_refl(*self);
        }

                match self.processing_engine_triggers.get_by_name(d.trigger_name.as_str()) {
                    Some(current) => {
                        if trigger_def_eq(current, d) {
                            Ok(false)
                        } else {
                            Err(CatalogError::ProcessingEngineTriggerExists {
                                database_name: self.name.clone(),
                                trigger_name: d.trigger_name.clone(),
                            })
                        }
                    },
                    None => {
                        if d.trigger_id.0 == u64::MAX {
                            return Err(CatalogError::InvalidConfiguration);
                        }
                        let dup = TriggerDefinition {
                            trigger_id: d.trigger_id,
                            trigger_name: d.trigger_name.clone(),
                            plugin_filename: d.plugin_filename.clone(),
                            database_name: d.database_name.clone(),
                            trigger: dup_trigger_spec(&d.trigger),
                            disabled: d.disabled,
                        };
                        match self.processing_engine_triggers.insert(d.trigger_id.0,
                            d.trigger_name.clone(), dup) {
                            Ok(()) => {},
                            Err(e) => {
                                return Err(e);
                            },
                        }
                        proof {
                            let n = self.processing_engine_triggers.entries@.len() - 1;
                            assert(forall|i: int|
                                0 <= i < n ==> #[trigger] self.processing_engine_triggers
                                    .entries@[i] == self.processing_engine_triggers
                                    .entries@.drop_last()[i]);
                            assert(self.processing_engine_triggers.entries@[n].res == dup);
                            assert forall|i: int|
                                0 <= i < self.processing_engine_triggers.entries@.len() implies {
                                let e = #[trigger] self.processing_engine_triggers.entries@[i];
                                e.id == e.res.trigger_id.0 && e.name@ == e.res.trigger_name@
                            } by {
                                if i < n {
                                    let e0 = old(self).processing_engine_triggers.entries@[i];
                                    assert(e0.id == e0.res.trigger_id.0
                                        && e0.name@ == e0.res.trigger_name@);
                                }
                            }
                        }
                        Ok(true)
                    },
                }
    }

    fn enable_trigger_op(&mut self, ident: &crate::log::TriggerIdentifier) -> (r: Result<bool, CatalogError>)
        requires
            old(self).wf(),
        ensures
            final(self).wf(),
            final(self).id == old(self).id,
            r matches Ok(false) ==> crate::eqv::db_eqv(*final(self), *old(self)),
            r matches Err(_) ==> crate::eqv::db_eqv(*final(self), *old(self)),
            r matches Err(e) ==> crate::errors::apply_error(e),
    {
        proof {
            crate::eqv::lemma_db_eqv_refl(*self);
        }

                let k = match self.processing_engine_triggers.find_name(
                    ident.trigger_name.as_str()) {
                    Some(k) => k,
                    None => {
                        return Err(CatalogError::ProcessingEngineTriggerNotFound {
                            database_name: ident.db_name.clone(),
                            trigger_name: ident.trigger_name.clone(),
                        });
                    },
                };
                if !self.processing_engine_triggers.entries[k].res.disabled {
                    return Ok(false);
                }
                let mut res = dup_trigger_def(&self.processing_engine_triggers.entries[k].res);
                res.disabled = false;
                self.processing_engine_triggers.replace_res_at(k, res);
                proof {
                    assert forall|i: int|
                        0 <= i < self.processing_engine_triggers.entries@.len() implies {
                        let e = #[trigger] self.processing_engine_triggers.entries@[i];
                        e.id == e.res.trigger_id.0 && e.name@ == e.res.trigger_name@
                    } by {
                        let e0 = old(self).processing_engine_triggers.entries@[i];
                        assert(e0.id == e0.res.trigger_id.0 && e0.name@ == e0.res.trigger_name@);
                    }
                }
                Ok(true)
    }

    fn disable_trigger_op(&mut self, ident: &crate::log::TriggerIdentifier) -> (r: Result<bool, CatalogError>)
        requires
            old(self).wf(),
        ensures
            final(self).wf(),
            final(self).id == old(self).id,
            r matches Ok(false) ==> crate::eqv::db_eqv(*final(self), *old(self)),
            r matches Err(_) ==> crate::eqv::db_eqv(*final(self), *old(self)),
            r matches Err(e) ==> crate::errors::apply_error(e),
    {
        proof {
            crate::eqv::lemma_db_eqv_refl(*self);
        }

                let k = match self.processing_engine_triggers.find_name(
                    ident.trigger_name.as_str()) {
                    Some(k) => k,
                    None => {
                        return Err(CatalogError::ProcessingEngineTriggerNotFound {
                            database_name: ident.db_name.clone(),
                            trigger_name: ident.trigger_name.clone(),
                        });
                    },
                };
                if self.processing_engine_triggers.entries[k].res.disabled {
                    return Ok(false);
                }
                let mut res = dup_trigger_def(&self.processing_engine_triggers.entries[k].res);
                res.disabled = true;
                self.processing_engine_triggers.replace_res_at(k, res);
                proof {
                    assert forall|i: int|
                        0 <= i < self.processing_engine_triggers.entries@.len() implies {
                        let e = #[trigger] self.processing_engine_triggers.entries@[i];
                        e.id == e.res.trigger_id.0 && e.name@ == e.res.trigger_name@
                    } by {
                        let e0 = old(self).processing_engine_triggers.entries@[i];
                        assert(e0.id == e0.res.trigger_id.0 && e0.name@ == e0.res.trigger_name@);
                    }
                }
                Ok(true)
    }

    /// Marks this database soft deleted: renames it with the deletion time
    /// when it was not yet deleted, and always adopts the scheduled
    /// hard-delete time of the log record.
    pub fn apply_soft_delete_database(&mut self, log: &SoftDeleteDatabaseLog)
        requires
            old(self).wf(),
        ensures
            final(self).wf(),
            final(self).deleted,
            final(self).hard_delete_time == log.hard_deletion_time,
            final(self).id == old(self).id,
            final(self).tables == old(self).tables,
            final(self).retention_period == old(self).retention_period,
            final(self).processing_engine_triggers == old(self).processing_engine_triggers,
            old(self).deleted ==> final(self).name == old(self).name,
            !old(self).deleted ==> final(self).name@
                == spec_deleted_name(log.database_name@, log.deletion_time),
    {
        if !self.deleted {
            self.name = make_new_name_using_deleted_time(log.database_name.as_str(),
                log.deletion_time);
            self.deleted = true;
        }
        self.hard_delete_time = log.hard_deletion_time;
    }

    /// Soft deletes a table of this database: renames it with the deletion
    /// time when it was not yet deleted, and adopts the scheduled hard-delete
    /// time. A table that the database does not hold is left alone. Fails,
    /// changing nothing, when the deleted name is already taken.
    pub fn apply_soft_delete_table(&mut self, log: &SoftDeleteTableLog)
        -> (r: Result<bool, CatalogError>)
        requires
            old(self).wf(),
        ensures
            final(self).wf(),
            final(self).id == old(self).id,
            r matches Ok(false) ==> crate::eqv::db_eqv(*final(self), *old(self)),
            r matches Err(_) ==> crate::eqv::db_eqv(*final(self), *old(self)),
            r matches Err(e) ==> crate::errors::apply_error(e),
            r matches Err(e2) ==> e2 is AlreadyExists,
            r matches Err(_) ==> ({
                &&& old(self).tables.spec_contains_id(log.table_id.0)
                &&& !old(self).tables.entries@[
                    old(self).tables.idx_of_id(log.table_id.0)].res.deleted
                &&& old(self).tables.spec_contains_name(
                    spec_deleted_name(log.table_name@, log.deletion_time))
            }),
            r matches Ok(false) ==> !old(self).tables.spec_contains_id(log.table_id.0),
            r matches Ok(true) ==> old(self).tables.spec_contains_id(log.table_id.0),
            r matches Ok(true) ==> final(self).name == old(self).name
                && final(self).retention_period == old(self).retention_period
                && final(self).processing_engine_triggers
                    == old(self).processing_engine_triggers
                && final(self).deleted == old(self).deleted
                && final(self).hard_delete_time == old(self).hard_delete_time,
            r matches Ok(true) ==> {
                let k = old(self).tables.idx_of_id(log.table_id.0);
                let t = final(self).tables.entries@[k].res;
                &&& final(self).tables.entries@.len() == old(self).tables.entries@.len()
                &&& t.deleted
                &&& t.hard_delete_time == log.hard_deletion_time
                &&& (old(self).tables.entries@[k].res.deleted ==> t.table_name
                    == old(self).tables.entries@[k].res.table_name)
                &&& (!old(self).tables.entries@[k].res.deleted ==> t.table_name@
                    == spec_deleted_name(log.table_name@, log.deletion_time))
                &&& forall|i: int|
                    0 <= i < old(self).tables.entries@.len() && i != k
                        ==> final(self).tables.entries@[i] == old(self).tables.entries@[i]
            },
    {
        let k = match self.tables.find_id(log.table_id.0) {
            Some(k) => k,
            None => {
                return Ok(false);
            },
        };
        if !self.tables.entries[k].res.deleted {
            let new_name = make_new_name_using_deleted_time(log.table_name.as_str(),
                log.deletion_time);
            let mut entry = self.tables.take_at(k);
            if self.tables.contains_name(new_name.as_str()) {
                let ghost entry_snap = entry;
                self.tables.put_at(k, entry);
                proof {
                    assert(self.tables.entries@ =~= old(self).tables.entries@);
                    crate::eqv::lemma_db_eqv_of_same_parts(*self, *old(self));
                }
                return Err(CatalogError::AlreadyExists);
            }
            entry.res.table_name = new_name.clone();
            entry.res.deleted = true;
            entry.res.hard_delete_time = log.hard_deletion_time;
            entry.name = new_name;
            let ghost entry_snap = entry;
            self.tables.put_at(k, entry);
            proof {
                assert(self.tables.entries@
                    =~= old(self).tables.entries@.update(k as int, entry_snap));
                lemma_tables_ok_after_update(*old(self), *self, k as int);
            }
            Ok(true)
        } else {
            let mut entry = self.tables.take_at(k);
            entry.res.hard_delete_time = log.hard_deletion_time;
            let ghost entry_snap = entry;
            self.tables.put_at(k, entry);
            proof {
                assert(self.tables.entries@
                    =~= old(self).tables.entries@.update(k as int, entry_snap));
                lemma_tables_ok_after_update(*old(self), *self, k as int);
            }
            Ok(true)
        }
    }

    /// Removes a distinct-value cache from its table. Removal of an absent
    /// cache still counts as a change, matching the log's application.
    fn delete_distinct_cache_op(&mut self, log: &DeleteDistinctCacheLog)
        -> (r: Result<bool, CatalogError>)
        requires
            old(self).wf(),
        ensures
            final(self).wf(),
            final(self).id == old(self).id,
            r matches Ok(changed) ==> changed,
            r matches Err(_) ==> crate::eqv::db_eqv(*final(self), *old(self)),
            r matches Err(e) ==> crate::errors::apply_error(e),
    {
        proof {
            crate::eqv::lemma_db_eqv_refl(*self);
        }
        let k = match self.tables.find_id(log.table_id.0) {
            Some(k) => k,
            None => {
                return Err(CatalogError::TableNotFound {
                    db_name: self.name.clone(),
                    table_name: log.table_name.clone(),
                });
            },
        };
        let mut entry = self.tables.take_at(k);
        entry.res.distinct_caches.remove(log.cache_id.0);
        let ghost entry_snap = entry;
        self.tables.put_at(k, entry);
        proof {
            assert(self.tables.entries@
                =~= old(self).tables.entries@.update(k as int, entry_snap));
            lemma_tables_ok_after_update(*old(self), *self, k as int);
        }
        Ok(true)
    }

    /// Removes a last-value cache from its table. Removal of an absent cache
    /// still counts as a change, matching the log's application.
    fn delete_last_cache_op(&mut self, log: &DeleteLastCacheLog) -> (r: Result<bool, CatalogError>)
        requires
            old(self).wf(),
        ensures
            final(self).wf(),
            final(self).id == old(self).id,
            r matches Ok(changed) ==> changed,
            r matches Err(_) ==> crate::eqv::db_eqv(*final(self), *old(self)),
            r matches Err(e) ==> crate::errors::apply_error(e),
    {
        proof {
            crate::eqv::lemma_db_eqv_refl(*self);
        }
        let k = match self.tables.find_id(log.table_id.0) {
            Some(k) => k,
            None => {
                return Err(CatalogError::TableNotFound {
                    db_name: self.name.clone(),
                    table_name: log.table_name.clone(),
                });
            },
        };
        let mut entry = self.tables.take_at(k);
        entry.res.last_caches.remove(log.id.0);
        let ghost entry_snap = entry;
        self.tables.put_at(k, entry);
        proof {
            assert(self.tables.entries@
                =~= old(self).tables.entries@.update(k as int, entry_snap));
            lemma_tables_ok_after_update(*old(self), *self, k as int);
        }
        Ok(true)
    }

    /// Deletes a trigger. Deleting an absent trigger is a no-op so that the
    /// operation is idempotent; a running trigger is only deleted by force.
    fn delete_trigger_op(&mut self, log: &DeleteTriggerLog) -> (r: Result<bool, CatalogError>)
        requires
            old(self).wf(),
        ensures
            final(self).wf(),
            final(self).id == old(self).id,
            r matches Ok(false) ==> crate::eqv::db_eqv(*final(self), *old(self)),
            r matches Err(_) ==> crate::eqv::db_eqv(*final(self), *old(self)),
            r matches Err(e) ==> crate::errors::apply_error(e),
    {
        proof {
            crate::eqv::lemma_db_eqv_refl(*self);
        }
        let k = match self.processing_engine_triggers.find_name(log.trigger_name.as_str()) {
            Some(k) => k,
            None => {
                return Ok(false);
            },
        };
        if !self.processing_engine_triggers.entries[k].res.disabled && !log.force {
            return Err(CatalogError::ProcessingEngineTriggerRunning {
                trigger_name: log.trigger_name.clone(),
            });
        }
        let id = self.processing_engine_triggers.entries[k].id;
        self.processing_engine_triggers.remove(id);
        Ok(true)
    }
}

impl DatabaseSchema {
    /// A copy of this database schema, part for part.
    pub fn duplicate(&self) -> (r: Self)
        ensures
            r.id == self.id,
            r.name == self.name,
            r.retention_period == self.retention_period,
            r.deleted == self.deleted,
            r.hard_delete_time == self.hard_delete_time,
            r.tables.next_id == self.tables.next_id,
            r.tables.entries@.len() == self.tables.entries@.len(),
            forall|i: int|
                0 <= i < r.tables.entries@.len() ==> {
                    let ea = #[trigger] r.tables.entries@[i];
                    let eb = self.tables.entries@[i];
                    ea.id == eb.id && ea.name@ == eb.name@
                        && ea.res.table_id == eb.res.table_id
                        && ea.res.table_name@ == eb.res.table_name@
                        && ea.res.deleted == eb.res.deleted
                        && ea.res.hard_delete_time == eb.res.hard_delete_time
                        && crate::eqv::table_eqv(ea.res, eb.res)
                },
            r.processing_engine_triggers.next_id == self.processing_engine_triggers.next_id,
            r.processing_engine_triggers.entries@.len()
                == self.processing_engine_triggers.entries@.len(),
            forall|i: int|
                0 <= i < r.processing_engine_triggers.entries@.len() ==> {
                    let ea = #[trigger] r.processing_engine_triggers.entries@[i];
                    let eb = self.processing_engine_triggers.entries@[i];
                    ea.id == eb.id && ea.name@ == eb.name@
                        && spec_trigger_def_eq(ea.res, eb.res)
                },
            self.wf() ==> r.wf(),
            crate::eqv::db_eqv(r, *self),
    {
        let mut tables: Vec<RepoEntry<TableDefinition>> = Vec::new();
        let mut i: usize = 0;
        while i < self.tables.entries.len()
            invariant
                i <= self.tables.entries@.len(),
                tables@.len() == i,
                forall|k: int|
                    0 <= k < i ==> {
                        let ea = #[trigger] tables@[k];
                        let eb = self.tables.entries@[k];
                        ea.id == eb.id && ea.name@ == eb.name@
                            && ea.res.table_id == eb.res.table_id
                            && ea.res.table_name@ == eb.res.table_name@
                            && ea.res.deleted == eb.res.deleted
                            && ea.res.hard_delete_time == eb.res.hard_delete_time
                            && crate::eqv::table_eqv(ea.res, eb.res)
                    },
                self.wf() ==> forall|k: int| 0 <= k < i ==> (#[trigger] tables@[k]).res.wf(),
            decreases self.tables.entries@.len() - i,
        {
            let e = &self.tables.entries[i];
            tables.push(RepoEntry {
                id: e.id,
                name: e.name.clone(),
                res: e.res.duplicate(),
            });
            i += 1;
        }
        let mut triggers: Vec<RepoEntry<TriggerDefinition>> = Vec::new();
        let mut i: usize = 0;
        while i < self.processing_engine_triggers.entries.len()
            invariant
                i <= self.processing_engine_triggers.entries@.len(),
                triggers@.len() == i,
                forall|k: int|
                    0 <= k < i ==> {
                        let ea = #[trigger] triggers@[k];
                        let eb = self.processing_engine_triggers.entries@[k];
                        ea.id == eb.id && ea.name@ == eb.name@
                            && spec_trigger_def_eq(ea.res, eb.res)
                    },
            decreases self.processing_engine_triggers.entries@.len() - i,
        {
            let e = &self.processing_engine_triggers.entries[i];
            triggers.push(RepoEntry {
                id: e.id,
                name: e.name.clone(),
                res: dup_trigger_def(&e.res),
            });
            i += 1;
        }
        DatabaseSchema {
            id: self.id,
            name: self.name.clone(),
            tables: Repository { entries: tables, next_id: self.tables.next_id },
            retention_period: self.retention_period,
            processing_engine_triggers: Repository { entries: triggers,
                next_id: self.processing_engine_triggers.next_id },
            deleted: self.deleted,
            hard_delete_time: self.hard_delete_time,
        }
    }
}

/// The column identifiers zero through `n` exclusive, in order.
pub fn column_id_range(n: usize) -> (r: Vec<crate::types::ColumnId>)
    ensures
        r@.len() == n,
        forall|j: int| 0 <= j < n ==> (#[trigger] r@[j]).0 == j,
{
    let mut r: Vec<crate::types::ColumnId> = Vec::new();
    let mut i: usize = 0;
    while i < n
        invariant
            i <= n,
            r@.len() == i,
            forall|j: int| 0 <= j < i ==> (#[trigger] r@[j]).0 == j,
        decreases n - i,
    {
        r.push(crate::types::ColumnId(i as u64));
        i += 1;
    }
    r
}

/// A copy of a list of column identifiers.
pub fn copy_column_ids(v: &Vec<crate::types::ColumnId>) -> (r: Vec<crate::types::ColumnId>)
    ensures
        r@ == v@,
{
    let mut r: Vec<crate::types::ColumnId> = Vec::new();
    let mut i: usize = 0;
    while i < v.len()
        invariant
            i <= v@.len(),
            r@ =~= v@.subrange(0, i as int),
        decreases v@.len() - i,
    {
        r.push(v[i]);
        i += 1;
        proof {
            assert(r@ =~= v@.subrange(0, i as int));
        }
    }
    proof {
        assert(r@ =~= v@);
    }
    r
}

/// A copy of a trigger specification.
fn dup_trigger_spec(t: &TriggerSpecificationDefinition) -> (r: TriggerSpecificationDefinition)
    ensures
        spec_trigger_spec_eq(*t, r),
{
    match t {
        TriggerSpecificationDefinition::SingleTableWalWrite { table_name } =>
            TriggerSpecificationDefinition::SingleTableWalWrite {
                table_name: table_name.clone() },
        TriggerSpecificationDefinition::AllTablesWalWrite =>
            TriggerSpecificationDefinition::AllTablesWalWrite,
        TriggerSpecificationDefinition::Schedule { schedule } =>
            TriggerSpecificationDefinition::Schedule { schedule: schedule.clone() },
        TriggerSpecificationDefinition::Every { duration_secs } =>
            TriggerSpecificationDefinition::Every { duration_secs: *duration_secs },
        TriggerSpecificationDefinition::RequestPath { path } =>
            TriggerSpecificationDefinition::RequestPath { path: path.clone() },
    }
}

/// A copy of a trigger definition.
fn dup_trigger_def(t: &TriggerDefinition) -> (r: TriggerDefinition)
    ensures
        spec_trigger_def_eq(*t, r),
        r.trigger_id == t.trigger_id,
        r.trigger_name == t.trigger_name,
        r.disabled == t.disabled,
{
    TriggerDefinition {
        trigger_id: t.trigger_id,
        trigger_name: t.trigger_name.clone(),
        plugin_filename: t.plugin_filename.clone(),
        database_name: t.database_name.clone(),
        trigger: dup_trigger_spec(&t.trigger),
        disabled: t.disabled,
    }
}

} // verus!

//! The catalog's public operations.
//!
//! Every mutation composes a catalog batch, applies it under the single
//! write permit, and hands the stamped batch back so that the caller can
//! persist it to the log. The composing operations and batch replay share
//! the same application functions, so a replayed log yields the state the
//! online operations produced.

use vstd::prelude::*;

use crate::catalog::{CatalogUuid, InnerCatalog, internal_db_name, operator_token_name};
use crate::database::DatabaseSchema;
use crate::errors::CatalogError;
use crate::log::{CatalogBatch, OrderedCatalogBatch, Prompt};
use crate::nodes::NodeDefinition;
use crate::repository::RepoEntry;
use crate::textutil::str_eq;
use crate::types::{DbId, DeletionStatus, TableId};
use crate::CatalogSequenceNumber;

verus! {

/// Whether the catalog is accepting work or shutting down.
#[derive(Debug, Clone, Copy, PartialEq, Eq, Structural)]
pub enum CatalogState {
    Active,
    Shutdown,
}

impl CatalogState {
    pub fn is_shutdown(&self) -> (r: bool)
        ensures
            r == (*self is Shutdown),
    {
        matches!(self, CatalogState::Shutdown)
    }
}

/// Configuration arguments of a catalog.
#[derive(Debug, Clone, Copy, PartialEq, Eq, Structural)]
pub struct CatalogArgs {
    /// How long after a soft deletion the default hard deletion is
    /// scheduled, in nanoseconds.
    pub default_hard_delete_duration_ns: u64,
}

/// Default duration between a soft deletion and the scheduled hard
/// deletion: ten years, effectively indefinite.
pub const DEFAULT_HARD_DELETE_DURATION_NS: u64 = 315360000000000000;

impl CatalogArgs {
    pub fn new(default_hard_delete_duration_ns: u64) -> (r: Self)
        ensures
            r.default_hard_delete_duration_ns == default_hard_delete_duration_ns,
    {
        CatalogArgs { default_hard_delete_duration_ns }
    }
}

impl Default for CatalogArgs {
    fn default() -> (r: Self)
        ensures
            r.default_hard_delete_duration_ns == DEFAULT_HARD_DELETE_DURATION_NS,
    {
        CatalogArgs { default_hard_delete_duration_ns: DEFAULT_HARD_DELETE_DURATION_NS }
    }
}

/// Configurable limits on the catalog's size.
#[derive(Debug, Clone, Copy, PartialEq, Eq, Structural)]
pub struct CatalogLimits {
    /// Bound on the number of databases.
    pub num_dbs: usize,
    /// Bound on the number of tables across all databases.
    pub num_tables: usize,
    /// Bound on the number of columns of one table.
    pub num_columns_per_table: usize,
}

impl Default for CatalogLimits {
    fn default() -> (r: Self)
        ensures
            r.num_dbs == usize::MAX,
            r.num_tables == usize::MAX,
            r.num_columns_per_table == usize::MAX,
    {
        CatalogLimits {
            num_dbs: usize::MAX,
            num_tables: usize::MAX,
            num_columns_per_table: usize::MAX,
        }
    }
}

/// The character views of a list of strings.
pub open spec fn strings_views(s: Seq<String>) -> Seq<Seq<char>> {
    Seq::new(s.len(), |i: int| s[i]@)
}

/// The names of the database entries that are not soft deleted, in order.
pub open spec fn active_db_names(s: Seq<RepoEntry<DatabaseSchema>>) -> Seq<Seq<char>>
    decreases s.len(),
{
    if s.len() == 0 {
        Seq::empty()
    } else {
        active_db_names(s.drop_last()) + if !s.last().res.deleted {
            seq![s.last().res.name@]
        } else {
            Seq::empty()
        }
    }
}

/// How many database entries are neither soft deleted nor the internal
/// database.
pub open spec fn count_active_dbs(s: Seq<RepoEntry<DatabaseSchema>>) -> nat
    decreases s.len(),
{
    if s.len() == 0 {
        0
    } else {
        count_active_dbs(s.drop_last()) + if !s.last().res.deleted
            && s.last().name@ != internal_db_name() { 1nat } else { 0nat }
    }
}

/// The catalog: in-memory state, limits and arguments. The object-store
/// log and checkpoints live with the caller, which persists the ordered
/// batches these operations hand back.
pub struct Catalog {
    pub inner: InnerCatalog,
    pub limits: CatalogLimits,
    pub args: CatalogArgs,
    pub state: CatalogState,
}

impl Catalog {
    pub open spec fn wf(self) -> bool {
        self.inner.wf()
    }

    /// A new catalog with no databases, nodes or tokens, at sequence zero.
    pub fn new_empty(catalog_id: String, catalog_uuid: CatalogUuid) -> (r: Self)
        ensures
            r.wf(),
            r.inner.sequence.0 == 0,
            r.inner.catalog_id == catalog_id,
            r.inner.catalog_uuid == catalog_uuid,
            r.inner.databases.entries@.len() == 0,
            r.state is Active,
    {
        Catalog {
            inner: InnerCatalog::new(catalog_id, catalog_uuid),
            limits: CatalogLimits {
                num_dbs: usize::MAX,
                num_tables: usize::MAX,
                num_columns_per_table: usize::MAX,
            },
            args: CatalogArgs {
                default_hard_delete_duration_ns: DEFAULT_HARD_DELETE_DURATION_NS,
            },
            state: CatalogState::Active,
        }
    }

    pub fn sequence_number(&self) -> (r: CatalogSequenceNumber)
        ensures
            r == self.inner.sequence,
    {
        self.inner.sequence
    }

    pub fn catalog_id(&self) -> (r: String)
        ensures
            r == self.inner.catalog_id,
    {
        self.inner.catalog_id.clone()
    }

    pub fn catalog_uuid(&self) -> (r: CatalogUuid)
        ensures
            r == self.inner.catalog_uuid,
    {
        self.inner.catalog_uuid
    }

    pub fn set_state_shutdown(&mut self)
        ensures
            final(self).state is Shutdown,
            final(self).inner == old(self).inner,
            final(self).limits == old(self).limits,
            final(self).args == old(self).args,
    {
        self.state = CatalogState::Shutdown;
    }

    pub fn db_name_to_id(&self, db_name: &str) -> (r: Option<DbId>)
        requires
            self.wf(),
        ensures
            match r {
                Some(id) => self.inner.databases.spec_contains_name(db_name@)
                    && id.0 == self.inner.databases.entries@[
                        self.inner.databases.idx_of_name(db_name@)].id,
                None => !self.inner.databases.spec_contains_name(db_name@),
            },
    {
        match self.inner.databases.name_to_id(db_name) {
            Some(id) => Some(DbId(id)),
            None => None,
        }
    }

    pub fn db_id_to_name(&self, db_id: DbId) -> (r: Option<String>)
        requires
            self.wf(),
        ensures
            match r {
                Some(name) => self.inner.databases.spec_contains_id(db_id.0)
                    && name@ == self.inner.databases.entries@[
                        self.inner.databases.idx_of_id(db_id.0)].name@,
                None => !self.inner.databases.spec_contains_id(db_id.0),
            },
    {
        self.inner.databases.id_to_name(db_id.0)
    }

    pub fn db_schema(&self, db_name: &str) -> (r: Option<&DatabaseSchema>)
        requires
            self.wf(),
        ensures
            match r {
                Some(db) => self.inner.databases.spec_contains_name(db_name@)
                    && db == &self.inner.databases.entries@[
                        self.inner.databases.idx_of_name(db_name@)].res,
                None => !self.inner.databases.spec_contains_name(db_name@),
            },
    {
        self.inner.databases.get_by_name(db_name)
    }

    pub fn db_schema_by_id(&self, db_id: DbId) -> (r: Option<&DatabaseSchema>)
        requires
            self.wf(),
        ensures
            match r {
                Some(db) => self.inner.databases.spec_contains_id(db_id.0)
                    && db == &self.inner.databases.entries@[
                        self.inner.databases.idx_of_id(db_id.0)].res,
                None => !self.inner.databases.spec_contains_id(db_id.0),
            },
    {
        self.inner.databases.get_by_id(db_id.0)
    }

    pub fn db_exists(&self, db_id: DbId) -> (r: bool)
        requires
            self.wf(),
        ensures
            r == self.inner.databases.spec_contains_id(db_id.0),
    {
        self.inner.databases.contains_id(db_id.0)
    }

    pub fn next_db_id(&self) -> (r: DbId)
        ensures
            r.0 == self.inner.databases.next_id,
    {
        DbId(self.inner.databases.next_id())
    }

    pub fn node(&self, node_id: &str) -> (r: Option<&NodeDefinition>)
        requires
            self.wf(),
        ensures
            match r {
                Some(n) => self.inner.nodes.spec_contains_name(node_id@)
                    && n == &self.inner.nodes.entries@[
                        self.inner.nodes.idx_of_name(node_id@)].res,
                None => !self.inner.nodes.spec_contains_name(node_id@),
            },
    {
        self.inner.nodes.get_by_name(node_id)
    }

    /// The names of the databases that are not soft deleted.
    pub fn db_names(&self) -> (r: Vec<String>)
        ensures
            strings_views(r@) == active_db_names(self.inner.databases.entries@),
    {
        let mut v: Vec<String> = Vec::new();
        let mut i: usize = 0;
        while i < self.inner.databases.entries.len()
            invariant
                i <= self.inner.databases.entries@.len(),
                strings_views(v@) =~= active_db_names(
                    self.inner.databases.entries@.subrange(0, i as int)),
            decreases self.inner.databases.entries@.len() - i,
        {
            proof {
                assert(self.inner.databases.entries@.subrange(0, (i + 1) as int).drop_last()
                    =~= self.inner.databases.entries@.subrange(0, i as int));
            }
            if !self.inner.databases.entries[i].res.deleted {
                v.push(self.inner.databases.entries[i].res.name.clone());
            }
            i += 1;
            proof {
                assert(strings_views(v@) =~= active_db_names(
                    self.inner.databases.entries@.subrange(0, i as int)));
            }
        }
        proof {
            assert(self.inner.databases.entries@.subrange(0,
                self.inner.databases.entries@.len() as int)
                =~= self.inner.databases.entries@);
        }
        v
    }

    /// How many databases are live: neither soft deleted nor the reserved
    /// internal one.
    pub fn database_count(&self) -> (r: usize)
        ensures
            r == count_active_dbs(self.inner.databases.entries@),
    {
        let mut count: usize = 0;
        let mut i: usize = 0;
        while i < self.inner.databases.entries.len()
            invariant
                i <= self.inner.databases.entries@.len(),
                count == count_active_dbs(self.inner.databases.entries@.subrange(0, i as int)),
                count <= i,
            decreases self.inner.databases.entries@.len() - i,
        {
            proof {
                reveal_strlit("_internal");
                assert("_internal"@ == internal_db_name());
                assert(self.inner.databases.entries@.subrange(0, (i + 1) as int).drop_last()
                    =~= self.inner.databases.entries@.subrange(0, i as int));
            }
            let e = &self.inner.databases.entries[i];
            if !e.res.deleted && !str_eq(e.name.as_str(), "_internal") {
                count += 1;
            }
            i += 1;
        }
        proof {
            assert(self.inner.databases.entries@.subrange(0,
                self.inner.databases.entries@.len() as int)
                =~= self.inner.databases.entries@);
        }
        count
    }

    /// How many tables there are across all databases, deleted ones
    /// included, saturating at the largest representable count.
    pub fn table_count(&self) -> (r: usize)
        ensures
            r == if spec_total_tables(self.inner.databases.entries@) > usize::MAX {
                usize::MAX as nat
            } else {
                spec_total_tables(self.inner.databases.entries@)
            },
    {
        let mut count: usize = 0;
        let mut d: usize = 0;
        while d < self.inner.databases.entries.len()
            invariant
                d <= self.inner.databases.entries@.len(),
                count == if spec_total_tables(self.inner.databases.entries@
                    .subrange(0, d as int)) > usize::MAX {
                    usize::MAX as nat
                } else {
                    spec_total_tables(self.inner.databases.entries@.subrange(0, d as int))
                },
            decreases self.inner.databases.entries@.len() - d,
        {
            proof {
                assert(self.inner.databases.entries@.subrange(0, (d + 1) as int).drop_last()
                    =~= self.inner.databases.entries@.subrange(0, d as int));
            }
            let tables = self.inner.databases.entries[d].res.tables.len();
            if count <= usize::MAX - tables {
                count = count + tables;
            } else {
                count = usize::MAX;
            }
            d += 1;
        }
        proof {
            assert(self.inner.databases.entries@.subrange(0,
                self.inner.databases.entries@.len() as int)
                =~= self.inner.databases.entries@);
        }
        count
    }

    /// Every token of the catalog, in insertion order.
    pub fn get_tokens(&self) -> (r: Vec<&crate::tokens::TokenInfo>)
        ensures
            r@.len() == self.inner.tokens.repo.entries@.len(),
            forall|i: int|
                0 <= i < r@.len() ==> r@[i] == &self.inner.tokens.repo.entries@[i].res,
    {
        let mut r: Vec<&crate::tokens::TokenInfo> = Vec::new();
        let mut i: usize = 0;
        while i < self.inner.tokens.repo.entries.len()
            invariant
                i <= self.inner.tokens.repo.entries@.len(),
                r@.len() == i,
                forall|k: int|
                    0 <= k < i ==> r@[k] == &self.inner.tokens.repo.entries@[k].res,
            decreases self.inner.tokens.repo.entries@.len() - i,
        {
            r.push(&self.inner.tokens.repo.entries[i].res);
            i += 1;
        }
        r
    }

    /// How many triggers of each kind the whole catalog holds, summed over
    /// every database and saturating at the largest representable count:
    /// single-table write triggers, all-table write triggers, schedules,
    /// and request paths, in that order.
    pub fn num_triggers(&self) -> (r: (u64, u64, u64, u64))
        ensures
            r.0 == sat_u64(spec_num_triggers_kind(self.inner.databases.entries@, 0)),
            r.1 == sat_u64(spec_num_triggers_kind(self.inner.databases.entries@, 1)),
            r.2 == sat_u64(spec_num_triggers_kind(self.inner.databases.entries@, 2)),
            r.3 == sat_u64(spec_num_triggers_kind(self.inner.databases.entries@, 3)),
    {
        let mut wal: u64 = 0;
        let mut all_wal: u64 = 0;
        let mut schedule: u64 = 0;
        let mut request: u64 = 0;
        let mut d: usize = 0;
        while d < self.inner.databases.entries.len()
            invariant
                d <= self.inner.databases.entries@.len(),
                wal == sat_u64(spec_num_triggers_kind(
                    self.inner.databases.entries@.subrange(0, d as int), 0)),
                all_wal == sat_u64(spec_num_triggers_kind(
                    self.inner.databases.entries@.subrange(0, d as int), 1)),
                schedule == sat_u64(spec_num_triggers_kind(
                    self.inner.databases.entries@.subrange(0, d as int), 2)),
                request == sat_u64(spec_num_triggers_kind(
                    self.inner.databases.entries@.subrange(0, d as int), 3)),
            decreases self.inner.databases.entries@.len() - d,
        {
            proof {
                assert(self.inner.databases.entries@.subrange(0, (d + 1) as int).drop_last()
                    =~= self.inner.databases.entries@.subrange(0, d as int));
            }
            let counts = self.inner.databases.entries[d].res.trigger_count_by_type();
            wal = sat_add_u64(wal, counts.0);
            all_wal = sat_add_u64(all_wal, counts.1);
            schedule = sat_add_u64(schedule, counts.2);
            request = sat_add_u64(request, counts.3);
            d += 1;
        }
        proof {
            assert(self.inner.databases.entries@.subrange(0,
                self.inner.databases.entries@.len() as int)
                =~= self.inner.databases.entries@);
        }
        (wal, all_wal, schedule, request)
    }

    /// The retention cutoffs over the whole catalog: for every non-deleted
    /// table of every non-deleted database whose retention is a duration,
    /// the oldest allowable timestamp, in catalog order.
    pub fn get_retention_period_cutoff_map(&self, now_ns: i64)
        -> (r: Vec<(DbId, TableId, i64)>)
        requires
            self.wf(),
        ensures
            r@ == spec_cutoff_map(self.inner.databases.entries@, now_ns),
    {
        let mut r: Vec<(DbId, TableId, i64)> = Vec::new();
        let mut d: usize = 0;
        while d < self.inner.databases.entries.len()
            invariant
                self.wf(),
                d <= self.inner.databases.entries@.len(),
                r@ =~= spec_cutoff_map(self.inner.databases.entries@.subrange(0, d as int),
                    now_ns),
            decreases self.inner.databases.entries@.len() - d,
        {
            proof {
                assert(self.inner.databases.entries@.subrange(0, (d + 1) as int).drop_last()
                    =~= self.inner.databases.entries@.subrange(0, d as int));
            }
            let db = &self.inner.databases.entries[d].res;
            let cutoff = match db.get_retention_period_cutoff_ts_nanos(now_ns) {
                Some(c) => c,
                None => {
                    proof {
                        assert(spec_db_cutoffs(self.inner.databases.entries@[d as int],
                            now_ns) =~= Seq::<(DbId, TableId, i64)>::empty());
                        assert(r@ =~= spec_cutoff_map(self.inner.databases.entries@
                            .subrange(0, (d + 1) as int), now_ns));
                    }
                    d += 1;
                    continue;
                },
            };
            if !db.deleted {
                let db_id = DbId(self.inner.databases.entries[d].id);
                let mut t: usize = 0;
                let ghost done = r@;
                while t < db.tables.entries.len()
                    invariant
                        self.wf(),
                        d < self.inner.databases.entries@.len(),
                        db == &self.inner.databases.entries@[d as int].res,
                        db_id.0 == self.inner.databases.entries@[d as int].id,
                        !db.deleted,
                        db.retention_period is Duration,
                        cutoff == crate::database::clamp_i64(
                            now_ns - db.retention_period->Duration_0),
                        t <= db.tables.entries@.len(),
                        r@ =~= done + spec_table_cutoffs(db_id, cutoff,
                            db.tables.entries@.subrange(0, t as int)),
                    decreases db.tables.entries@.len() - t,
                {
                    proof {
                        assert(db.tables.entries@.subrange(0, (t + 1) as int).drop_last()
                            =~= db.tables.entries@.subrange(0, t as int));
                    }
                    if !db.tables.entries[t].res.deleted {
                        r.push((db_id, TableId(db.tables.entries[t].id), cutoff));
                    }
                    t += 1;
                    proof {
                        assert(r@ =~= done + spec_table_cutoffs(db_id, cutoff,
                            db.tables.entries@.subrange(0, t as int)));
                    }
                }
                proof {
                    assert(db.tables.entries@.subrange(0, db.tables.entries@.len() as int)
                        =~= db.tables.entries@);
                    assert(spec_db_cutoffs(self.inner.databases.entries@[d as int], now_ns)
                        =~= spec_table_cutoffs(db_id, cutoff, db.tables.entries@));
                    assert(r@ =~= spec_cutoff_map(self.inner.databases.entries@
                        .subrange(0, (d + 1) as int), now_ns));
                }
            } else {
                proof {
                    assert(spec_db_cutoffs(self.inner.databases.entries@[d as int], now_ns)
                        =~= Seq::<(DbId, TableId, i64)>::empty());
                    assert(r@ =~= spec_cutoff_map(self.inner.databases.entries@
                        .subrange(0, (d + 1) as int), now_ns));
                }
            }
            d += 1;
        }
        proof {
            assert(self.inner.databases.entries@.subrange(0,
                self.inner.databases.entries@.len() as int)
                =~= self.inner.databases.entries@);
        }
        r
    }

    /// The duration configured for a generation level, in nanoseconds.
    pub fn get_generation_duration(&self, level: u8) -> (r: Option<u64>)
        requires
            self.wf(),
        ensures
            match r {
                Some(d) => self.inner.generation_config.spec_has_level(level)
                    && d == self.inner.generation_config.spec_duration_for(level),
                None => !self.inner.generation_config.spec_has_level(level),
            },
    {
        self.inner.generation_config.duration_for_level(level)
    }

    /// Every generation level with its duration, in level order.
    pub fn list_generation_durations(&self) -> (r: Vec<(u8, u64)>)
        ensures
            r@ == self.inner.generation_config.generation_durations@,
    {
        let src = &self.inner.generation_config.generation_durations;
        let mut v: Vec<(u8, u64)> = Vec::new();
        let mut i: usize = 0;
        while i < src.len()
            invariant
                i <= src@.len(),
                v@ =~= src@.subrange(0, i as int),
            decreases src@.len() - i,
        {
            v.push(src[i]);
            i += 1;
            proof {
                assert(v@ =~= src@.subrange(0, i as int));
            }
        }
        proof {
            assert(v@ =~= src@);
        }
        v
    }

    /// The token carrying this hash, used for authentication lookups.
    pub fn get_token(&self, token_hash: &Vec<u8>) -> (r: Option<&crate::tokens::TokenInfo>)
        requires
            self.wf(),
        ensures
            match r {
                Some(info) => exists|i: int|
                    0 <= i < self.inner.tokens.repo.entries@.len()
                        && (#[trigger] self.inner.tokens.repo.entries@[i]).res.hash@
                            == token_hash@
                        && info == &self.inner.tokens.repo.entries@[i].res,
                None => forall|i: int|
                    0 <= i < self.inner.tokens.repo.entries@.len()
                        ==> (#[trigger] self.inner.tokens.repo.entries@[i]).res.hash@
                            != token_hash@,
            },
    {
        self.inner.tokens.hash_to_info(token_hash)
    }

    /// The deletion status of a database: `None` while it lives.
    pub fn database_deletion_status(&self, db_id: DbId, now_ns: i64)
        -> (r: Option<DeletionStatus>)
        requires
            self.wf(),
        ensures
            !self.inner.databases.spec_contains_id(db_id.0)
                ==> r == Some(DeletionStatus::NotFound),
            self.inner.databases.spec_contains_id(db_id.0) ==> {
                let db = self.inner.databases.entries@[
                    self.inner.databases.idx_of_id(db_id.0)].res;
                if !db.deleted {
                    r is None
                } else {
                    match db.hard_delete_time {
                        Some(t) => if t <= now_ns {
                            r == Some(DeletionStatus::Hard((now_ns - t) as u64))
                        } else {
                            r == Some(DeletionStatus::Soft)
                        },
                        None => r == Some(DeletionStatus::Soft),
                    }
                }
            },
    {
        match self.inner.databases.get_by_id(db_id.0) {
            None => Some(DeletionStatus::NotFound),
            Some(db) => {
                if !db.deleted {
                    None
                } else {
                    match db.hard_delete_time {
                        Some(t) => {
                            if t <= now_ns {
                                let wide: i128 = now_ns as i128 - t as i128;
                                Some(DeletionStatus::Hard(wide as u64))
                            } else {
                                Some(DeletionStatus::Soft)
                            }
                        },
                        None => Some(DeletionStatus::Soft),
                    }
                }
            },
        }
    }

    /// The deletion status of a table within a database: the database's
    /// own status where it has one, otherwise the table's; `None` while
    /// both live.
    pub fn table_deletion_status(&self, db_id: DbId, table_id: TableId, now_ns: i64)
        -> (r: Option<DeletionStatus>)
        requires
            self.wf(),
        ensures
            !self.inner.databases.spec_contains_id(db_id.0)
                ==> r == Some(DeletionStatus::NotFound),
            self.inner.databases.spec_contains_id(db_id.0) ==> ({
                let db = self.inner.databases.entries@[
                    self.inner.databases.idx_of_id(db_id.0)].res;
                if db.deleted {
                    match db.hard_delete_time {
                        Some(t) => if t <= now_ns {
                            r == Some(DeletionStatus::Hard((now_ns - t) as u64))
                        } else {
                            r == Some(DeletionStatus::Soft)
                        },
                        None => r == Some(DeletionStatus::Soft),
                    }
                } else if !db.tables.spec_contains_id(table_id.0) {
                    r == Some(DeletionStatus::NotFound)
                } else {
                    let t = db.tables.entries@[db.tables.idx_of_id(table_id.0)].res;
                    if !t.deleted {
                        r is None
                    } else {
                        match t.hard_delete_time {
                            Some(ht) => if ht <= now_ns {
                                r == Some(DeletionStatus::Hard((now_ns - ht) as u64))
                            } else {
                                r == Some(DeletionStatus::Soft)
                            },
                            None => r == Some(DeletionStatus::Soft),
                        }
                    }
                }
            }),
    {
        match self.database_deletion_status(db_id, now_ns) {
            Some(status) => Some(status),
            None => {
                let db = match self.inner.databases.get_by_id(db_id.0) {
                    Some(db) => db,
                    None => {
                        return Some(DeletionStatus::NotFound);
                    },
                };
                match db.tables.get_by_id(table_id.0) {
                    None => Some(DeletionStatus::NotFound),
                    Some(t) => {
                        if !t.deleted {
                            None
                        } else {
                            match t.hard_delete_time {
                                Some(ht) => {
                                    if ht <= now_ns {
                                        let wide: i128 = now_ns as i128 - ht as i128;
                                        Some(DeletionStatus::Hard(wide as u64))
                                    } else {
                                        Some(DeletionStatus::Soft)
                                    }
                                },
                                None => Some(DeletionStatus::Soft),
                            }
                        }
                    },
                }
            },
        }
    }

    /// A snapshot of the whole catalog state: what a checkpoint persists.
    /// A catalog restored from it observes as this one does.
    pub fn snapshot(&self) -> (r: InnerCatalog)
        requires
            self.wf(),
        ensures
            crate::eqv::inner_eqv(r, self.inner),
            r.wf(),
    {
        self.inner.duplicate()
    }

    /// A copy of the in-memory state.
    pub fn clone_inner(&self) -> (r: InnerCatalog)
        requires
            self.wf(),
        ensures
            crate::eqv::inner_eqv(r, self.inner),
            r.wf(),
    {
        self.inner.duplicate()
    }

    /// Replaces the in-memory state with a snapshot; together with
    /// `snapshot`, the round trip leaves a catalog that observes as the
    /// one the snapshot was taken of.
    pub fn update_from_snapshot(&mut self, snapshot: InnerCatalog)
        requires
            snapshot.wf(),
        ensures
            final(self).wf(),
            final(self).inner == snapshot,
            final(self).limits == old(self).limits,
            final(self).args == old(self).args,
            final(self).state == old(self).state,
    {
        self.inner = snapshot;
    }

    /// Acquire the write permit for a batch composed against the observed
    /// sequence. When the observation is stale the caller must recompose
    /// against current state and try again; otherwise the batch is stamped
    /// with the sequence it will consume.
    pub fn get_permit_and_verify_catalog_batch(&self, catalog_batch: CatalogBatch,
        sequence: CatalogSequenceNumber) -> (r: Prompt<OrderedCatalogBatch>)
        requires
            self.wf(),
            self.inner.sequence.0 < u64::MAX,
        ensures
            match r {
                Prompt::Success(ordered) => {
                    &&& sequence == self.inner.sequence
                    &&& ordered.batch == catalog_batch
                    &&& ordered.sequence.0 == self.inner.sequence.0 + 1
                },
                Prompt::Retry => sequence != self.inner.sequence,
            },
    {
        if sequence.get() != self.inner.sequence.get() {
            return Prompt::Retry;
        }
        let next = self.inner.sequence.next();
        Prompt::Success(OrderedCatalogBatch::new(catalog_batch, next))
    }

    /// Apply an ordered catalog batch that holds the write permit. The
    /// batch must consume exactly the next sequence number. Returns whether
    /// the batch changed anything; a batch that changes nothing does not
    /// consume the sequence.
    pub fn apply_ordered_catalog_batch(&mut self, ordered: &OrderedCatalogBatch)
        -> (r: Result<bool, CatalogError>)
        requires
            old(self).wf(),
            old(self).inner.sequence.0 < u64::MAX,
            ordered.sequence.0 == old(self).inner.sequence.0 + 1,
        ensures
            final(self).wf(),
            r matches Ok(true) ==> final(self).inner.sequence == ordered.sequence,
            r matches Ok(false) ==> *final(self) == *old(self),
            r matches Err(e) ==> crate::errors::apply_error(e)
                && *final(self) == *old(self),
    {
        self.inner.apply_catalog_batch(&ordered.batch, ordered.sequence)
    }

    /// Creates a new database of that name. Fails with `AlreadyExists` when
    /// the name is taken, and with `TooManyDbs` when the configured bound on
    /// live databases is reached; exactly then. On success the database
    /// exists, fresh and with the given retention, and the sequence has
    /// advanced by one.
    pub fn create_database(&mut self, name: &str, retention_ns: Option<u64>, now_ns: i64)
        -> (r: Result<OrderedCatalogBatch, CatalogError>)
        requires
            old(self).wf(),
            old(self).inner.sequence.0 < u64::MAX,
            old(self).inner.databases.next_id < u64::MAX,
        ensures
            final(self).wf(),
            (r matches Err(e) && e is AlreadyExists)
                <==> old(self).inner.databases.spec_contains_name(name@),
            (r matches Err(e) && e is TooManyDbs)
                <==> (!old(self).inner.databases.spec_contains_name(name@)
                    && count_active_dbs(old(self).inner.databases.entries@)
                        >= old(self).limits.num_dbs),
            r matches Err(e) ==> (e is AlreadyExists || e is TooManyDbs),
            r matches Err(_) ==> *final(self) == *old(self),
            r matches Ok(ob) ==> {
                &&& final(self).inner.sequence.0 == old(self).inner.sequence.0 + 1
                &&& ob.sequence == final(self).inner.sequence
                &&& final(self).inner.databases.spec_contains_name(name@)
                &&& {
                    let e = final(self).inner.databases.entries@.last();
                    &&& e.name@ == name@
                    &&& e.id == old(self).inner.databases.next_id
                    &&& !e.res.deleted
                    &&& e.res.retention_period == match retention_ns {
                        Some(d) => crate::types::RetentionPeriod::Duration(d),
                        None => crate::types::RetentionPeriod::Indefinite,
                    }
                    &&& e.res.tables.entries@.len() == 0
                }
                &&& final(self).inner.databases.entries@.drop_last()
                    == old(self).inner.databases.entries@
            },
    {
        if self.inner.databases.contains_name(name) {
            return Err(CatalogError::AlreadyExists);
        }
        if self.database_count() >= self.limits.num_dbs {
            return Err(CatalogError::TooManyDbs(self.limits.num_dbs));
        }
        let db_id = self.inner.databases.get_and_increment_next_id();
        let mut db = DatabaseSchema::new(DbId(db_id), name.to_owned());
        db.retention_period = match retention_ns {
            Some(d) => crate::types::RetentionPeriod::Duration(d),
            None => crate::types::RetentionPeriod::Indefinite,
        };
        let ghost db_snap = db;
        match self.inner.databases.insert(db_id, name.to_owned(), db) {
            Ok(()) => {},
            Err(e) => {
                proof {
                    assert(false);
                }
                return Err(e);
            },
        }
        proof {
            let n = self.inner.databases.entries@.len() - 1;
            assert(forall|i: int|
                0 <= i < n ==> #[trigger] self.inner.databases.entries@[i]
                    == self.inner.databases.entries@.drop_last()[i]);
            assert(self.inner.databases.entries@[n].res == db_snap);
            assert forall|i: int| 0 <= i < self.inner.databases.entries@.len() implies {
                let e = #[trigger] self.inner.databases.entries@[i];
                e.id == e.res.id.0 && e.name@ == e.res.name@ && e.res.wf()
            } by {
                if i < n {
                    let e = old(self).inner.databases.entries@[i];
                    assert(e.id == e.res.id.0 && e.name@ == e.res.name@ && e.res.wf());
                }
            }
        }
        let next = self.inner.sequence.next();
        self.inner.sequence = next;
        let mut ops: Vec<crate::log::DatabaseCatalogOp> = Vec::new();
        ops.push(crate::log::DatabaseCatalogOp::CreateDatabase(
            crate::log::CreateDatabaseLog {
                database_id: DbId(db_id),
                database_name: name.to_owned(),
                retention_period: retention_ns,
            }));
        let batch = CatalogBatch::database(now_ns, DbId(db_id), name.to_owned(), ops);
        Ok(OrderedCatalogBatch::new(batch, next))
    }

    /// Soft deletes a database: flags it deleted, renames it with the
    /// deletion time, and schedules the hard deletion. Asking for the
    /// default hard-delete time of a database that is already deleted
    /// changes nothing and signals `AlreadyDeleted`; exactly then.
    pub fn soft_delete_database(&mut self, db_name: &str,
        hard_delete: crate::types::HardDeletionTime, now_ns: i64)
        -> (r: Result<OrderedCatalogBatch, CatalogError>)
        requires
            old(self).wf(),
            old(self).inner.sequence.0 < u64::MAX,
        ensures
            final(self).wf(),
            (r matches Err(e) && e is NotFound)
                <==> !old(self).inner.databases.spec_contains_name(db_name@),
            (r matches Err(e) && e is AlreadyDeleted) <==> ({
                &&& old(self).inner.databases.spec_contains_name(db_name@)
                &&& old(self).inner.databases.entries@[
                    old(self).inner.databases.idx_of_name(db_name@)].res.deleted
                &&& hard_delete is Default
            }),
            (r matches Err(e) && e is AlreadyExists) <==> ({
                &&& old(self).inner.databases.spec_contains_name(db_name@)
                &&& !old(self).inner.databases.entries@[
                    old(self).inner.databases.idx_of_name(db_name@)].res.deleted
                &&& old(self).inner.databases.spec_contains_name(
                    crate::database::spec_deleted_name(db_name@, now_ns))
            }),
            r matches Err(e) ==> (e is NotFound || e is AlreadyDeleted
                || e is AlreadyExists),
            r matches Err(_) ==> *final(self) == *old(self),
            r matches Ok(ob) ==> {
                let k = old(self).inner.databases.idx_of_name(db_name@);
                let db_old = old(self).inner.databases.entries@[k].res;
                let db_new = final(self).inner.databases.entries@[k].res;
                &&& old(self).inner.databases.spec_contains_name(db_name@)
                &&& final(self).inner.sequence.0 == old(self).inner.sequence.0 + 1
                &&& ob.sequence == final(self).inner.sequence
                &&& db_new.deleted
                &&& db_new.hard_delete_time == spec_hard_delete_time(hard_delete, now_ns,
                    old(self).args.default_hard_delete_duration_ns)
                &&& (db_old.deleted ==> db_new.name == db_old.name)
                &&& (!db_old.deleted ==> db_new.name@
                    == crate::database::spec_deleted_name(db_name@, now_ns))
                &&& db_new.tables == db_old.tables
                &&& db_new.retention_period == db_old.retention_period
                &&& forall|i: int|
                    0 <= i < old(self).inner.databases.entries@.len() && i != k
                        ==> final(self).inner.databases.entries@[i]
                            == old(self).inner.databases.entries@[i]
            },
    {
        let k = match self.inner.databases.find_name(db_name) {
            Some(k) => k,
            None => {
                return Err(CatalogError::NotFound);
            },
        };
        let was_deleted = self.inner.databases.entries[k].res.deleted;
        if was_deleted && matches!(hard_delete, crate::types::HardDeletionTime::Default) {
            return Err(CatalogError::AlreadyDeleted);
        }
        if !was_deleted {
            let new_name = crate::database::make_new_name_using_deleted_time(db_name, now_ns);
            if self.inner.databases.contains_name(new_name.as_str()) {
                return Err(CatalogError::AlreadyExists);
            }
        }
        let hdt = compute_hard_delete_time(hard_delete, now_ns,
            self.args.default_hard_delete_duration_ns);
        let db_id = DbId(self.inner.databases.entries[k].id);
        let log = crate::log::SoftDeleteDatabaseLog {
            database_id: db_id,
            database_name: db_name.to_owned(),
            deletion_time: now_ns,
            hard_deletion_time: hdt,
        };
        let ghost prev = self.inner;
        let mut entry = self.inner.databases.take_at(k);
        entry.res.apply_soft_delete_database(&log);
        entry.name = entry.res.name.clone();
        let ghost entry_snap = entry;
        self.inner.databases.put_at(k, entry);
        proof {
            assert(prev.databases.entries@[k as int].id
                == prev.databases.entries@[k as int].res.id.0);
            crate::catalog::lemma_databases_ok_after_put(prev, self.inner, k as int,
                entry_snap);
            assert(forall|i: int|
                0 <= i < prev.databases.entries@.len() && i != k
                    ==> self.inner.databases.entries@[i]
                        == prev.databases.entries@[i]);
        }
        let next = self.inner.sequence.next();
        self.inner.sequence = next;
        let mut ops: Vec<crate::log::DatabaseCatalogOp> = Vec::new();
        ops.push(crate::log::DatabaseCatalogOp::SoftDeleteDatabase(log));
        let batch = CatalogBatch::database(now_ns, db_id, db_name.to_owned(), ops);
        Ok(OrderedCatalogBatch::new(batch, next))
    }

    /// Sets the duration of a generation level. Setting a level to the
    /// duration it already has is a no-op; setting it to a different one
    /// fails with `CannotChangeGenerationDuration`; a fresh level is
    /// recorded and consumes a sequence number.
    pub fn set_generation_duration(&mut self, level: u8, duration_ns: u64, now_ns: i64)
        -> (r: Result<Option<OrderedCatalogBatch>, CatalogError>)
        requires
            old(self).wf(),
            old(self).inner.sequence.0 < u64::MAX,
        ensures
            final(self).wf(),
            r matches Ok(Some(ob)) ==> {
                &&& !old(self).inner.generation_config.spec_has_level(level)
                &&& final(self).inner.generation_config.spec_has_level(level)
                &&& final(self).inner.generation_config.spec_duration_for(level)
                    == duration_ns
                &&& final(self).inner.sequence.0 == old(self).inner.sequence.0 + 1
                &&& ob.sequence == final(self).inner.sequence
            },
            r matches Ok(None) ==> {
                &&& old(self).inner.generation_config.spec_has_level(level)
                &&& old(self).inner.generation_config.spec_duration_for(level) == duration_ns
                &&& *final(self) == *old(self)
            },
            r matches Err(e) ==> {
                &&& e is CannotChangeGenerationDuration
                &&& old(self).inner.generation_config.spec_has_level(level)
                &&& old(self).inner.generation_config.spec_duration_for(level) != duration_ns
                &&& *final(self) == *old(self)
            },
    {
        match self.inner.generation_config.set_duration(level, duration_ns) {
            Ok(true) => {
                let next = self.inner.sequence.next();
                self.inner.sequence = next;
                let mut ops: Vec<crate::log::GenerationOp> = Vec::new();
                ops.push(crate::log::GenerationOp::SetGenerationDuration(
                    crate::log::SetGenerationDurationLog { level, duration_ns }));
                let batch = CatalogBatch::Generation(crate::log::GenerationBatch {
                    time_ns: now_ns,
                    ops,
                });
                Ok(Some(OrderedCatalogBatch::new(batch, next)))
            },
            Ok(false) => Ok(None),
            Err(e) => Err(e),
        }
    }

    /// Hard deletes a database, removing it from the catalog for good. The
    /// reserved internal database cannot be hard deleted: asking for it
    /// fails with `CannotDeleteInternalDatabase`, exactly then.
    pub fn hard_delete_database(&mut self, db_id: DbId, now_ns: i64)
        -> (r: Result<OrderedCatalogBatch, CatalogError>)
        requires
            old(self).wf(),
            old(self).inner.sequence.0 < u64::MAX,
        ensures
            final(self).wf(),
            (r matches Err(e) && e is NotFound)
                <==> !old(self).inner.databases.spec_contains_id(db_id.0),
            (r matches Err(e) && e is CannotDeleteInternalDatabase) <==> ({
                &&& old(self).inner.databases.spec_contains_id(db_id.0)
                &&& old(self).inner.databases.entries@[
                    old(self).inner.databases.idx_of_id(db_id.0)].name@
                    == internal_db_name()
            }),
            r matches Err(e) ==> (e is NotFound || e is CannotDeleteInternalDatabase),
            r matches Err(_) ==> *final(self) == *old(self),
            r matches Ok(ob) ==> {
                &&& !final(self).inner.databases.spec_contains_id(db_id.0)
                &&& final(self).inner.databases.entries@
                    == old(self).inner.databases.entries@.remove(
                        old(self).inner.databases.idx_of_id(db_id.0))
                &&& final(self).inner.sequence.0 == old(self).inner.sequence.0 + 1
                &&& ob.sequence == final(self).inner.sequence
            },
    {
        let k = match self.inner.databases.find_id(db_id.0) {
            Some(k) => k,
            None => {
                return Err(CatalogError::NotFound);
            },
        };
        proof {
            reveal_strlit("_internal");
            assert("_internal"@ == internal_db_name());
        }
        if str_eq(self.inner.databases.entries[k].name.as_str(), "_internal") {
            return Err(CatalogError::CannotDeleteInternalDatabase);
        }
        let ghost prev = self.inner;
        self.inner.databases.remove(db_id.0);
        proof {
            crate::catalog::lemma_databases_ok_after_remove(prev, self.inner);
        }
        let next = self.inner.sequence.next();
        self.inner.sequence = next;
        let mut ops: Vec<crate::log::DeleteOp> = Vec::new();
        ops.push(crate::log::DeleteOp::DeleteDatabase(db_id));
        let batch = CatalogBatch::Delete(crate::log::DeleteBatch { time_ns: now_ns, ops });
        Ok(OrderedCatalogBatch::new(batch, next))
    }

    /// Soft deletes a table of a database: flags it deleted, renames it
    /// with the deletion time, and schedules the hard deletion. Asking for
    /// the default hard-delete time of a table that is already deleted
    /// changes nothing and signals `AlreadyDeleted`; exactly then.
    pub fn soft_delete_table(&mut self, db_name: &str, table_name: &str,
        hard_delete: crate::types::HardDeletionTime, now_ns: i64)
        -> (r: Result<OrderedCatalogBatch, CatalogError>)
        requires
            old(self).wf(),
            old(self).inner.sequence.0 < u64::MAX,
        ensures
            final(self).wf(),
            (r matches Err(e) && e is AlreadyDeleted) <==> ({
                &&& old(self).inner.databases.spec_contains_name(db_name@)
                &&& {
                    let db = old(self).inner.databases.entries@[
                        old(self).inner.databases.idx_of_name(db_name@)].res;
                    &&& db.tables.spec_contains_name(table_name@)
                    &&& db.tables.entries@[db.tables.idx_of_name(table_name@)].res.deleted
                    &&& hard_delete is Default
                }
            }),
            (r matches Err(e) && e is NotFound)
                <==> !old(self).inner.databases.spec_contains_name(db_name@),
            (r matches Err(e) && e is TableNotFound) <==> ({
                &&& old(self).inner.databases.spec_contains_name(db_name@)
                &&& !old(self).inner.databases.entries@[
                    old(self).inner.databases.idx_of_name(db_name@)]
                    .res.tables.spec_contains_name(table_name@)
            }),
            (r matches Err(e) && e is AlreadyExists) <==> ({
                &&& old(self).inner.databases.spec_contains_name(db_name@)
                &&& {
                    let db = old(self).inner.databases.entries@[
                        old(self).inner.databases.idx_of_name(db_name@)].res;
                    &&& db.tables.spec_contains_name(table_name@)
                    &&& !db.tables.entries@[db.tables.idx_of_name(table_name@)].res.deleted
                    &&& db.tables.spec_contains_name(
                        crate::database::spec_deleted_name(table_name@, now_ns))
                }
            }),
            r matches Err(e) ==> (e is NotFound || e is TableNotFound
                || e is AlreadyDeleted || e is AlreadyExists),
            r matches Err(_) ==> *final(self) == *old(self),
            r matches Ok(ob) ==> {
                let k = old(self).inner.databases.idx_of_name(db_name@);
                let db_old = old(self).inner.databases.entries@[k].res;
                let db_new = final(self).inner.databases.entries@[k].res;
                let t = db_old.tables.idx_of_name(table_name@);
                let t_old = db_old.tables.entries@[t].res;
                let t_new = db_new.tables.entries@[t].res;
                &&& old(self).inner.databases.spec_contains_name(db_name@)
                &&& db_old.tables.spec_contains_name(table_name@)
                &&& final(self).inner.sequence.0 == old(self).inner.sequence.0 + 1
                &&& ob.sequence == final(self).inner.sequence
                &&& t_new.deleted
                &&& t_new.hard_delete_time == spec_hard_delete_time(hard_delete, now_ns,
                    old(self).args.default_hard_delete_duration_ns)
                &&& (t_old.deleted ==> t_new.table_name == t_old.table_name)
                &&& (!t_old.deleted ==> t_new.table_name@
                    == crate::database::spec_deleted_name(table_name@, now_ns))
            },
    {
        let k = match self.inner.databases.find_name(db_name) {
            Some(k) => k,
            None => {
                return Err(CatalogError::NotFound);
            },
        };
        let t = match self.inner.databases.entries[k].res.tables.find_name(table_name) {
            Some(t) => t,
            None => {
                return Err(CatalogError::TableNotFound {
                    db_name: db_name.to_owned(),
                    table_name: table_name.to_owned(),
                });
            },
        };
        let was_deleted = self.inner.databases.entries[k].res.tables.entries[t].res.deleted;
        if was_deleted && matches!(hard_delete, crate::types::HardDeletionTime::Default) {
            return Err(CatalogError::AlreadyDeleted);
        }
        if !was_deleted {
            let new_name = crate::database::make_new_name_using_deleted_time(table_name,
                now_ns);
            if self.inner.databases.entries[k].res.tables.contains_name(new_name.as_str()) {
                return Err(CatalogError::AlreadyExists);
            }
        }
        let hdt = compute_hard_delete_time(hard_delete, now_ns,
            self.args.default_hard_delete_duration_ns);
        let db_id = DbId(self.inner.databases.entries[k].id);
        let table_id = TableId(self.inner.databases.entries[k].res.tables.entries[t].id);
        let log = crate::log::SoftDeleteTableLog {
            database_id: db_id,
            database_name: db_name.to_owned(),
            table_id,
            table_name: table_name.to_owned(),
            deletion_time: now_ns,
            hard_deletion_time: hdt,
        };
        let ghost prev = self.inner;
        let mut entry = self.inner.databases.take_at(k);
        proof {
            assert(prev.databases.entries@[k as int].res.tables.spec_contains_id(table_id.0));
            assert(prev.databases.entries@[k as int].res.tables.idx_of_id(table_id.0)
                == t as int) by {
                let tj = prev.databases.entries@[k as int].res.tables.idx_of_id(table_id.0);
                assert(prev.databases.entries@[k as int].res.tables.entries@[tj].id
                    == table_id.0);
            }
        }
        let outcome = entry.res.apply_soft_delete_table(&log);
        let ghost entry_snap = entry;
        self.inner.databases.put_at(k, entry);
        proof {
            assert(prev.databases.entries@[k as int].id
                == prev.databases.entries@[k as int].res.id.0);
            crate::catalog::lemma_databases_ok_after_put(prev, self.inner, k as int,
                entry_snap);
        }
        match outcome {
            Ok(_) => {},
            Err(e) => {
                // the collision was checked before anything moved
                proof {
                    assert(false);
                }
                return Err(e);
            },
        }
        let next = self.inner.sequence.next();
        self.inner.sequence = next;
        let mut ops: Vec<crate::log::DatabaseCatalogOp> = Vec::new();
        ops.push(crate::log::DatabaseCatalogOp::SoftDeleteTable(log));
        let batch = CatalogBatch::database(now_ns, db_id, db_name.to_owned(), ops);
        Ok(OrderedCatalogBatch::new(batch, next))
    }

    /// Creates the operator token `_admin`, or regenerates it. Creating it
    /// while it exists fails with `TokenNameAlreadyExists`, exactly then;
    /// regenerating replaces only the stored hash and the update time,
    /// leaving name, creation time, expiry and permissions as they were.
    /// Returns the plaintext, handed out once and never persisted, with the
    /// batch for the log.
    pub fn create_admin_token(&mut self, regenerate: bool, now_ns: i64, now_ms: i64)
        -> (r: Result<(String, OrderedCatalogBatch), CatalogError>)
        requires
            old(self).wf(),
            old(self).inner.sequence.0 < u64::MAX,
            old(self).inner.tokens.repo.next_id < u64::MAX,
        ensures
            final(self).wf(),
            (r matches Err(e) && e is TokenNameAlreadyExists) <==> (!regenerate
                && old(self).inner.tokens.repo.spec_contains_name(operator_token_name())),
            (r matches Err(e) && e is MissingAdminTokenToUpdate) <==> (regenerate
                && !old(self).inner.tokens.repo.spec_contains_name(operator_token_name())),
            r matches Err(e) ==> (e is TokenNameAlreadyExists
                || e is MissingAdminTokenToUpdate),
            r matches Err(_) ==> *final(self) == *old(self),
            r matches Ok((token, ob)) ==> {
                &&& crate::tokens::token_plaintext_shape(token@)
                &&& final(self).inner.sequence.0 == old(self).inner.sequence.0 + 1
                &&& ob.sequence == final(self).inner.sequence
                &&& final(self).inner.tokens.repo.spec_contains_name(operator_token_name())
            },
            r matches Ok((token, ob)) ==> !regenerate ==> {
                let e = final(self).inner.tokens.repo.entries@.last();
                &&& e.name@ == operator_token_name()
                &&& e.res.hash@ == crate::tokens::sha512_of(token@)
                &&& e.res.created_at == now_ms
                &&& e.res.expiry is None
                &&& spec_wildcard_permissions(e.res.permissions@)
                &&& final(self).inner.tokens.repo.entries@.drop_last()
                    == old(self).inner.tokens.repo.entries@
            },
            r matches Ok((token, ob)) ==> regenerate ==> {
                let k = old(self).inner.tokens.repo.idx_of_name(operator_token_name());
                let t_old = old(self).inner.tokens.repo.entries@[k].res;
                let t_new = final(self).inner.tokens.repo.entries@[k].res;
                &&& t_new.hash@ == crate::tokens::sha512_of(token@)
                &&& t_new.updated_at == Some(now_ms)
                &&& t_new.name@ == t_old.name@
                &&& t_new.created_at == t_old.created_at
                &&& t_new.expiry == t_old.expiry
                &&& crate::eqv::permissions_eqv(t_new.permissions@, t_old.permissions@)
                &&& forall|i: int|
                    0 <= i < old(self).inner.tokens.repo.entries@.len() && i != k
                        ==> final(self).inner.tokens.repo.entries@[i]
                            == old(self).inner.tokens.repo.entries@[i]
            },
    {
        proof {
            reveal_strlit("_admin");
            assert("_admin"@ == operator_token_name());
        }
        let (token, hash) = crate::tokens::create_token_and_hash();
        if regenerate {
            let token_id = match self.inner.tokens.repo.name_to_id("_admin") {
                Some(id) => id,
                None => {
                    return Err(CatalogError::MissingAdminTokenToUpdate);
                },
            };
            proof {
                let ki = self.inner.tokens.repo.idx_of_name(operator_token_name());
                assert(self.inner.tokens.repo.entries@[ki].id == token_id);
                assert(self.inner.tokens.repo.spec_contains_id(token_id));
                let kj = self.inner.tokens.repo.idx_of_id(token_id);
                assert(self.inner.tokens.repo.entries@[kj].id == token_id);
                assert(kj == ki);
            }
            match self.inner.tokens.update_admin_token_hash(
                crate::types::TokenId(token_id), crate::tokens::copy_bytes(&hash), now_ms)
            {
                Ok(()) => {},
                Err(e) => {
                    proof {
                        assert(false);
                    }
                    return Err(e);
                },
            }
            let next = self.inner.sequence.next();
            self.inner.sequence = next;
            let mut ops: Vec<crate::log::TokenCatalogOp> = Vec::new();
            ops.push(crate::log::TokenCatalogOp::RegenerateAdminToken(
                crate::log::RegenerateAdminTokenDetails {
                    token_id: crate::types::TokenId(token_id),
                    hash,
                    updated_at: now_ms,
                }));
            let batch = CatalogBatch::Token(crate::log::TokenBatch { time_ns: now_ns, ops });
            Ok((token, OrderedCatalogBatch::new(batch, next)))
        } else {
            if self.inner.tokens.repo.contains_name("_admin") {
                return Err(CatalogError::TokenNameAlreadyExists("_admin".to_owned()));
            }
            let token_id = crate::types::TokenId(self.inner.tokens.get_and_increment_next_id());
            let mut info = crate::tokens::TokenInfo::new(token_id, "_admin".to_owned(),
                crate::tokens::copy_bytes(&hash), now_ms, None);
            let mut perms: Vec<crate::log::Permission> = Vec::new();
            perms.push(crate::log::Permission {
                resource_type: crate::log::ResourceType::Wildcard,
                resource_identifier: crate::log::ResourceIdentifier::Wildcard,
                actions: crate::log::Actions::Wildcard,
            });
            info.set_permissions(perms);
            match self.inner.tokens.add_token(token_id, info) {
                Ok(()) => {},
                Err(e) => {
                    proof {
                        assert(false);
                    }
                    return Err(e);
                },
            }
            let next = self.inner.sequence.next();
            self.inner.sequence = next;
            let mut ops: Vec<crate::log::TokenCatalogOp> = Vec::new();
            ops.push(crate::log::TokenCatalogOp::CreateAdminToken(
                crate::log::CreateAdminTokenDetails {
                    token_id,
                    name: "_admin".to_owned(),
                    hash,
                    created_at: now_ms,
                    updated_at: None,
                    expiry: None,
                }));
            let batch = CatalogBatch::Token(crate::log::TokenBatch { time_ns: now_ns, ops });
            Ok((token, OrderedCatalogBatch::new(batch, next)))
        }
    }

    /// Creates a named token with operator permissions. Fails with
    /// `TokenNameAlreadyExists` when the name is taken, exactly then.
    /// Returns the plaintext, handed out once and never persisted.
    pub fn create_named_admin_token_with_permission(&mut self, token_name: &str,
        expiry_ms: Option<i64>, now_ns: i64, now_ms: i64)
        -> (r: Result<(String, OrderedCatalogBatch), CatalogError>)
        requires
            old(self).wf(),
            old(self).inner.sequence.0 < u64::MAX,
            old(self).inner.tokens.repo.next_id < u64::MAX,
        ensures
            final(self).wf(),
            (r matches Err(e) && e is TokenNameAlreadyExists)
                <==> old(self).inner.tokens.repo.spec_contains_name(token_name@),
            r matches Err(e) ==> e is TokenNameAlreadyExists,
            r matches Err(_) ==> *final(self) == *old(self),
            r matches Ok((token, ob)) ==> {
                let e = final(self).inner.tokens.repo.entries@.last();
                &&& crate::tokens::token_plaintext_shape(token@)
                &&& final(self).inner.sequence.0 == old(self).inner.sequence.0 + 1
                &&& ob.sequence == final(self).inner.sequence
                &&& e.name@ == token_name@
                &&& e.res.hash@ == crate::tokens::sha512_of(token@)
                &&& e.res.created_at == now_ms
                &&& e.res.expiry == expiry_ms
                &&& spec_wildcard_permissions(e.res.permissions@)
                &&& final(self).inner.tokens.repo.entries@.drop_last()
                    == old(self).inner.tokens.repo.entries@
            },
    {
        if self.inner.tokens.repo.contains_name(token_name) {
            return Err(CatalogError::TokenNameAlreadyExists(token_name.to_owned()));
        }
        let (token, hash) = crate::tokens::create_token_and_hash();
        let token_id = crate::types::TokenId(self.inner.tokens.get_and_increment_next_id());
        let mut info = crate::tokens::TokenInfo::new(token_id, token_name.to_owned(),
            crate::tokens::copy_bytes(&hash), now_ms, expiry_ms);
        let mut perms: Vec<crate::log::Permission> = Vec::new();
        perms.push(crate::log::Permission {
            resource_type: crate::log::ResourceType::Wildcard,
            resource_identifier: crate::log::ResourceIdentifier::Wildcard,
            actions: crate::log::Actions::Wildcard,
        });
        info.set_permissions(perms);
        match self.inner.tokens.add_token(token_id, info) {
            Ok(()) => {},
            Err(e) => {
                proof {
                    assert(false);
                }
                return Err(e);
            },
        }
        let next = self.inner.sequence.next();
        self.inner.sequence = next;
        let mut ops: Vec<crate::log::TokenCatalogOp> = Vec::new();
        ops.push(crate::log::TokenCatalogOp::CreateAdminToken(
            crate::log::CreateAdminTokenDetails {
                token_id,
                name: token_name.to_owned(),
                hash,
                created_at: now_ms,
                updated_at: None,
                expiry: expiry_ms,
            }));
        let batch = CatalogBatch::Token(crate::log::TokenBatch { time_ns: now_ns, ops });
        Ok((token, OrderedCatalogBatch::new(batch, next)))
    }

    /// Creates a token scoped to the given permissions. Fails with
    /// `TokenNameAlreadyExists` when the name is taken, exactly then.
    /// Returns the plaintext, handed out once and never persisted.
    pub fn create_scoped_token(&mut self, token_name: &str,
        permissions: Vec<crate::log::Permission>, expiry_ms: Option<i64>, now_ns: i64,
        now_ms: i64) -> (r: Result<(String, OrderedCatalogBatch), CatalogError>)
        requires
            old(self).wf(),
            old(self).inner.sequence.0 < u64::MAX,
            old(self).inner.tokens.repo.next_id < u64::MAX,
        ensures
            final(self).wf(),
            (r matches Err(e) && e is TokenNameAlreadyExists)
                <==> old(self).inner.tokens.repo.spec_contains_name(token_name@),
            r matches Err(e) ==> e is TokenNameAlreadyExists,
            r matches Err(_) ==> *final(self) == *old(self),
            r matches Ok((token, ob)) ==> {
                let e = final(self).inner.tokens.repo.entries@.last();
                &&& crate::tokens::token_plaintext_shape(token@)
                &&& final(self).inner.sequence.0 == old(self).inner.sequence.0 + 1
                &&& ob.sequence == final(self).inner.sequence
                &&& e.name@ == token_name@
                &&& e.res.hash@ == crate::tokens::sha512_of(token@)
                &&& e.res.created_at == now_ms
                &&& e.res.expiry == expiry_ms
                &&& crate::eqv::permissions_eqv(e.res.permissions@, permissions@)
                &&& final(self).inner.tokens.repo.entries@.drop_last()
                    == old(self).inner.tokens.repo.entries@
            },
    {
        if self.inner.tokens.repo.contains_name(token_name) {
            return Err(CatalogError::TokenNameAlreadyExists(token_name.to_owned()));
        }
        let (token, hash) = crate::tokens::create_token_and_hash();
        let token_id = crate::types::TokenId(self.inner.tokens.get_and_increment_next_id());
        let mut info = crate::tokens::TokenInfo::new(token_id, token_name.to_owned(),
            crate::tokens::copy_bytes(&hash), now_ms, expiry_ms);
        info.set_permissions(crate::tokens::dup_permissions(&permissions));
        match self.inner.tokens.add_token(token_id, info) {
            Ok(()) => {},
            Err(e) => {
                proof {
                    assert(false);
                }
                return Err(e);
            },
        }
        let next = self.inner.sequence.next();
        self.inner.sequence = next;
        let mut ops: Vec<crate::log::TokenCatalogOp> = Vec::new();
        ops.push(crate::log::TokenCatalogOp::CreateScopedToken(
            crate::log::CreateScopedTokenDetails {
                token_id,
                name: token_name.to_owned(),
                hash,
                created_at: now_ms,
                updated_at: None,
                expiry: expiry_ms,
                permissions,
            }));
        let batch = CatalogBatch::Token(crate::log::TokenBatch { time_ns: now_ns, ops });
        Ok((token, OrderedCatalogBatch::new(batch, next)))
    }

    /// Sets the retention period of a database, in nanoseconds.
    pub fn set_retention_period(&mut self, db_name: &str, duration_ns: u64, now_ns: i64)
        -> (r: Result<OrderedCatalogBatch, CatalogError>)
        requires
            old(self).wf(),
            old(self).inner.sequence.0 < u64::MAX,
        ensures
            final(self).wf(),
            (r matches Err(e) && e is NotFound)
                <==> !old(self).inner.databases.spec_contains_name(db_name@),
            r matches Err(e) ==> e is NotFound,
            r matches Err(_) ==> *final(self) == *old(self),
            r matches Ok(ob) ==> {
                let k = old(self).inner.databases.idx_of_name(db_name@);
                &&& final(self).inner.databases.entries@[k].res.retention_period
                    == crate::types::RetentionPeriod::Duration(duration_ns)
                &&& final(self).inner.sequence.0 == old(self).inner.sequence.0 + 1
                &&& ob.sequence == final(self).inner.sequence
                &&& forall|i: int|
                    0 <= i < old(self).inner.databases.entries@.len() && i != k
                        ==> final(self).inner.databases.entries@[i]
                            == old(self).inner.databases.entries@[i]
            },
    {
        self.update_retention(db_name, crate::types::RetentionPeriod::Duration(duration_ns),
            now_ns)
    }

    /// Clears the retention period of a database, making it indefinite.
    pub fn clear_retention_period(&mut self, db_name: &str, now_ns: i64)
        -> (r: Result<OrderedCatalogBatch, CatalogError>)
        requires
            old(self).wf(),
            old(self).inner.sequence.0 < u64::MAX,
        ensures
            final(self).wf(),
            (r matches Err(e) && e is NotFound)
                <==> !old(self).inner.databases.spec_contains_name(db_name@),
            r matches Err(e) ==> e is NotFound,
            r matches Err(_) ==> *final(self) == *old(self),
            r matches Ok(ob) ==> {
                let k = old(self).inner.databases.idx_of_name(db_name@);
                &&& final(self).inner.databases.entries@[k].res.retention_period
                    is Indefinite
                &&& final(self).inner.sequence.0 == old(self).inner.sequence.0 + 1
                &&& ob.sequence == final(self).inner.sequence
                &&& forall|i: int|
                    0 <= i < old(self).inner.databases.entries@.len() && i != k
                        ==> final(self).inner.databases.entries@[i]
                            == old(self).inner.databases.entries@[i]
            },
    {
        self.update_retention(db_name, crate::types::RetentionPeriod::Indefinite, now_ns)
    }

    /// Replaces the retention period of a database and logs the matching
    /// operation.
    fn update_retention(&mut self, db_name: &str, period: crate::types::RetentionPeriod,
        now_ns: i64) -> (r: Result<OrderedCatalogBatch, CatalogError>)
        requires
            old(self).wf(),
            old(self).inner.sequence.0 < u64::MAX,
        ensures
            final(self).wf(),
            (r matches Err(e) && e is NotFound)
                <==> !old(self).inner.databases.spec_contains_name(db_name@),
            r matches Err(e) ==> e is NotFound,
            r matches Err(_) ==> *final(self) == *old(self),
            r matches Ok(ob) ==> {
                let k = old(self).inner.databases.idx_of_name(db_name@);
                &&& final(self).inner.databases.entries@[k].res.retention_period == period
                &&& final(self).inner.sequence.0 == old(self).inner.sequence.0 + 1
                &&& ob.sequence == final(self).inner.sequence
                &&& forall|i: int|
                    0 <= i < old(self).inner.databases.entries@.len() && i != k
                        ==> final(self).inner.databases.entries@[i]
                            == old(self).inner.databases.entries@[i]
            },
    {
        let k = match self.inner.databases.find_name(db_name) {
            Some(k) => k,
            None => {
                return Err(CatalogError::NotFound);
            },
        };
        let db_id = DbId(self.inner.databases.entries[k].id);
        let ghost prev = self.inner;
        let mut entry = self.inner.databases.take_at(k);
        entry.res.retention_period = period;
        let ghost entry_snap = entry;
        self.inner.databases.put_at(k, entry);
        proof {
            assert(prev.databases.entries@[k as int].id
                == prev.databases.entries@[k as int].res.id.0);
            crate::catalog::lemma_databases_ok_after_put(prev, self.inner, k as int,
                entry_snap);
        }
        let next = self.inner.sequence.next();
        self.inner.sequence = next;
        let mut ops: Vec<crate::log::DatabaseCatalogOp> = Vec::new();
        match period {
            crate::types::RetentionPeriod::Duration(_) => {
                ops.push(crate::log::DatabaseCatalogOp::SetRetentionPeriod(
                    crate::log::SetRetentionPeriodLog {
                        database_name: db_name.to_owned(),
                        retention_period: period,
                    }));
            },
            crate::types::RetentionPeriod::Indefinite => {
                ops.push(crate::log::DatabaseCatalogOp::ClearRetentionPeriod(
                    crate::log::ClearRetentionPeriodLog {
                        database_name: db_name.to_owned(),
                    }));
            },
        }
        let batch = CatalogBatch::database(now_ns, db_id, db_name.to_owned(), ops);
        Ok(OrderedCatalogBatch::new(batch, next))
    }

    /// Deletes the token of that name. The operator token cannot be
    /// deleted: asking for it fails with `CannotDeleteOperatorToken`,
    /// exactly then; an absent token fails with `NotFound`.
    pub fn delete_token(&mut self, token_name: &str, now_ns: i64)
        -> (r: Result<OrderedCatalogBatch, CatalogError>)
        requires
            old(self).wf(),
            old(self).inner.sequence.0 < u64::MAX,
        ensures
            final(self).wf(),
            (r matches Err(e) && e is CannotDeleteOperatorToken)
                <==> token_name@ == operator_token_name(),
            (r matches Err(e) && e is NotFound) <==> (token_name@ != operator_token_name()
                && !old(self).inner.tokens.repo.spec_contains_name(token_name@)),
            r matches Err(e) ==> (e is CannotDeleteOperatorToken || e is NotFound),
            r matches Err(_) ==> *final(self) == *old(self),
            r matches Ok(ob) ==> {
                &&& !final(self).inner.tokens.repo.spec_contains_name(token_name@)
                &&& final(self).inner.sequence.0 == old(self).inner.sequence.0 + 1
                &&& ob.sequence == final(self).inner.sequence
            },
    {
        proof {
            reveal_strlit("_admin");
            assert("_admin"@ == operator_token_name());
        }
        if str_eq(token_name, "_admin") {
            return Err(CatalogError::CannotDeleteOperatorToken);
        }
        match self.inner.tokens.delete_token(token_name) {
            Ok(()) => {},
            Err(e) => {
                return Err(e);
            },
        }
        proof {
            assert forall|i: int| 0 <= i < self.inner.tokens.repo.entries@.len() implies
                (#[trigger] self.inner.tokens.repo.entries@[i]).name@ != token_name@ by {
                let k = old(self).inner.tokens.repo.idx_of_name(token_name@);
                if i < k {
                    assert(self.inner.tokens.repo.entries@[i]
                        == old(self).inner.tokens.repo.entries@[i]);
                } else {
                    assert(self.inner.tokens.repo.entries@[i]
                        == old(self).inner.tokens.repo.entries@[i + 1]);
                }
            }
        }
        let next = self.inner.sequence.next();
        self.inner.sequence = next;
        let mut ops: Vec<crate::log::TokenCatalogOp> = Vec::new();
        ops.push(crate::log::TokenCatalogOp::DeleteToken(crate::log::DeleteTokenDetails {
            token_name: token_name.to_owned(),
        }));
        let batch = CatalogBatch::Token(crate::log::TokenBatch { time_ns: now_ns, ops });
        Ok(OrderedCatalogBatch::new(batch, next))
    }

    /// Creates a table in a database, with the given tag columns forming
    /// the series key, the given fields, and the time column appended.
    /// Fails with `NotFound` when the database is absent and with
    /// `AlreadyExists` when a table of that name exists, each exactly then.
    pub fn create_table(&mut self, db_name: &str, table_name: &str, tags: &Vec<String>,
        fields: &Vec<(String, crate::log::FieldDataType)>, now_ns: i64)
        -> (r: Result<OrderedCatalogBatch, CatalogError>)
        requires
            old(self).wf(),
            old(self).inner.sequence.0 < u64::MAX,
            tags@.len() + fields@.len() < usize::MAX,
        ensures
            final(self).wf(),
            (r matches Err(e) && e is NotFound)
                <==> !old(self).inner.databases.spec_contains_name(db_name@),
            (old(self).inner.databases.spec_contains_name(db_name@) && ({
                let db = old(self).inner.databases.entries@[
                    old(self).inner.databases.idx_of_name(db_name@)].res;
                db.tables.spec_contains_name(table_name@)
            })) ==> (r matches Err(e) && e is AlreadyExists),
            r matches Err(e) ==> (e is NotFound || e is AlreadyExists
                || e is TooManyTables || e is TooManyTagColumns
                || e is InvalidConfiguration),
            r matches Err(_) ==> *final(self) == *old(self),
            (old(self).inner.databases.spec_contains_name(db_name@)
                && !old(self).inner.databases.entries@[
                    old(self).inner.databases.idx_of_name(db_name@)]
                    .res.tables.spec_contains_name(table_name@)
                && old(self).inner.databases.entries@[
                    old(self).inner.databases.idx_of_name(db_name@)]
                    .res.tables.next_id < u64::MAX
                && create_table_inputs_ok(tags@, fields@)) ==> r is Ok,
            r matches Ok(ob) ==> {
                let k = old(self).inner.databases.idx_of_name(db_name@);
                let db_new = final(self).inner.databases.entries@[k].res;
                let t = db_new.tables.entries@.last().res;
                &&& final(self).inner.sequence.0 == old(self).inner.sequence.0 + 1
                &&& ob.sequence == final(self).inner.sequence
                &&& db_new.tables.spec_contains_name(table_name@)
                &&& t.table_name@ == table_name@
                &&& t.wf()
                &&& t.series_key@.len() == tags@.len()
                &&& t.columns.entries@.len() == tags@.len() + fields@.len() + 1
                &&& forall|i: int|
                    0 <= i < tags@.len() ==> (#[trigger] t.columns.entries@[i]).name@
                        == tags@[i]@ && t.columns.entries@[i].res.data_type is Tag
                &&& forall|j: int|
                    0 <= j < fields@.len()
                        ==> (#[trigger] t.columns.entries@[tags@.len() + j]).name@
                            == fields@[j].0@
                            && t.columns.entries@[tags@.len() + j].res.data_type
                                == fields@[j].1.spec_column_type()
                &&& t.columns.entries@.last().name@ == crate::table::time_name()
                &&& t.columns.entries@.last().res.data_type is Timestamp
                &&& forall|i: int|
                    0 <= i < tags@.len() ==> (#[trigger] t.series_key@[i]).0 == i
            },
    {
        let k = match self.inner.databases.find_name(db_name) {
            Some(k) => k,
            None => {
                return Err(CatalogError::NotFound);
            },
        };
        if self.inner.databases.entries[k].res.tables.contains_name(table_name) {
            return Err(CatalogError::AlreadyExists);
        }
        // the columns: tags first, then fields, the time column last
        let mut columns: Vec<(crate::types::ColumnId, String,
            crate::types::InfluxColumnType)> = Vec::new();
        let mut field_definitions: Vec<crate::log::FieldDefinition> = Vec::new();
        let mut key: Vec<crate::types::ColumnId> = Vec::new();
        let mut i: usize = 0;
        while i < tags.len()
            invariant
                *self == *old(self),
                i <= tags@.len(),
                columns@.len() == i,
                field_definitions@.len() == i,
                key@.len() == i,
                tags@.len() + fields@.len() < usize::MAX,
                forall|j: int|
                    0 <= j < i ==> (#[trigger] columns@[j]).2 is Tag
                        && columns@[j].0.0 == j && columns@[j].1@ == tags@[j]@,
                forall|j: int| 0 <= j < i ==> (#[trigger] key@[j]).0 == j,
                crate::table::count_tag_cols(columns@) == i,
            decreases tags@.len() - i,
        {
            proof {
                assert(columns@.push((crate::types::ColumnId(i as u64),
                    tags@[i as int], crate::types::InfluxColumnType::Tag)).drop_last()
                    =~= columns@);
            }
            let id = crate::types::ColumnId(i as u64);
            columns.push((id, tags[i].clone(), crate::types::InfluxColumnType::Tag));
            field_definitions.push(crate::log::FieldDefinition {
                name: tags[i].clone(),
                id,
                data_type: crate::log::FieldDataType::Tag,
            });
            key.push(id);
            i += 1;
        }
        let mut j: usize = 0;
        while j < fields.len()
            invariant
                *self == *old(self),
                j <= fields@.len(),
                i == tags@.len(),
                columns@.len() == i + j,
                field_definitions@.len() == i + j,
                tags@.len() + fields@.len() < usize::MAX,
                forall|m: int|
                    0 <= m < i ==> (#[trigger] columns@[m]).2 is Tag
                        && columns@[m].0.0 == m && columns@[m].1@ == tags@[m]@,
                forall|m: int|
                    0 <= m < j ==> (#[trigger] columns@[i + m]).0.0 == i + m
                        && columns@[i + m].1@ == fields@[m].0@
                        && columns@[i + m].2 == fields@[m].1.spec_column_type(),
                crate::table::count_tag_cols(columns@)
                    == i + spec_count_tag_fields(fields@.subrange(0, j as int)),
            decreases fields@.len() - j,
        {
            proof {
                assert(fields@.subrange(0, (j + 1) as int).drop_last()
                    =~= fields@.subrange(0, j as int));
            }
            let ghost before_cols = columns@;
            let id = crate::types::ColumnId((i + j) as u64);
            columns.push((id, fields[j].0.clone(), fields[j].1.as_column_type()));
            proof {
                assert(columns@.drop_last() =~= before_cols);
            }
            field_definitions.push(crate::log::FieldDefinition {
                name: fields[j].0.clone(),
                id,
                data_type: fields[j].1,
            });
            j += 1;
        }
        proof {
            assert(fields@.subrange(0, fields@.len() as int) =~= fields@);
        }
        let ghost cols_before_time = columns@;
        let time_id = crate::types::ColumnId((i + j) as u64);
        columns.push((time_id, "time".to_owned(), crate::types::InfluxColumnType::Timestamp));
        proof {
            reveal_strlit("time");
            assert("time"@ == crate::table::time_name());
            assert(columns@.drop_last() =~= cols_before_time);
        }
        field_definitions.push(crate::log::FieldDefinition {
            name: "time".to_owned(),
            id: time_id,
            data_type: crate::log::FieldDataType::Timestamp,
        });
        let db_id = DbId(self.inner.databases.entries[k].id);
        if self.inner.databases.entries[k].res.tables.next_id() == u64::MAX {
            return Err(CatalogError::TooManyTables(usize::MAX));
        }
        let table_id = crate::types::TableId(self.inner.databases.entries[k].res.tables
            .next_id());
        proof {
            // clean inputs build clean columns, so the table is owed
            if create_table_inputs_ok(tags@, fields@) {
                let n = columns@.len() - 1;
                assert(crate::table::cols_distinct(columns@)) by {
                    assert forall|a: int, b: int| 0 <= a < b < columns@.len() implies
                        (#[trigger] columns@[a]).0.0 != (#[trigger] columns@[b]).0.0
                            && columns@[a].1@ != columns@[b].1@ by {
                        if a < n {
                            assert(columns@[a] == cols_before_time[a]);
                        }
                        if b < n {
                            assert(columns@[b] == cols_before_time[b]);
                        }
                        if a < tags@.len() {
                            assert(columns@[a].1@ == tags@[a]@);
                        } else if a < n {
                            assert(cols_before_time[tags@.len() + (a - tags@.len())].1@
                                == fields@[a - tags@.len()].0@);
                        }
                        if b < tags@.len() {
                            assert(columns@[b].1@ == tags@[b]@);
                        } else if b < n {
                            assert(cols_before_time[tags@.len() + (b - tags@.len())].1@
                                == fields@[b - tags@.len()].0@);
                        }
                    }
                }
                assert(crate::table::cols_ids_in_range(columns@)) by {
                    assert forall|j2: int| 0 <= j2 < columns@.len() implies
                        (#[trigger] columns@[j2]).0.0 < u64::MAX by {
                        if j2 < n {
                            assert(columns@[j2] == cols_before_time[j2]);
                            if j2 >= tags@.len() {
                                assert(cols_before_time[
                                    tags@.len() + (j2 - tags@.len())].0.0
                                    == tags@.len() + (j2 - tags@.len()));
                            }
                        }
                        assert(columns@[j2].0.0 == j2);
                        assert(j2 < tags@.len() + fields@.len() + 1);
                    }
                }
                assert(crate::table::key_ids_among(key@, columns@)) by {
                    assert forall|i: int| 0 <= i < key@.len() implies exists|j: int|
                        0 <= j < columns@.len()
                            && (#[trigger] columns@[j]).0 == (#[trigger] key@[i]) by {
                        assert(columns@[i].0.0 == i && key@[i].0 == i);
                        assert(columns@[i].0 == key@[i]);
                    }
                }
                assert(crate::table::count_tag_cols(columns@)
                    <= crate::table::NUM_TAG_COLUMNS_LIMIT);
            }
        }
        let table = match crate::table::TableDefinition::new(table_id,
            table_name.to_owned(), columns, key)
        {
            Ok(t) => t,
            Err(e) => {
                return Err(e);
            },
        };
        let ghost prev = self.inner;
        let mut entry = self.inner.databases.take_at(k);
        match entry.res.tables.insert(table_id.0, table_name.to_owned(), table) {
            Ok(()) => {},
            Err(e) => {
                proof {
                    assert(false);
                }
                let ghost entry_snap = entry;
                self.inner.databases.put_at(k, entry);
                return Err(e);
            },
        }
        proof {
            let n = entry.res.tables.entries@.len() - 1;
            assert(forall|ii: int|
                0 <= ii < n ==> #[trigger] entry.res.tables.entries@[ii]
                    == entry.res.tables.entries@.drop_last()[ii]);
            assert forall|ii: int| 0 <= ii < entry.res.tables.entries@.len() implies {
                let e = #[trigger] entry.res.tables.entries@[ii];
                e.id == e.res.table_id.0 && e.name@ == e.res.table_name@ && e.res.wf()
            } by {
                if ii < n {
                    let e = prev.databases.entries@[k as int].res.tables.entries@[ii];
                    assert(e.id == e.res.table_id.0 && e.name@ == e.res.table_name@
                        && e.res.wf());
                }
            }
        }
        let ghost entry_snap = entry;
        self.inner.databases.put_at(k, entry);
        proof {
            assert(prev.databases.entries@[k as int].id
                == prev.databases.entries@[k as int].res.id.0);
            crate::catalog::lemma_databases_ok_after_put(prev, self.inner, k as int,
                entry_snap);
        }
        let next = self.inner.sequence.next();
        self.inner.sequence = next;
        let mut ops: Vec<crate::log::DatabaseCatalogOp> = Vec::new();
        ops.push(crate::log::DatabaseCatalogOp::CreateTable(crate::log::CreateTableLog {
            database_id: db_id,
            database_name: db_name.to_owned(),
            table_id,
            table_name: table_name.to_owned(),
            field_definitions,
            key: crate::database::column_id_range(i),
        }));
        let batch = CatalogBatch::database(now_ns, db_id, db_name.to_owned(), ops);
        Ok(OrderedCatalogBatch::new(batch, next))
    }

    /// Hard deletes a table, removing it from its database for good.
    pub fn hard_delete_table(&mut self, db_id: DbId, table_id: TableId, now_ns: i64)
        -> (r: Result<OrderedCatalogBatch, CatalogError>)
        requires
            old(self).wf(),
            old(self).inner.sequence.0 < u64::MAX,
        ensures
            final(self).wf(),
            (r matches Err(e) && e is NotFound) <==> (
                !old(self).inner.databases.spec_contains_id(db_id.0)
                || !old(self).inner.databases.entries@[
                    old(self).inner.databases.idx_of_id(db_id.0)]
                    .res.tables.spec_contains_id(table_id.0)),
            r matches Err(e) ==> e is NotFound,
            r matches Err(_) ==> *final(self) == *old(self),
            r matches Ok(ob) ==> {
                let k = old(self).inner.databases.idx_of_id(db_id.0);
                let db_new = final(self).inner.databases.entries@[k].res;
                &&& !db_new.tables.spec_contains_id(table_id.0)
                &&& final(self).inner.sequence.0 == old(self).inner.sequence.0 + 1
                &&& ob.sequence == final(self).inner.sequence
                &&& forall|i: int|
                    0 <= i < old(self).inner.databases.entries@.len() && i != k
                        ==> final(self).inner.databases.entries@[i]
                            == old(self).inner.databases.entries@[i]
            },
    {
        let k = match self.inner.databases.find_id(db_id.0) {
            Some(k) => k,
            None => {
                return Err(CatalogError::NotFound);
            },
        };
        if !self.inner.databases.entries[k].res.tables.contains_id(table_id.0) {
            return Err(CatalogError::NotFound);
        }
        let ghost prev = self.inner;
        let mut entry = self.inner.databases.take_at(k);
        entry.res.tables.remove(table_id.0);
        proof {
            assert forall|ii: int| 0 <= ii < entry.res.tables.entries@.len() implies {
                let e = #[trigger] entry.res.tables.entries@[ii];
                e.id == e.res.table_id.0 && e.name@ == e.res.table_name@ && e.res.wf()
            } by {
                let t = prev.databases.entries@[k as int].res.tables.idx_of_id(table_id.0);
                let before = prev.databases.entries@[k as int].res.tables.entries@;
                if ii < t {
                    assert(entry.res.tables.entries@[ii] == before[ii]);
                    let e = before[ii];
                    assert(e.id == e.res.table_id.0 && e.name@ == e.res.table_name@
                        && e.res.wf());
                } else {
                    assert(entry.res.tables.entries@[ii] == before[ii + 1]);
                    let e = before[ii + 1];
                    assert(e.id == e.res.table_id.0 && e.name@ == e.res.table_name@
                        && e.res.wf());
                }
            }
        }
        let ghost entry_snap = entry;
        self.inner.databases.put_at(k, entry);
        proof {
            assert(prev.databases.entries@[k as int].id
                == prev.databases.entries@[k as int].res.id.0);
            crate::catalog::lemma_databases_ok_after_put(prev, self.inner, k as int,
                entry_snap);
        }
        let next = self.inner.sequence.next();
        self.inner.sequence = next;
        let mut ops: Vec<crate::log::DeleteOp> = Vec::new();
        ops.push(crate::log::DeleteOp::DeleteTable(db_id, table_id));
        let batch = CatalogBatch::Delete(crate::log::DeleteBatch { time_ns: now_ns, ops });
        Ok(OrderedCatalogBatch::new(batch, next))
    }

    /// Looks a database up by name, composing its creation batch where it
    /// is absent; nothing is applied. The write path uses this to extend
    /// the catalog before admitting rows.
    pub fn db_or_create(&self, db_name: &str, retention_ns: Option<u64>, now_ns: i64)
        -> (r: Result<(DbId, Option<CatalogBatch>), CatalogError>)
        requires
            self.wf(),
        ensures
            (r matches Err(e) && e is TooManyDbs)
                <==> (!self.inner.databases.spec_contains_name(db_name@)
                    && count_active_dbs(self.inner.databases.entries@)
                        >= self.limits.num_dbs),
            r matches Err(e) ==> e is TooManyDbs,
            r matches Ok((id, composed)) ==> {
                if self.inner.databases.spec_contains_name(db_name@) {
                    &&& id.0 == self.inner.databases.entries@[
                        self.inner.databases.idx_of_name(db_name@)].id
                    &&& composed is None
                } else {
                    &&& id.0 == self.inner.databases.next_id
                    &&& composed is Some
                }
            },
    {
        match self.inner.databases.name_to_id(db_name) {
            Some(id) => Ok((DbId(id), None)),
            None => {
                if self.database_count() >= self.limits.num_dbs {
                    return Err(CatalogError::TooManyDbs(self.limits.num_dbs));
                }
                let db_id = DbId(self.inner.databases.next_id());
                let mut ops: Vec<crate::log::DatabaseCatalogOp> = Vec::new();
                ops.push(crate::log::DatabaseCatalogOp::CreateDatabase(
                    crate::log::CreateDatabaseLog {
                        database_id: db_id,
                        database_name: db_name.to_owned(),
                        retention_period: retention_ns,
                    }));
                let batch = CatalogBatch::database(now_ns, db_id, db_name.to_owned(), ops);
                Ok((db_id, Some(batch)))
            },
        }
    }

    /// Replays a list of ordered batches from the log, in order. Each must
    /// consume exactly the next sequence number and change the catalog;
    /// anything else means a corrupt log. After a successful replay the
    /// sequence has advanced by exactly the number of batches replayed.
    pub fn replay(&mut self, batches: &Vec<OrderedCatalogBatch>)
        -> (r: Result<(), CatalogError>)
        requires
            old(self).wf(),
            old(self).inner.sequence.0 + batches@.len() <= u64::MAX,
        ensures
            final(self).wf(),
            r matches Ok(()) ==> final(self).inner.sequence.0
                == old(self).inner.sequence.0 + batches@.len(),
    {
        let mut i: usize = 0;
        while i < batches.len()
            invariant
                self.wf(),
                i <= batches@.len(),
                old(self).inner.sequence.0 + batches@.len() <= u64::MAX,
                self.inner.sequence.0 == old(self).inner.sequence.0 + i,
            decreases batches@.len() - i,
        {
            let expected = self.inner.sequence.next();
            if batches[i].sequence.get() != expected.get() {
                return Err(CatalogError::InvalidConfiguration);
            }
            // each logged batch goes through the same application the
            // online write path uses
            match self.apply_ordered_catalog_batch(&batches[i]) {
                Ok(true) => {},
                Ok(false) => {
                    return Err(CatalogError::InvalidConfiguration);
                },
                Err(e) => {
                    return Err(e);
                },
            }
            i += 1;
        }
        Ok(())
    }
}

/// How many of the declared fields are tag columns.
pub open spec fn spec_count_tag_fields(fields: Seq<(String, crate::log::FieldDataType)>)
    -> nat
    decreases fields.len(),
{
    if fields.len() == 0 {
        0
    } else {
        spec_count_tag_fields(fields.drop_last())
            + if fields.last().1 is Tag { 1nat } else { 0nat }
    }
}

/// Whether table-creation inputs are clean: tag and field names pairwise
/// distinct, none reserved for the time column, and the tag columns within
/// their limit.
pub open spec fn create_table_inputs_ok(tags: Seq<String>,
    fields: Seq<(String, crate::log::FieldDataType)>) -> bool {
    &&& forall|i: int, j: int|
        0 <= i < j < tags.len() ==> (#[trigger] tags[i])@ != (#[trigger] tags[j])@
    &&& forall|i: int, j: int|
        0 <= i < j < fields.len() ==> (#[trigger] fields[i]).0@ != (#[trigger] fields[j]).0@
    &&& forall|i: int, j: int|
        0 <= i < tags.len() && 0 <= j < fields.len()
            ==> (#[trigger] tags[i])@ != (#[trigger] fields[j]).0@
    &&& forall|i: int| 0 <= i < tags.len() ==> (#[trigger] tags[i])@ != crate::table::time_name()
    &&& forall|j: int|
        0 <= j < fields.len() ==> (#[trigger] fields[j]).0@ != crate::table::time_name()
    &&& tags.len() + spec_count_tag_fields(fields) <= crate::table::NUM_TAG_COLUMNS_LIMIT
}

/// A single permission granting every action on every resource: what the
/// operator tokens carry.
pub open spec fn spec_wildcard_permissions(perms: Seq<crate::log::Permission>) -> bool {
    &&& perms.len() == 1
    &&& perms[0].resource_type is Wildcard
    &&& perms[0].resource_identifier is Wildcard
    &&& perms[0].actions is Wildcard
}

/// How many tables the database entries hold together, deleted ones
/// included.
pub open spec fn spec_total_tables(s: Seq<RepoEntry<DatabaseSchema>>) -> nat
    decreases s.len(),
{
    if s.len() == 0 {
        0
    } else {
        spec_total_tables(s.drop_last()) + s.last().res.tables.entries@.len()
    }
}

/// An unbounded count clamped into the `u64` range.
pub open spec fn sat_u64(v: nat) -> nat {
    if v > u64::MAX {
        u64::MAX as nat
    } else {
        v
    }
}

/// Saturating addition of two counts.
fn sat_add_u64(a: u64, b: u64) -> (r: u64)
    ensures
        r == sat_u64((a + b) as nat),
{
    if a <= u64::MAX - b {
        a + b
    } else {
        u64::MAX
    }
}

/// How many triggers of one kind the catalog's databases hold together.
pub open spec fn spec_num_triggers_kind(s: Seq<RepoEntry<DatabaseSchema>>, kind: int) -> nat
    decreases s.len(),
{
    if s.len() == 0 {
        0
    } else {
        spec_num_triggers_kind(s.drop_last(), kind) + crate::database::count_triggers_kind(
            s.last().res.processing_engine_triggers.entries@, kind)
    }
}

/// The retention cutoffs of one database's tables: one entry per table
/// that is not soft deleted, in table order, each carrying the database's
/// cutoff.
pub open spec fn spec_table_cutoffs(db_id: DbId, cutoff: i64,
    ts: Seq<RepoEntry<crate::table::TableDefinition>>) -> Seq<(DbId, TableId, i64)>
    decreases ts.len(),
{
    if ts.len() == 0 {
        Seq::empty()
    } else {
        spec_table_cutoffs(db_id, cutoff, ts.drop_last()) + if !ts.last().res.deleted {
            seq![(db_id, TableId(ts.last().id), cutoff)]
        } else {
            Seq::empty()
        }
    }
}

/// The retention cutoffs one database entry contributes: nothing where the
/// database is soft deleted or its retention is indefinite.
pub open spec fn spec_db_cutoffs(e: RepoEntry<DatabaseSchema>, now_ns: i64)
    -> Seq<(DbId, TableId, i64)> {
    match e.res.retention_period {
        crate::types::RetentionPeriod::Indefinite => Seq::empty(),
        crate::types::RetentionPeriod::Duration(d) => if e.res.deleted {
            Seq::empty()
        } else {
            spec_table_cutoffs(DbId(e.id), crate::database::clamp_i64(now_ns - d) as i64,
                e.res.tables.entries@)
        },
    }
}

/// The retention cutoffs over every database entry, in catalog order.
pub open spec fn spec_cutoff_map(s: Seq<RepoEntry<DatabaseSchema>>, now_ns: i64)
    -> Seq<(DbId, TableId, i64)>
    decreases s.len(),
{
    if s.len() == 0 {
        Seq::empty()
    } else {
        spec_cutoff_map(s.drop_last(), now_ns) + spec_db_cutoffs(s.last(), now_ns)
    }
}

/// The scheduled hard-deletion instant for a soft deletion: never, right/// The scheduled hard-deletion instant for a soft deletion: never, right
/// now, after the configured default duration (saturating at the largest
/// representable instant), or a given time with past times normalized to
/// now.
pub open spec fn spec_hard_delete_time(h: crate::types::HardDeletionTime, now_ns: i64,
    default_ns: u64) -> Option<i64> {
    match h {
        crate::types::HardDeletionTime::Never => None,
        crate::types::HardDeletionTime::Now => Some(now_ns),
        crate::types::HardDeletionTime::Default => Some(sat_add_i64_u64(now_ns, default_ns)),
        crate::types::HardDeletionTime::Timestamp(t) => Some(if t < now_ns { now_ns } else { t }),
    }
}

/// Addition of a duration to an instant, saturating at the largest
/// representable instant.
pub open spec fn sat_add_i64_u64(a: i64, d: u64) -> i64 {
    if a + d > i64::MAX {
        i64::MAX
    } else {
        (a + d) as i64
    }
}

/// Computes the scheduled hard-deletion instant.
pub fn compute_hard_delete_time(h: crate::types::HardDeletionTime, now_ns: i64,
    default_ns: u64) -> (r: Option<i64>)
    ensures
        r == spec_hard_delete_time(h, now_ns, default_ns),
{
    match h {
        crate::types::HardDeletionTime::Never => None,
        crate::types::HardDeletionTime::Now => Some(now_ns),
        crate::types::HardDeletionTime::Default => {
            let wide: i128 = now_ns as i128 + default_ns as i128;
            if wide > i64::MAX as i128 {
                Some(i64::MAX)
            } else {
                Some(wide as i64)
            }
        },
        crate::types::HardDeletionTime::Timestamp(t) => {
            if t < now_ns {
                Some(now_ns)
            } else {
                Some(t)
            }
        },
    }
}

} // verus!

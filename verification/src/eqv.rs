//! Observational equivalence of catalog values.
//!
//! Two values are equivalent when every part a caller can observe agrees:
//! identifiers, names and other strings compared by their characters,
//! collections compared entry by entry. Equivalence is what the catalog's
//! contracts state where a value is rebuilt rather than left in place, and
//! what the round-trip laws speak of.

use vstd::prelude::*;

use crate::database::{spec_trigger_def_eq, DatabaseSchema};
use crate::log::{DistinctCacheDefinition, LastCacheDefinition, TriggerDefinition};
use crate::repository::{RepoEntry, Repository};
use crate::table::{ColumnDefinition, TableDefinition};
use crate::tokens::TokenInfo;
use crate::nodes::NodeDefinition;

verus! {

pub open spec fn col_def_eqv(a: ColumnDefinition, b: ColumnDefinition) -> bool {
    &&& a.id == b.id
    &&& a.name@ == b.name@
    &&& a.data_type == b.data_type
    &&& a.nullable == b.nullable
}

pub open spec fn columns_eqv(a: Repository<ColumnDefinition>, b: Repository<ColumnDefinition>)
    -> bool {
    &&& a.next_id == b.next_id
    &&& a.entries@.len() == b.entries@.len()
    &&& forall|i: int|
        0 <= i < a.entries@.len() ==> {
            let ea = #[trigger] a.entries@[i];
            let eb = #[trigger] b.entries@[i];
            ea.id == eb.id && ea.name@ == eb.name@ && col_def_eqv(ea.res, eb.res)
        }
}

pub open spec fn last_cache_eqv(a: LastCacheDefinition, b: LastCacheDefinition) -> bool {
    &&& a.table_id == b.table_id
    &&& a.table@ == b.table@
    &&& a.id == b.id
    &&& a.name@ == b.name@
    &&& a.key_columns@ == b.key_columns@
    &&& a.count == b.count
    &&& a.ttl_secs == b.ttl_secs
}

pub open spec fn distinct_cache_eqv(a: DistinctCacheDefinition, b: DistinctCacheDefinition)
    -> bool {
    &&& a.table_id == b.table_id
    &&& a.table_name@ == b.table_name@
    &&& a.cache_id == b.cache_id
    &&& a.cache_name@ == b.cache_name@
    &&& a.column_ids@ == b.column_ids@
    &&& a.max_cardinality == b.max_cardinality
    &&& a.max_age_seconds == b.max_age_seconds
}

pub open spec fn last_caches_eqv(a: Repository<LastCacheDefinition>,
    b: Repository<LastCacheDefinition>) -> bool {
    &&& a.next_id == b.next_id
    &&& a.entries@.len() == b.entries@.len()
    &&& forall|i: int|
        0 <= i < a.entries@.len() ==> {
            let ea = #[trigger] a.entries@[i];
            let eb = #[trigger] b.entries@[i];
            ea.id == eb.id && ea.name@ == eb.name@ && last_cache_eqv(ea.res, eb.res)
        }
}

pub open spec fn distinct_caches_eqv(a: Repository<DistinctCacheDefinition>,
    b: Repository<DistinctCacheDefinition>) -> bool {
    &&& a.next_id == b.next_id
    &&& a.entries@.len() == b.entries@.len()
    &&& forall|i: int|
        0 <= i < a.entries@.len() ==> {
            let ea = #[trigger] a.entries@[i];
            let eb = #[trigger] b.entries@[i];
            ea.id == eb.id && ea.name@ == eb.name@ && distinct_cache_eqv(ea.res, eb.res)
        }
}

/// The views of two string sequences agree position by position.
pub open spec fn strings_eqv(a: Seq<String>, b: Seq<String>) -> bool {
    a.len() == b.len() && forall|i: int|
        0 <= i < a.len() ==> (#[trigger] a[i])@ == (#[trigger] b[i])@
}

pub open spec fn table_eqv(a: TableDefinition, b: TableDefinition) -> bool {
    &&& a.table_id == b.table_id
    &&& a.table_name@ == b.table_name@
    &&& columns_eqv(a.columns, b.columns)
    &&& a.series_key@ == b.series_key@
    &&& strings_eqv(a.series_key_names@, b.series_key_names@)
    &&& strings_eqv(a.sort_key@, b.sort_key@)
    &&& last_caches_eqv(a.last_caches, b.last_caches)
    &&& distinct_caches_eqv(a.distinct_caches, b.distinct_caches)
    &&& a.deleted == b.deleted
    &&& a.hard_delete_time == b.hard_delete_time
}

pub open spec fn tables_eqv(a: Repository<TableDefinition>, b: Repository<TableDefinition>)
    -> bool {
    &&& a.next_id == b.next_id
    &&& a.entries@.len() == b.entries@.len()
    &&& forall|i: int|
        0 <= i < a.entries@.len() ==> {
            let ea = #[trigger] a.entries@[i];
            let eb = #[trigger] b.entries@[i];
            ea.id == eb.id && ea.name@ == eb.name@ && table_eqv(ea.res, eb.res)
        }
}

pub open spec fn triggers_eqv(a: Repository<TriggerDefinition>, b: Repository<TriggerDefinition>)
    -> bool {
    &&& a.next_id == b.next_id
    &&& a.entries@.len() == b.entries@.len()
    &&& forall|i: int|
        0 <= i < a.entries@.len() ==> {
            let ea = #[trigger] a.entries@[i];
            let eb = #[trigger] b.entries@[i];
            ea.id == eb.id && ea.name@ == eb.name@ && spec_trigger_def_eq(ea.res, eb.res)
        }
}

pub open spec fn db_eqv(a: DatabaseSchema, b: DatabaseSchema) -> bool {
    &&& a.id == b.id
    &&& a.name@ == b.name@
    &&& tables_eqv(a.tables, b.tables)
    &&& a.retention_period == b.retention_period
    &&& triggers_eqv(a.processing_engine_triggers, b.processing_engine_triggers)
    &&& a.deleted == b.deleted
    &&& a.hard_delete_time == b.hard_delete_time
}

pub open spec fn node_eqv(a: NodeDefinition, b: NodeDefinition) -> bool {
    &&& a.node_id@ == b.node_id@
    &&& a.node_catalog_id == b.node_catalog_id
    &&& a.instance_id@ == b.instance_id@
    &&& a.mode@ == b.mode@
    &&& a.core_count == b.core_count
    &&& a.state == b.state
}

pub open spec fn nodes_eqv(a: Repository<NodeDefinition>, b: Repository<NodeDefinition>)
    -> bool {
    &&& a.next_id == b.next_id
    &&& a.entries@.len() == b.entries@.len()
    &&& forall|i: int|
        0 <= i < a.entries@.len() ==> {
            let ea = #[trigger] a.entries@[i];
            let eb = #[trigger] b.entries@[i];
            ea.id == eb.id && ea.name@ == eb.name@ && node_eqv(ea.res, eb.res)
        }
}

/// Scoped permissions compared part by part; identifier lists by view.
pub open spec fn permissions_eqv(a: Seq<crate::log::Permission>, b: Seq<crate::log::Permission>)
    -> bool {
    a.len() == b.len() && forall|i: int|
        0 <= i < a.len() ==> {
            let pa = #[trigger] a[i];
            let pb = #[trigger] b[i];
            &&& pa.resource_type == pb.resource_type
            &&& pa.actions == pb.actions
            &&& match (pa.resource_identifier, pb.resource_identifier) {
                (crate::log::ResourceIdentifier::Wildcard,
                    crate::log::ResourceIdentifier::Wildcard) => true,
                (crate::log::ResourceIdentifier::Database(da),
                    crate::log::ResourceIdentifier::Database(db)) => da@ == db@,
                (crate::log::ResourceIdentifier::Token(ta),
                    crate::log::ResourceIdentifier::Token(tb)) => ta@ == tb@,
                _ => false,
            }
        }
}

pub open spec fn token_eqv(a: TokenInfo, b: TokenInfo) -> bool {
    &&& a.id == b.id
    &&& a.name@ == b.name@
    &&& a.hash@ == b.hash@
    &&& a.created_at == b.created_at
    &&& a.updated_at == b.updated_at
    &&& a.updated_by == b.updated_by
    &&& a.expiry == b.expiry
    &&& permissions_eqv(a.permissions@, b.permissions@)
}

/// Observational equivalence of whole catalogs: sequence, identity,
/// generation configuration, nodes, databases and tokens all agree.
pub open spec fn inner_eqv(a: crate::catalog::InnerCatalog, b: crate::catalog::InnerCatalog)
    -> bool {
    &&& a.sequence == b.sequence
    &&& a.catalog_id@ == b.catalog_id@
    &&& a.catalog_uuid == b.catalog_uuid
    &&& a.generation_config.generation_durations@
        == b.generation_config.generation_durations@
    &&& nodes_eqv(a.nodes, b.nodes)
    &&& databases_eqv(a.databases, b.databases)
    &&& a.tokens.repo.next_id == b.tokens.repo.next_id
    &&& tokens_eqv(a.tokens.repo, b.tokens.repo)
}

pub open spec fn databases_eqv(a: Repository<DatabaseSchema>, b: Repository<DatabaseSchema>)
    -> bool {
    &&& a.next_id == b.next_id
    &&& a.entries@.len() == b.entries@.len()
    &&& forall|i: int|
        0 <= i < a.entries@.len() ==> {
            let ea = #[trigger] a.entries@[i];
            let eb = #[trigger] b.entries@[i];
            ea.id == eb.id && ea.name@ == eb.name@ && db_eqv(ea.res, eb.res)
        }
}

/// Equivalence is reflexive on trigger specifications.
pub proof fn lemma_trigger_spec_eq_refl(a: crate::log::TriggerSpecificationDefinition)
    ensures
        crate::database::spec_trigger_spec_eq(a, a),
{
}

/// Equivalence is reflexive on tables.
pub proof fn lemma_table_eqv_refl(a: TableDefinition)
    ensures
        table_eqv(a, a),
{
}

/// Equivalence is reflexive on database schemas.
pub proof fn lemma_db_eqv_refl(a: DatabaseSchema)
    ensures
        db_eqv(a, a),
{
    assert forall|i: int| 0 <= i < a.tables.entries@.len() implies {
        let ea = #[trigger] a.tables.entries@[i];
        ea.id == ea.id && ea.name@ == ea.name@ && table_eqv(ea.res, ea.res)
    } by {
        lemma_table_eqv_refl(a.tables.entries@[i].res);
    }
    assert forall|i: int| 0 <= i < a.processing_engine_triggers.entries@.len() implies {
        let ea = #[trigger] a.processing_engine_triggers.entries@[i];
        ea.id == ea.id && ea.name@ == ea.name@ && spec_trigger_def_eq(ea.res, ea.res)
    } by {
        lemma_trigger_spec_eq_refl(a.processing_engine_triggers.entries@[i].res.trigger);
    }
}

/// Two database schemas whose parts are equal values are equivalent.
pub proof fn lemma_db_eqv_of_same_parts(a: DatabaseSchema, b: DatabaseSchema)
    requires
        a.id == b.id,
        a.name == b.name,
        a.tables.entries@ == b.tables.entries@,
        a.tables.next_id == b.tables.next_id,
        a.retention_period == b.retention_period,
        a.processing_engine_triggers.entries@ == b.processing_engine_triggers.entries@,
        a.processing_engine_triggers.next_id == b.processing_engine_triggers.next_id,
        a.deleted == b.deleted,
        a.hard_delete_time == b.hard_delete_time,
    ensures
        db_eqv(a, b),
{
    assert forall|i: int| 0 <= i < a.tables.entries@.len() implies {
        let ea = #[trigger] a.tables.entries@[i];
        let eb = #[trigger] b.tables.entries@[i];
        ea.id == eb.id && ea.name@ == eb.name@ && table_eqv(ea.res, eb.res)
    } by {
        lemma_table_eqv_refl(a.tables.entries@[i].res);
    }
    assert forall|i: int| 0 <= i < a.processing_engine_triggers.entries@.len() implies {
        let ea = #[trigger] a.processing_engine_triggers.entries@[i];
        let eb = #[trigger] b.processing_engine_triggers.entries@[i];
        ea.id == eb.id && ea.name@ == eb.name@ && spec_trigger_def_eq(ea.res, eb.res)
    } by {
        lemma_trigger_spec_eq_refl(a.processing_engine_triggers.entries@[i].res.trigger);
    }
}

pub open spec fn tokens_eqv(a: Repository<TokenInfo>, b: Repository<TokenInfo>) -> bool {
    &&& a.next_id == b.next_id
    &&& a.entries@.len() == b.entries@.len()
    &&& forall|i: int|
        0 <= i < a.entries@.len() ==> {
            let ea = #[trigger] a.entries@[i];
            let eb = #[trigger] b.entries@[i];
            ea.id == eb.id && ea.name@ == eb.name@ && token_eqv(ea.res, eb.res)
        }
}

} // verus!

//! The in-memory catalog: the single source of truth for schema, retention,
//! tokens and generation configuration. All mutations flow through catalog
//! batches, totally ordered by sequence number; replaying the same batches
//! yields the same catalog.

use vstd::prelude::*;

use crate::errors::CatalogError;
use crate::database::DatabaseSchema;
use crate::log::{Actions, CatalogBatch, DatabaseBatch, DeleteBatch, DeleteOp,
    GenerationBatch, GenerationOp, NodeBatch, NodeCatalogOp, NodeMode, Permission,
    ResourceIdentifier, ResourceType, TokenBatch, TokenCatalogOp};
use crate::nodes::NodeDefinition;
use crate::repository::Repository;
use crate::textutil::str_eq;
use crate::tokens::{dup_permissions, TokenInfo, TokenRepository};
use crate::types::{DbId, NodeState};
use crate::CatalogSequenceNumber;

verus! {

/// The reserved name of the internal database.
pub open spec fn internal_db_name() -> Seq<char> {
    seq!['_', 'i', 'n', 't', 'e', 'r', 'n', 'a', 'l']
}

/// The reserved name of the operator token.
pub open spec fn operator_token_name() -> Seq<char> {
    seq!['_', 'a', 'd', 'm', 'i', 'n']
}

/// A unique value identifying one instantiation of a catalog.
#[derive(Debug, Clone, Copy, PartialEq, Eq, Structural)]
pub struct CatalogUuid {
    pub hi: u64,
    pub lo: u64,
}

/// Global generation settings configuring the layout of persisted files.
/// Each level's duration, once set, never changes.
pub struct GenerationConfig {
    /// Pairs of generation level and duration in nanoseconds, held in
    /// strictly increasing level order.
    pub generation_durations: Vec<(u8, u64)>,
}

impl GenerationConfig {
    /// Levels are strictly increasing, so each level appears at most once.
    pub open spec fn wf(self) -> bool {
        forall|i: int, j: int|
            0 <= i < j < self.generation_durations@.len()
                ==> (#[trigger] self.generation_durations@[i]).0
                    < (#[trigger] self.generation_durations@[j]).0
    }

    pub open spec fn spec_has_level(self, level: u8) -> bool {
        exists|i: int|
            0 <= i < self.generation_durations@.len()
                && (#[trigger] self.generation_durations@[i]).0 == level
    }

    pub open spec fn spec_duration_for(self, level: u8) -> u64 {
        self.generation_durations@[choose|i: int|
            0 <= i < self.generation_durations@.len()
                && (#[trigger] self.generation_durations@[i]).0 == level].1
    }

    pub fn new() -> (r: Self)
        ensures
            r.wf(),
            r.generation_durations@.len() == 0,
    {
        GenerationConfig { generation_durations: Vec::new() }
    }

    /// The duration configured for a generation level, if any.
    pub fn duration_for_level(&self, level: u8) -> (r: Option<u64>)
        requires
            self.wf(),
        ensures
            match r {
                Some(d) => self.spec_has_level(level) && d == self.spec_duration_for(level),
                None => !self.spec_has_level(level),
            },
    {
        let mut i: usize = 0;
        while i < self.generation_durations.len()
            invariant
                self.wf(),
                i <= self.generation_durations@.len(),
                forall|k: int|
                    0 <= k < i ==> (#[trigger] self.generation_durations@[k]).0 != level,
            decreases self.generation_durations@.len() - i,
        {
            if self.generation_durations[i].0 == level {
                return Some(self.generation_durations[i].1);
            }
            i += 1;
        }
        None
    }

    /// Sets the duration of a generation level. Setting a level that already
    /// has this same duration changes nothing and reports so; setting a
    /// level that has a different duration fails; a fresh level is recorded.
    pub fn set_duration(&mut self, level: u8, duration_ns: u64) -> (r: Result<bool, CatalogError>)
        requires
            old(self).wf(),
        ensures
            final(self).wf(),
            match r {
                Ok(true) => {
                    &&& !old(self).spec_has_level(level)
                    &&& final(self).spec_has_level(level)
                    &&& final(self).spec_duration_for(level) == duration_ns
                    &&& final(self).generation_durations@.len()
                        == old(self).generation_durations@.len() + 1
                    &&& forall|l: u8| old(self).spec_has_level(l)
                        ==> final(self).spec_has_level(l)
                            && final(self).spec_duration_for(l)
                                == old(self).spec_duration_for(l)
                },
                Ok(false) => {
                    &&& old(self).spec_has_level(level)
                    &&& old(self).spec_duration_for(level) == duration_ns
                    &&& *final(self) == *old(self)
                },
                Err(e) => {
                    &&& e matches CatalogError::CannotChangeGenerationDuration {
                        level: l, existing_ns, attempted_ns }
                        && l == level && existing_ns == old(self).spec_duration_for(level)
                        && attempted_ns == duration_ns
                    &&& old(self).spec_has_level(level)
                    &&& old(self).spec_duration_for(level) != duration_ns
                    &&& *final(self) == *old(self)
                },
            },
    {
        let mut i: usize = 0;
        while i < self.generation_durations.len()
            invariant
                self.wf(),
                *self == *old(self),
                i <= self.generation_durations@.len(),
                forall|k: int|
                    0 <= k < i ==> (#[trigger] self.generation_durations@[k]).0 < level,
            decreases self.generation_durations@.len() - i,
        {
            let (l, d) = self.generation_durations[i];
            if l == level {
                if d == duration_ns {
                    return Ok(false);
                } else {
                    return Err(CatalogError::CannotChangeGenerationDuration {
                        level,
                        existing_ns: d,
                        attempted_ns: duration_ns,
                    });
                }
            }
            if l > level {
                // the level is absent: the list is sorted
                self.generation_durations.insert(i, (level, duration_ns));
                proof {
                    assert(forall|k: int|
                        0 <= k < final(self).generation_durations@.len()
                            ==> #[trigger] final(self).generation_durations@[k] == if k < i {
                                old(self).generation_durations@[k]
                            } else if k == i {
                                (level, duration_ns)
                            } else {
                                old(self).generation_durations@[k - 1]
                            });
                    assert forall|l2: u8| old(self).spec_has_level(l2) implies
                        final(self).spec_has_level(l2) && final(self).spec_duration_for(l2)
                            == old(self).spec_duration_for(l2) by {
                        let k = choose|k: int|
                            0 <= k < old(self).generation_durations@.len()
                                && (#[trigger] old(self).generation_durations@[k]).0 == l2;
                        if k < i {
                            assert(final(self).generation_durations@[k].0 == l2);
                        } else {
                            assert(final(self).generation_durations@[k + 1].0 == l2);
                        }
                    }
                    assert(final(self).generation_durations@[i as int].0 == level);
                }
                return Ok(true);
            }
            i += 1;
        }
        let ghost n = self.generation_durations@.len() as int;
        self.generation_durations.push((level, duration_ns));
        proof {
            assert(final(self).generation_durations@.drop_last()
                == old(self).generation_durations@);
            assert(forall|k: int|
                0 <= k < n ==> #[trigger] final(self).generation_durations@[k]
                    == final(self).generation_durations@.drop_last()[k]);
            assert(final(self).generation_durations@[n].0 == level);
            assert forall|l2: u8| old(self).spec_has_level(l2) implies
                final(self).spec_has_level(l2) && final(self).spec_duration_for(l2)
                    == old(self).spec_duration_for(l2) by {
                let k = choose|k: int|
                    0 <= k < old(self).generation_durations@.len()
                        && (#[trigger] old(self).generation_durations@[k]).0 == l2;
                assert(final(self).generation_durations@[k].0 == l2);
            }
        }
        Ok(true)
    }
}

/// The in-memory representation of the catalog.
pub struct InnerCatalog {
    /// A monotonically increasing sequence differentiating the catalog state
    /// as it changes over time.
    pub sequence: CatalogSequenceNumber,
    /// The user-provided value that prefixes catalog paths on the object
    /// store.
    pub catalog_id: String,
    /// A unique value distinguishing catalog instantiations.
    pub catalog_uuid: CatalogUuid,
    /// Global generation settings for persisted files.
    pub generation_config: GenerationConfig,
    /// The nodes of the catalog.
    pub nodes: Repository<NodeDefinition>,
    /// The databases of the catalog.
    pub databases: Repository<DatabaseSchema>,
    /// The tokens of the catalog.
    pub tokens: TokenRepository,
}

/// Every node entry associates the identifier and name the node carries.
pub open spec fn nodes_entries_ok(s: Seq<crate::repository::RepoEntry<NodeDefinition>>)
    -> bool {
    forall|i: int|
        0 <= i < s.len() ==> {
            let e = #[trigger] s[i];
            e.id == e.res.node_catalog_id.0 && e.name@ == e.res.node_id@
        }
}

/// A copy of a node repository; entries keep their ids, names and every
/// observable part.
pub fn dup_node_repo(src: &Repository<NodeDefinition>) -> (r: Repository<NodeDefinition>)
    ensures
        r.next_id == src.next_id,
        r.entries@.len() == src.entries@.len(),
        forall|i: int|
            0 <= i < r.entries@.len() ==> {
                let ea = #[trigger] r.entries@[i];
                let eb = src.entries@[i];
                ea.id == eb.id && ea.name@ == eb.name@
                    && crate::eqv::node_eqv(ea.res, eb.res)
            },
        src.wf() ==> r.wf(),
        nodes_entries_ok(src.entries@) ==> nodes_entries_ok(r.entries@),
{
    let mut entries: Vec<crate::repository::RepoEntry<NodeDefinition>> = Vec::new();
    let mut i: usize = 0;
    while i < src.entries.len()
        invariant
            i <= src.entries@.len(),
            entries@.len() == i,
            forall|k: int|
                0 <= k < i ==> {
                    let ea = #[trigger] entries@[k];
                    let eb = src.entries@[k];
                    ea.id == eb.id && ea.name@ == eb.name@
                        && crate::eqv::node_eqv(ea.res, eb.res)
                },
        decreases src.entries@.len() - i,
    {
        let e = &src.entries[i];
        entries.push(crate::repository::RepoEntry {
            id: e.id,
            name: e.name.clone(),
            res: NodeDefinition {
                node_id: e.res.node_id.clone(),
                node_catalog_id: e.res.node_catalog_id,
                instance_id: e.res.instance_id.clone(),
                mode: copy_modes(&e.res.mode),
                core_count: e.res.core_count,
                state: e.res.state,
            },
        });
        i += 1;
    }
    Repository { entries, next_id: src.next_id }
}

/// Every token entry associates the identifier and name the token carries.
pub open spec fn tokens_entries_ok(s: Seq<crate::repository::RepoEntry<TokenInfo>>) -> bool {
    forall|i: int|
        0 <= i < s.len() ==> {
            let e = #[trigger] s[i];
            e.id == e.res.id.0 && e.name@ == e.res.name@
        }
}

/// A copy of a token repository; entries keep their ids, names and every
/// observable part.
pub fn dup_token_repo(src: &TokenRepository) -> (r: TokenRepository)
    ensures
        r.repo.next_id == src.repo.next_id,
        r.repo.entries@.len() == src.repo.entries@.len(),
        forall|i: int|
            0 <= i < r.repo.entries@.len() ==> {
                let ea = #[trigger] r.repo.entries@[i];
                let eb = src.repo.entries@[i];
                ea.id == eb.id && ea.name@ == eb.name@
                    && crate::eqv::token_eqv(ea.res, eb.res)
            },
        src.wf() ==> r.wf(),
{
    let mut entries: Vec<crate::repository::RepoEntry<TokenInfo>> = Vec::new();
    let mut i: usize = 0;
    while i < src.repo.entries.len()
        invariant
            i <= src.repo.entries@.len(),
            entries@.len() == i,
            forall|k: int|
                0 <= k < i ==> {
                    let ea = #[trigger] entries@[k];
                    let eb = src.repo.entries@[k];
                    ea.id == eb.id && ea.name@ == eb.name@
                        && crate::eqv::token_eqv(ea.res, eb.res)
                },
        decreases src.repo.entries@.len() - i,
    {
        let e = &src.repo.entries[i];
        entries.push(crate::repository::RepoEntry {
            id: e.id,
            name: e.name.clone(),
            res: TokenInfo {
                id: e.res.id,
                name: e.res.name.clone(),
                hash: crate::tokens::copy_bytes(&e.res.hash),
                created_at: e.res.created_at,
                expiry: e.res.expiry,
                updated_by: e.res.updated_by,
                updated_at: e.res.updated_at,
                permissions: dup_permissions(&e.res.permissions),
            },
        });
        i += 1;
    }
    TokenRepository { repo: Repository { entries, next_id: src.repo.next_id } }
}

/// Whether one repository is an observable copy of another: same cursor,
/// same entries, part for part.
pub open spec fn nodes_matches_dup(orig: Repository<NodeDefinition>,
    d: Repository<NodeDefinition>) -> bool {
    &&& d.next_id == orig.next_id
    &&& d.entries@.len() == orig.entries@.len()
    &&& forall|i: int|
        0 <= i < d.entries@.len() ==> {
            let ea = #[trigger] d.entries@[i];
            let eb = orig.entries@[i];
            ea.id == eb.id && ea.name@ == eb.name@ && crate::eqv::node_eqv(ea.res, eb.res)
        }
}

/// An observable copy answers name and id lookups as the original does,
/// at the same positions.
pub proof fn lemma_dup_lookup_transfer(orig: Repository<NodeDefinition>,
    d: Repository<NodeDefinition>)
    requires
        orig.wf(),
        nodes_matches_dup(orig, d),
    ensures
        forall|nm: Seq<char>|
            #[trigger] orig.spec_contains_name(nm) <==> d.spec_contains_name(nm),
        forall|id: u64| #[trigger] orig.spec_contains_id(id) <==> d.spec_contains_id(id),
        forall|nm: Seq<char>|
            #[trigger] orig.spec_contains_name(nm)
                ==> d.idx_of_name(nm) == orig.idx_of_name(nm),
        forall|id: u64|
            #[trigger] orig.spec_contains_id(id) ==> d.idx_of_id(id) == orig.idx_of_id(id),
{
    assert forall|nm: Seq<char>| #[trigger] orig.spec_contains_name(nm)
        implies d.spec_contains_name(nm) by {
        let k = orig.idx_of_name(nm);
        assert(d.entries@[k].name@ == nm);
    }
    assert forall|nm: Seq<char>| #[trigger] d.spec_contains_name(nm)
        implies orig.spec_contains_name(nm) by {
        let k = choose|k: int| 0 <= k < d.entries@.len() && d.entries@[k].name@ == nm;
        assert(orig.entries@[k].name@ == nm);
    }
    assert forall|id: u64| #[trigger] orig.spec_contains_id(id)
        implies d.spec_contains_id(id) by {
        let k = orig.idx_of_id(id);
        assert(d.entries@[k].id == id);
    }
    assert forall|id: u64| #[trigger] d.spec_contains_id(id)
        implies orig.spec_contains_id(id) by {
        let k = choose|k: int| 0 <= k < d.entries@.len() && d.entries@[k].id == id;
        assert(orig.entries@[k].id == id);
    }
    assert forall|nm: Seq<char>| #[trigger] orig.spec_contains_name(nm)
        implies d.idx_of_name(nm) == orig.idx_of_name(nm) by {
        let ko = orig.idx_of_name(nm);
        assert(d.entries@[ko].name@ == nm);
        assert(d.spec_contains_name(nm));
        let kd = d.idx_of_name(nm);
        if kd != ko {
            assert(orig.entries@[kd].name@ == nm);
        }
    }
    assert forall|id: u64| #[trigger] orig.spec_contains_id(id)
        implies d.idx_of_id(id) == orig.idx_of_id(id) by {
        let ko = orig.idx_of_id(id);
        assert(d.entries@[ko].id == id);
        assert(d.spec_contains_id(id));
        let kd = d.idx_of_id(id);
        if kd != ko {
            assert(orig.entries@[kd].id == id);
        }
    }
}

/// The observable outcome of one node operation, relative to the nodes it
/// was applied to.
pub open spec fn node_op_applied(orig: Repository<NodeDefinition>,
    cur: Repository<NodeDefinition>, batch_id: crate::types::NodeId, op: NodeCatalogOp)
    -> bool {
    match op {
        NodeCatalogOp::RegisterNode(log) => if !orig.spec_contains_name(log.node_id@) {
            let e = cur.entries@.last();
            &&& cur.entries@.len() == orig.entries@.len() + 1
            &&& e.name@ == log.node_id@
            &&& e.res.node_id@ == log.node_id@
            &&& e.res.instance_id@ == log.instance_id@
            &&& e.res.core_count == log.core_count
            &&& e.res.mode@ == log.mode@
            &&& e.res.state == (NodeState::Running {
                registered_time_ns: log.registered_time_ns })
            &&& e.res.node_catalog_id == batch_id
        } else {
            let k = orig.idx_of_name(log.node_id@);
            let n_old = orig.entries@[k].res;
            let n_new = cur.entries@[k].res;
            &&& n_old.instance_id@ == log.instance_id@
            &&& cur.entries@.len() == orig.entries@.len()
            &&& n_new.node_id@ == n_old.node_id@
            &&& n_new.instance_id@ == n_old.instance_id@
            &&& n_new.core_count == log.core_count
            &&& n_new.mode@ == log.mode@
            &&& n_new.state == (NodeState::Running {
                registered_time_ns: log.registered_time_ns })
        },
        NodeCatalogOp::StopNode(log) => {
            let k = orig.idx_of_id(batch_id.0);
            let n_old = orig.entries@[k].res;
            let n_new = cur.entries@[k].res;
            &&& orig.spec_contains_id(batch_id.0)
            &&& cur.entries@.len() == orig.entries@.len()
            &&& n_new.node_id@ == n_old.node_id@
            &&& n_new.instance_id@ == n_old.instance_id@
            &&& n_new.core_count == n_old.core_count
            &&& n_new.mode@ == n_old.mode@
            &&& n_new.state == (NodeState::Stopped {
                stopped_time_ns: log.stopped_time_ns })
        },
    }
}

/// An outcome observed against a copy is the same outcome against the
/// original the copy was taken of.
pub proof fn lemma_node_op_applied_transfers(orig: Repository<NodeDefinition>,
    prevd: Repository<NodeDefinition>, cur: Repository<NodeDefinition>,
    batch_id: crate::types::NodeId, op: NodeCatalogOp)
    requires
        orig.wf(),
        nodes_matches_dup(orig, prevd),
        node_op_applied(prevd, cur, batch_id, op),
    ensures
        node_op_applied(orig, cur, batch_id, op),
{
    lemma_dup_lookup_transfer(orig, prevd);
    match op {
        NodeCatalogOp::RegisterNode(log) => {
            if orig.spec_contains_name(log.node_id@) {
                let k = orig.idx_of_name(log.node_id@);
                assert(prevd.idx_of_name(log.node_id@) == k);
                assert(crate::eqv::node_eqv(prevd.entries@[k].res, orig.entries@[k].res));
            }
        },
        NodeCatalogOp::StopNode(_log) => {
            if orig.spec_contains_id(batch_id.0) {
                let k = orig.idx_of_id(batch_id.0);
                assert(prevd.idx_of_id(batch_id.0) == k);
                assert(crate::eqv::node_eqv(prevd.entries@[k].res, orig.entries@[k].res));
            }
        },
    }
}

/// Applies one node operation: a registration inserts a fresh node or
/// refreshes one whose instance matches; a stop records the stop time.
fn apply_node_op(nodes: &mut Repository<NodeDefinition>, batch_id: crate::types::NodeId,
    op: &NodeCatalogOp) -> (r: Result<(), CatalogError>)
    requires
        old(nodes).wf(),
        nodes_entries_ok(old(nodes).entries@),
    ensures
        final(nodes).wf(),
        nodes_entries_ok(final(nodes).entries@),
        r matches Err(_) ==> *final(nodes) == *old(nodes),
        r matches Err(e) ==> (e is InvalidNodeRegistration || e is InvalidConfiguration
            || e is AlreadyExists || e is NotFound),
        (op matches NodeCatalogOp::RegisterNode(log)
            && !old(nodes).spec_contains_name(log.node_id@) && batch_id.0 < u64::MAX
            && !old(nodes).spec_contains_id(batch_id.0)) ==> r is Ok,
        (op matches NodeCatalogOp::RegisterNode(log)
            && old(nodes).spec_contains_name(log.node_id@)
            && old(nodes).entries@[old(nodes).idx_of_name(log.node_id@)].res.instance_id@
                == log.instance_id@) ==> r is Ok,
        (op matches NodeCatalogOp::RegisterNode(log)
            && old(nodes).spec_contains_name(log.node_id@)
            && old(nodes).entries@[old(nodes).idx_of_name(log.node_id@)].res.instance_id@
                != log.instance_id@) ==> (r matches Err(e) && e is InvalidNodeRegistration),
        (op matches NodeCatalogOp::StopNode(log) && old(nodes).spec_contains_id(batch_id.0))
            ==> r is Ok,
        (op matches NodeCatalogOp::StopNode(log)
            && !old(nodes).spec_contains_id(batch_id.0))
            ==> (r matches Err(e) && e is NotFound),
        r is Ok ==> node_op_applied(*old(nodes), *final(nodes), batch_id, *op),
{
    match op {
        NodeCatalogOp::RegisterNode(log) => {
            match nodes.find_name(log.node_id.as_str()) {
                Some(k) => {
                    if !str_eq(nodes.entries[k].res.instance_id.as_str(),
                        log.instance_id.as_str())
                    {
                        return Err(CatalogError::InvalidNodeRegistration);
                    }
                    let node = &nodes.entries[k].res;
                    let new_node = NodeDefinition {
                        node_id: node.node_id.clone(),
                        node_catalog_id: node.node_catalog_id,
                        instance_id: node.instance_id.clone(),
                        mode: copy_modes(&log.mode),
                        core_count: log.core_count,
                        state: NodeState::Running {
                            registered_time_ns: log.registered_time_ns,
                        },
                    };
                    nodes.replace_res_at(k, new_node);
                    proof {
                        assert forall|i: int| 0 <= i < nodes.entries@.len() implies {
                            let e = #[trigger] nodes.entries@[i];
                            e.id == e.res.node_catalog_id.0 && e.name@ == e.res.node_id@
                        } by {
                            let e0 = old(nodes).entries@[i];
                            assert(e0.id == e0.res.node_catalog_id.0
                                && e0.name@ == e0.res.node_id@);
                        }
                    }
                    Ok(())
                },
                None => {
                    if batch_id.0 == u64::MAX {
                        return Err(CatalogError::InvalidConfiguration);
                    }
                    let new_node = NodeDefinition {
                        node_id: log.node_id.clone(),
                        node_catalog_id: batch_id,
                        instance_id: log.instance_id.clone(),
                        mode: copy_modes(&log.mode),
                        core_count: log.core_count,
                        state: NodeState::Running {
                            registered_time_ns: log.registered_time_ns,
                        },
                    };
                    match nodes.insert(batch_id.0, log.node_id.clone(), new_node) {
                        Ok(()) => {},
                        Err(e) => {
                            return Err(e);
                        },
                    }
                    proof {
                        let n = nodes.entries@.len() - 1;
                        assert(forall|i: int|
                            0 <= i < n ==> #[trigger] nodes.entries@[i]
                                == nodes.entries@.drop_last()[i]);
                        assert forall|i: int| 0 <= i < nodes.entries@.len() implies {
                            let e = #[trigger] nodes.entries@[i];
                            e.id == e.res.node_catalog_id.0 && e.name@ == e.res.node_id@
                        } by {
                            if i < n {
                                let e0 = old(nodes).entries@[i];
                                assert(e0.id == e0.res.node_catalog_id.0
                                    && e0.name@ == e0.res.node_id@);
                            }
                        }
                    }
                    Ok(())
                },
            }
        },
        NodeCatalogOp::StopNode(log) => {
            let k = match nodes.find_id(batch_id.0) {
                Some(k) => k,
                None => {
                    return Err(CatalogError::NotFound);
                },
            };
            let node = &nodes.entries[k].res;
            let new_node = NodeDefinition {
                node_id: node.node_id.clone(),
                node_catalog_id: node.node_catalog_id,
                instance_id: node.instance_id.clone(),
                mode: copy_modes(&node.mode),
                core_count: node.core_count,
                state: NodeState::Stopped { stopped_time_ns: log.stopped_time_ns },
            };
            nodes.replace_res_at(k, new_node);
            proof {
                assert forall|i: int| 0 <= i < nodes.entries@.len() implies {
                    let e = #[trigger] nodes.entries@[i];
                    e.id == e.res.node_catalog_id.0 && e.name@ == e.res.node_id@
                } by {
                    let e0 = old(nodes).entries@[i];
                    assert(e0.id == e0.res.node_catalog_id.0 && e0.name@ == e0.res.node_id@);
                }
            }
            Ok(())
        },
    }
}

/// Whether one token repository is an observable copy of another.
pub open spec fn tokens_matches_dup(orig: Repository<TokenInfo>, d: Repository<TokenInfo>)
    -> bool {
    &&& d.next_id == orig.next_id
    &&& d.entries@.len() == orig.entries@.len()
    &&& forall|i: int|
        0 <= i < d.entries@.len() ==> {
            let ea = #[trigger] d.entries@[i];
            let eb = orig.entries@[i];
            ea.id == eb.id && ea.name@ == eb.name@ && crate::eqv::token_eqv(ea.res, eb.res)
        }
}

/// An observable copy answers name and id lookups as the original does,
/// at the same positions.
pub proof fn lemma_token_dup_lookup_transfer(orig: Repository<TokenInfo>,
    d: Repository<TokenInfo>)
    requires
        orig.wf(),
        tokens_matches_dup(orig, d),
    ensures
        forall|nm: Seq<char>|
            #[trigger] orig.spec_contains_name(nm) <==> d.spec_contains_name(nm),
        forall|id: u64| #[trigger] orig.spec_contains_id(id) <==> d.spec_contains_id(id),
        forall|nm: Seq<char>|
            #[trigger] orig.spec_contains_name(nm)
                ==> d.idx_of_name(nm) == orig.idx_of_name(nm),
        forall|id: u64|
            #[trigger] orig.spec_contains_id(id) ==> d.idx_of_id(id) == orig.idx_of_id(id),
{
    assert forall|nm: Seq<char>| #[trigger] orig.spec_contains_name(nm)
        implies d.spec_contains_name(nm) by {
        let k = orig.idx_of_name(nm);
        assert(d.entries@[k].name@ == nm);
    }
    assert forall|nm: Seq<char>| #[trigger] d.spec_contains_name(nm)
        implies orig.spec_contains_name(nm) by {
        let k = choose|k: int| 0 <= k < d.entries@.len() && d.entries@[k].name@ == nm;
        assert(orig.entries@[k].name@ == nm);
    }
    assert forall|id: u64| #[trigger] orig.spec_contains_id(id)
        implies d.spec_contains_id(id) by {
        let k = orig.idx_of_id(id);
        assert(d.entries@[k].id == id);
    }
    assert forall|id: u64| #[trigger] d.spec_contains_id(id)
        implies orig.spec_contains_id(id) by {
        let k = choose|k: int| 0 <= k < d.entries@.len() && d.entries@[k].id == id;
        assert(orig.entries@[k].id == id);
    }
    assert forall|nm: Seq<char>| #[trigger] orig.spec_contains_name(nm)
        implies d.idx_of_name(nm) == orig.idx_of_name(nm) by {
        let ko = orig.idx_of_name(nm);
        assert(d.entries@[ko].name@ == nm);
        assert(d.spec_contains_name(nm));
        let kd = d.idx_of_name(nm);
        if kd != ko {
            assert(orig.entries@[kd].name@ == nm);
        }
    }
    assert forall|id: u64| #[trigger] orig.spec_contains_id(id)
        implies d.idx_of_id(id) == orig.idx_of_id(id) by {
        let ko = orig.idx_of_id(id);
        assert(d.entries@[ko].id == id);
        assert(d.spec_contains_id(id));
        let kd = d.idx_of_id(id);
        if kd != ko {
            assert(orig.entries@[kd].id == id);
        }
    }
}

/// The observable outcome of one token operation, relative to the original
/// the copy was taken of.
pub open spec fn token_op_applied(orig: Repository<TokenInfo>, cur: TokenRepository,
    op: TokenCatalogOp) -> bool {
    match op {
        TokenCatalogOp::CreateAdminToken(d) => {
            let e = cur.repo.entries@.last();
            &&& cur.repo.entries@.len() == orig.entries@.len() + 1
            &&& e.name@ == d.name@
            &&& e.res.hash@ == d.hash@
            &&& e.res.created_at == d.created_at
            &&& e.res.expiry == d.expiry
            &&& crate::catalog_api::spec_wildcard_permissions(e.res.permissions@)
        },
        TokenCatalogOp::CreateScopedToken(d) => {
            let e = cur.repo.entries@.last();
            &&& cur.repo.entries@.len() == orig.entries@.len() + 1
            &&& e.name@ == d.name@
            &&& e.res.hash@ == d.hash@
            &&& e.res.created_at == d.created_at
            &&& e.res.expiry == d.expiry
            &&& crate::eqv::permissions_eqv(e.res.permissions@, d.permissions@)
        },
        TokenCatalogOp::RegenerateAdminToken(d) => {
            let k = orig.idx_of_id(d.token_id.0);
            let t_old = orig.entries@[k].res;
            let t_new = cur.repo.entries@[k].res;
            &&& orig.spec_contains_id(d.token_id.0)
            &&& cur.repo.entries@.len() == orig.entries@.len()
            &&& t_new.hash@ == d.hash@
            &&& t_new.updated_at == Some(d.updated_at)
            &&& t_new.name@ == t_old.name@
            &&& t_new.created_at == t_old.created_at
            &&& t_new.expiry == t_old.expiry
            &&& crate::eqv::permissions_eqv(t_new.permissions@, t_old.permissions@)
        },
        TokenCatalogOp::DeleteToken(d) => {
            &&& orig.spec_contains_name(d.token_name@)
            &&& !cur.repo.spec_contains_name(d.token_name@)
            &&& cur.repo.entries@.len() == orig.entries@.len() - 1
        },
    }
}

/// The token methods' outcomes against a copy hold against the original.
pub proof fn lemma_token_op_applied_from_dup(orig: Repository<TokenInfo>,
    prevd: TokenRepository, cur: TokenRepository, op: TokenCatalogOp)
    requires
        orig.wf(),
        tokens_matches_dup(orig, prevd.repo),
        match op {
            TokenCatalogOp::CreateAdminToken(d) => token_op_applied(prevd.repo, cur, op),
            TokenCatalogOp::CreateScopedToken(d) => token_op_applied(prevd.repo, cur, op),
            TokenCatalogOp::RegenerateAdminToken(d) => token_op_applied(prevd.repo, cur,
                op),
            TokenCatalogOp::DeleteToken(d) => token_op_applied(prevd.repo, cur, op),
        },
    ensures
        token_op_applied(orig, cur, op),
{
    lemma_token_dup_lookup_transfer(orig, prevd.repo);
    match op {
        TokenCatalogOp::RegenerateAdminToken(d) => {
            if orig.spec_contains_id(d.token_id.0) {
                let k = orig.idx_of_id(d.token_id.0);
                assert(prevd.repo.idx_of_id(d.token_id.0) == k);
                assert(crate::eqv::token_eqv(prevd.repo.entries@[k].res,
                    orig.entries@[k].res));
                lemma_permissions_eqv_trans(cur.repo.entries@[k].res.permissions@,
                    prevd.repo.entries@[k].res.permissions@,
                    orig.entries@[k].res.permissions@);
            }
        },
        _ => {},
    }
}

/// Permission equivalence runs through a middle list.
pub proof fn lemma_permissions_eqv_trans(a: Seq<Permission>, b: Seq<Permission>,
    c: Seq<Permission>)
    requires
        crate::eqv::permissions_eqv(a, b),
        crate::eqv::permissions_eqv(b, c),
    ensures
        crate::eqv::permissions_eqv(a, c),
{
    assert forall|i: int| 0 <= i < a.len() implies {
        let pa = #[trigger] a[i];
        let pc = #[trigger] c[i];
        &&& pa.resource_type == pc.resource_type
        &&& pa.actions == pc.actions
        &&& match (pa.resource_identifier, pc.resource_identifier) {
            (ResourceIdentifier::Wildcard, ResourceIdentifier::Wildcard) => true,
            (ResourceIdentifier::Database(da), ResourceIdentifier::Database(dc))
                => da@ == dc@,
            (ResourceIdentifier::Token(ta), ResourceIdentifier::Token(tc)) => ta@ == tc@,
            _ => false,
        }
    } by {
        let pa = a[i];
        let pb = b[i];
        let pc = c[i];
        assert(pa.resource_type == pb.resource_type);
        assert(pb.resource_type == pc.resource_type);
    }
}

/// The observable outcome of one hard-deletion operation.
pub open spec fn delete_op_applied(orig: InnerCatalog, cur: InnerCatalog, op: DeleteOp,
    updated: bool) -> bool {
    match op {
        DeleteOp::DeleteDatabase(db_id) => if orig.databases.spec_contains_id(db_id.0) {
            updated && cur.databases.entries@ == orig.databases.entries@.remove(
                orig.databases.idx_of_id(db_id.0))
        } else {
            !updated && cur == orig
        },
        DeleteOp::DeleteTable(db_id, table_id) => if orig.databases.spec_contains_id(db_id.0)
            && orig.databases.entries@[orig.databases.idx_of_id(db_id.0)]
                .res.tables.spec_contains_id(table_id.0) {
            let k = orig.databases.idx_of_id(db_id.0);
            let db_old = orig.databases.entries@[k].res;
            &&& updated
            &&& cur.databases.entries@.len() == orig.databases.entries@.len()
            &&& cur.databases.entries@[k].res.tables.entries@
                == db_old.tables.entries@.remove(db_old.tables.idx_of_id(table_id.0))
            &&& forall|i: int|
                0 <= i < orig.databases.entries@.len() && i != k
                    ==> cur.databases.entries@[i] == orig.databases.entries@[i]
        } else {
            !updated && cur == orig
        },
    }
}

/// The observable outcome of one generation operation, relative to the
/// configuration the copy was taken of.
pub open spec fn generation_op_applied(orig: GenerationConfig, cur: GenerationConfig,
    op: GenerationOp, updated: bool) -> bool {
    match op {
        GenerationOp::SetGenerationDuration(log) => if !orig.spec_has_level(log.level) {
            &&& updated
            &&& cur.spec_has_level(log.level)
            &&& cur.spec_duration_for(log.level) == log.duration_ns
        } else {
            &&& orig.spec_duration_for(log.level) == log.duration_ns
            &&& !updated
            &&& cur.generation_durations@ == orig.generation_durations@
        },
    }
}

/// Copies the per-level duration list.
fn copy_levels(v: &Vec<(u8, u64)>) -> (r: Vec<(u8, u64)>)
    ensures
        r@ == v@,
{
    let mut r: Vec<(u8, u64)> = Vec::new();
    let mut i: usize = 0;
    while i < v.len()
        invariant
            i <= v@.len(),
            r@ =~= v@.subrange(0, i as int),
        decreases v@.len() - i,
    {
        r.push(v[i]);
        i += 1;
        proof {
            assert(r@ =~= v@.subrange(0, i as int));
        }
    }
    proof {
        assert(r@ =~= v@);
    }
    r
}

impl InnerCatalog {
    pub open spec fn nodes_ok(self) -> bool {
        nodes_entries_ok(self.nodes.entries@)
    }

    pub open spec fn databases_ok(self) -> bool {
        forall|i: int|
            0 <= i < self.databases.entries@.len() ==> {
                let e = #[trigger] self.databases.entries@[i];
                e.id == e.res.id.0 && e.name@ == e.res.name@ && e.res.wf()
            }
    }

    pub open spec fn wf(self) -> bool {
        &&& self.nodes.wf()
        &&& self.nodes_ok()
        &&& self.databases.wf()
        &&& self.databases_ok()
        &&& self.tokens.wf()
        &&& self.generation_config.wf()
    }

    pub fn new(catalog_id: String, catalog_uuid: CatalogUuid) -> (r: Self)
        ensures
            r.wf(),
            r.sequence.0 == 0,
            r.catalog_id == catalog_id,
            r.catalog_uuid == catalog_uuid,
            r.nodes.entries@.len() == 0,
            r.databases.entries@.len() == 0,
            r.tokens.repo.entries@.len() == 0,
            r.generation_config.generation_durations@.len() == 0,
    {
        InnerCatalog {
            sequence: CatalogSequenceNumber::new(0),
            catalog_id,
            catalog_uuid,
            generation_config: GenerationConfig::new(),
            nodes: Repository::new(),
            databases: Repository::new(),
            tokens: TokenRepository::new(),
        }
    }

    pub fn sequence_number(&self) -> (r: CatalogSequenceNumber)
        ensures
            r == self.sequence,
    {
        self.sequence
    }

    pub fn db_exists(&self, db_id: DbId) -> (r: bool)
        requires
            self.wf(),
        ensures
            r == self.databases.spec_contains_id(db_id.0),
    {
        self.databases.contains_id(db_id.0)
    }

    /// A copy of the whole catalog state: the snapshot that a checkpoint
    /// persists. The copy observes as the original: same sequence,
    /// identity, configuration, nodes, databases and tokens.
    pub fn duplicate(&self) -> (r: Self)
        ensures
            crate::eqv::inner_eqv(r, *self),
            self.wf() ==> r.wf(),
    {
        let mut nodes: Vec<crate::repository::RepoEntry<NodeDefinition>> = Vec::new();
        let mut i: usize = 0;
        while i < self.nodes.entries.len()
            invariant
                i <= self.nodes.entries@.len(),
                nodes@.len() == i,
                forall|k: int|
                    0 <= k < i ==> {
                        let ea = #[trigger] nodes@[k];
                        let eb = self.nodes.entries@[k];
                        ea.id == eb.id && ea.name@ == eb.name@
                            && crate::eqv::node_eqv(ea.res, eb.res)
                    },
            decreases self.nodes.entries@.len() - i,
        {
            let e = &self.nodes.entries[i];
            nodes.push(crate::repository::RepoEntry {
                id: e.id,
                name: e.name.clone(),
                res: NodeDefinition {
                    node_id: e.res.node_id.clone(),
                    node_catalog_id: e.res.node_catalog_id,
                    instance_id: e.res.instance_id.clone(),
                    mode: copy_modes(&e.res.mode),
                    core_count: e.res.core_count,
                    state: e.res.state,
                },
            });
            i += 1;
        }
        let mut databases: Vec<crate::repository::RepoEntry<DatabaseSchema>> = Vec::new();
        let mut i: usize = 0;
        while i < self.databases.entries.len()
            invariant
                i <= self.databases.entries@.len(),
                databases@.len() == i,
                forall|k: int|
                    0 <= k < i ==> {
                        let ea = #[trigger] databases@[k];
                        let eb = self.databases.entries@[k];
                        ea.id == eb.id && ea.name@ == eb.name@
                            && crate::eqv::db_eqv(ea.res, eb.res)
                    },
                self.wf() ==> forall|k: int|
                    0 <= k < i ==> {
                        let ea = #[trigger] databases@[k];
                        ea.id == ea.res.id.0 && ea.name@ == ea.res.name@ && ea.res.wf()
                    },
            decreases self.databases.entries@.len() - i,
        {
            let e = &self.databases.entries[i];
            databases.push(crate::repository::RepoEntry {
                id: e.id,
                name: e.name.clone(),
                res: e.res.duplicate(),
            });
            i += 1;
        }
        let mut tokens: Vec<crate::repository::RepoEntry<TokenInfo>> = Vec::new();
        let mut i: usize = 0;
        while i < self.tokens.repo.entries.len()
            invariant
                i <= self.tokens.repo.entries@.len(),
                tokens@.len() == i,
                forall|k: int|
                    0 <= k < i ==> {
                        let ea = #[trigger] tokens@[k];
                        let eb = self.tokens.repo.entries@[k];
                        ea.id == eb.id && ea.name@ == eb.name@
                            && crate::eqv::token_eqv(ea.res, eb.res)
                    },
            decreases self.tokens.repo.entries@.len() - i,
        {
            let e = &self.tokens.repo.entries[i];
            tokens.push(crate::repository::RepoEntry {
                id: e.id,
                name: e.name.clone(),
                res: TokenInfo {
                    id: e.res.id,
                    name: e.res.name.clone(),
                    hash: crate::tokens::copy_bytes(&e.res.hash),
                    created_at: e.res.created_at,
                    expiry: e.res.expiry,
                    updated_by: e.res.updated_by,
                    updated_at: e.res.updated_at,
                    permissions: dup_permissions(&e.res.permissions),
                },
            });
            i += 1;
        }
        let mut generation_durations: Vec<(u8, u64)> = Vec::new();
        let mut i: usize = 0;
        while i < self.generation_config.generation_durations.len()
            invariant
                i <= self.generation_config.generation_durations@.len(),
                generation_durations@ =~= self.generation_config.generation_durations@
                    .subrange(0, i as int),
            decreases self.generation_config.generation_durations@.len() - i,
        {
            generation_durations.push(self.generation_config.generation_durations[i]);
            i += 1;
            proof {
                assert(generation_durations@ =~= self.generation_config
                    .generation_durations@.subrange(0, i as int));
            }
        }
        proof {
            assert(generation_durations@
                =~= self.generation_config.generation_durations@);
        }
        InnerCatalog {
            sequence: self.sequence,
            catalog_id: self.catalog_id.clone(),
            catalog_uuid: self.catalog_uuid,
            generation_config: GenerationConfig { generation_durations },
            nodes: Repository { entries: nodes, next_id: self.nodes.next_id },
            databases: Repository { entries: databases, next_id: self.databases.next_id },
            tokens: TokenRepository {
                repo: Repository { entries: tokens, next_id: self.tokens.repo.next_id },
            },
        }
    }

    /// Applies a node batch: registrations and stops, applied to a copy of
    /// the nodes and published whole, so that a failing batch changes
    /// nothing. The batch changed something exactly when it holds
    /// operations.
    pub fn apply_node_batch(&mut self, batch: &NodeBatch) -> (r: Result<bool, CatalogError>)
        requires
            old(self).wf(),
        ensures
            final(self).wf(),
            final(self).sequence == old(self).sequence,
            r matches Ok(false) ==> *final(self) == *old(self),
            r matches Err(_) ==> *final(self) == *old(self),
            r matches Err(e) ==> crate::errors::apply_error(e),
            r matches Err(e) ==> (e is InvalidNodeRegistration || e is InvalidConfiguration
                || e is AlreadyExists || e is NotFound),
            r matches Ok(b) ==> (b <==> batch.ops@.len() > 0),
            (batch.ops@.len() == 1 && batch.ops@[0] is RegisterNode
                && !old(self).nodes.spec_contains_name(
                    (batch.ops@[0]->RegisterNode_0).node_id@)
                && !old(self).nodes.spec_contains_id(batch.node_catalog_id.0)
                && batch.node_catalog_id.0 < u64::MAX) ==> (r matches Ok(b) && b && ({
                let log = batch.ops@[0]->RegisterNode_0;
                let e = final(self).nodes.entries@.last();
                &&& final(self).nodes.entries@.len() == old(self).nodes.entries@.len() + 1
                &&& e.name@ == log.node_id@
                &&& e.res.node_id@ == log.node_id@
                &&& e.res.instance_id@ == log.instance_id@
                &&& e.res.core_count == log.core_count
                &&& e.res.mode@ == log.mode@
                &&& e.res.state == (NodeState::Running {
                    registered_time_ns: log.registered_time_ns })
                &&& e.res.node_catalog_id == batch.node_catalog_id
            })),
            (batch.ops@.len() == 1 && batch.ops@[0] is RegisterNode
                && old(self).nodes.spec_contains_name(
                    (batch.ops@[0]->RegisterNode_0).node_id@)) ==> ({
                let log = batch.ops@[0]->RegisterNode_0;
                let k = old(self).nodes.idx_of_name(log.node_id@);
                let n_old = old(self).nodes.entries@[k].res;
                if n_old.instance_id@ == log.instance_id@ {
                    r matches Ok(b) && b && ({
                        let n_new = final(self).nodes.entries@[k].res;
                        &&& final(self).nodes.entries@.len()
                            == old(self).nodes.entries@.len()
                        &&& n_new.node_id@ == n_old.node_id@
                        &&& n_new.instance_id@ == n_old.instance_id@
                        &&& n_new.core_count == log.core_count
                        &&& n_new.mode@ == log.mode@
                        &&& n_new.state == (NodeState::Running {
                            registered_time_ns: log.registered_time_ns })
                    })
                } else {
                    r matches Err(e) && e is InvalidNodeRegistration
                }
            }),
            (batch.ops@.len() == 1 && batch.ops@[0] is StopNode) ==> ({
                let log = batch.ops@[0]->StopNode_0;
                if old(self).nodes.spec_contains_id(batch.node_catalog_id.0) {
                    let k = old(self).nodes.idx_of_id(batch.node_catalog_id.0);
                    let n_old = old(self).nodes.entries@[k].res;
                    r matches Ok(b) && b && ({
                        let n_new = final(self).nodes.entries@[k].res;
                        &&& final(self).nodes.entries@.len()
                            == old(self).nodes.entries@.len()
                        &&& n_new.node_id@ == n_old.node_id@
                        &&& n_new.instance_id@ == n_old.instance_id@
                        &&& n_new.core_count == n_old.core_count
                        &&& n_new.mode@ == n_old.mode@
                        &&& n_new.state == (NodeState::Stopped {
                            stopped_time_ns: log.stopped_time_ns })
                    })
                } else {
                    r matches Err(e) && e is NotFound
                }
            }),
    {
        if batch.ops.len() == 0 {
            return Ok(false);
        }
        let mut nodes = dup_node_repo(&self.nodes);
        proof {
            lemma_dup_lookup_transfer(old(self).nodes, nodes);
        }
        let mut oi: usize = 0;
        while oi < batch.ops.len()
            invariant
                old(self).wf(),
                *self == *old(self),
                oi <= batch.ops@.len(),
                batch.ops@.len() > 0,
                nodes.wf(),
                nodes_entries_ok(nodes.entries@),
                batch.ops@.len() == 1 ==> oi == 0 ==> nodes_matches_dup(old(self).nodes,
                    nodes),
                batch.ops@.len() == 1 ==> oi == 1 ==> node_op_applied(old(self).nodes,
                    nodes, batch.node_catalog_id, batch.ops@[0]),
            decreases batch.ops@.len() - oi,
        {
            let ghost prev_nodes = nodes;
            match apply_node_op(&mut nodes, batch.node_catalog_id, &batch.ops[oi]) {
                Ok(()) => {},
                Err(e) => {
                    proof {
                        if batch.ops@.len() == 1 {
                            lemma_dup_lookup_transfer(old(self).nodes, prev_nodes);
                            match batch.ops@[0] {
                                NodeCatalogOp::RegisterNode(log) => {
                                    if old(self).nodes.spec_contains_name(log.node_id@) {
                                        let k = old(self).nodes.idx_of_name(log.node_id@);
                                        assert(prev_nodes.entries@[k].res.instance_id@
                                            == old(self).nodes.entries@[k]
                                                .res.instance_id@);
                                    }
                                },
                                NodeCatalogOp::StopNode(_log) => {},
                            }
                        }
                    }
                    return Err(e);
                },
            }
            proof {
                if batch.ops@.len() == 1 {
                    lemma_node_op_applied_transfers(old(self).nodes, prev_nodes, nodes,
                        batch.node_catalog_id, batch.ops@[0]);
                }
            }
            oi += 1;
        }
        self.nodes = nodes;
        Ok(true)
    }

    /// Applies a token batch, to a copy of the tokens published whole, so
    /// that a failing batch changes nothing. The batch changed something
    /// exactly when it holds operations.
    pub fn apply_token_batch(&mut self, batch: &TokenBatch) -> (r: Result<bool, CatalogError>)
        requires
            old(self).wf(),
        ensures
            final(self).wf(),
            final(self).sequence == old(self).sequence,
            r matches Ok(false) ==> *final(self) == *old(self),
            r matches Err(_) ==> *final(self) == *old(self),
            r matches Err(e) ==> crate::errors::apply_error(e),
            r matches Err(e) ==> (e is InvalidConfiguration || e is AlreadyExists
                || e is MissingAdminTokenToUpdate || e is NotFound),
            r matches Ok(b) ==> (b <==> batch.ops@.len() > 0),
            (batch.ops@.len() == 1 && batch.ops@[0] is CreateAdminToken && ({
                let d = batch.ops@[0]->CreateAdminToken_0;
                !old(self).tokens.repo.spec_contains_name(d.name@)
                    && !old(self).tokens.repo.spec_contains_id(d.token_id.0)
                    && d.token_id.0 < u64::MAX
            })) ==> (r matches Ok(b) && b && ({
                let d = batch.ops@[0]->CreateAdminToken_0;
                let e = final(self).tokens.repo.entries@.last();
                &&& final(self).tokens.repo.entries@.len()
                    == old(self).tokens.repo.entries@.len() + 1
                &&& e.name@ == d.name@
                &&& e.res.hash@ == d.hash@
                &&& e.res.created_at == d.created_at
                &&& e.res.expiry == d.expiry
                &&& crate::catalog_api::spec_wildcard_permissions(e.res.permissions@)
            })),
            (batch.ops@.len() == 1 && batch.ops@[0] is CreateScopedToken && ({
                let d = batch.ops@[0]->CreateScopedToken_0;
                !old(self).tokens.repo.spec_contains_name(d.name@)
                    && !old(self).tokens.repo.spec_contains_id(d.token_id.0)
                    && d.token_id.0 < u64::MAX
            })) ==> (r matches Ok(b) && b && ({
                let d = batch.ops@[0]->CreateScopedToken_0;
                let e = final(self).tokens.repo.entries@.last();
                &&& final(self).tokens.repo.entries@.len()
                    == old(self).tokens.repo.entries@.len() + 1
                &&& e.name@ == d.name@
                &&& e.res.hash@ == d.hash@
                &&& e.res.created_at == d.created_at
                &&& e.res.expiry == d.expiry
                &&& crate::eqv::permissions_eqv(e.res.permissions@, d.permissions@)
            })),
            (batch.ops@.len() == 1 && batch.ops@[0] is RegenerateAdminToken) ==> ({
                let d = batch.ops@[0]->RegenerateAdminToken_0;
                if old(self).tokens.repo.spec_contains_id(d.token_id.0) {
                    let k = old(self).tokens.repo.idx_of_id(d.token_id.0);
                    let t_old = old(self).tokens.repo.entries@[k].res;
                    r matches Ok(b) && b && ({
                        let t_new = final(self).tokens.repo.entries@[k].res;
                        &&& final(self).tokens.repo.entries@.len()
                            == old(self).tokens.repo.entries@.len()
                        &&& t_new.hash@ == d.hash@
                        &&& t_new.updated_at == Some(d.updated_at)
                        &&& t_new.name@ == t_old.name@
                        &&& t_new.created_at == t_old.created_at
                        &&& t_new.expiry == t_old.expiry
                        &&& crate::eqv::permissions_eqv(t_new.permissions@,
                            t_old.permissions@)
                    })
                } else {
                    r matches Err(e) && e is MissingAdminTokenToUpdate
                }
            }),
            (batch.ops@.len() == 1 && batch.ops@[0] is DeleteToken) ==> ({
                let d = batch.ops@[0]->DeleteToken_0;
                if old(self).tokens.repo.spec_contains_name(d.token_name@) {
                    r matches Ok(b) && b
                        && !final(self).tokens.repo.spec_contains_name(d.token_name@)
                        && final(self).tokens.repo.entries@.len()
                            == old(self).tokens.repo.entries@.len() - 1
                } else {
                    r matches Err(e) && e is NotFound
                }
            }),
    {
        if batch.ops.len() == 0 {
            return Ok(false);
        }
        let mut tokens = dup_token_repo(&self.tokens);
        proof {
            lemma_token_dup_lookup_transfer(old(self).tokens.repo, tokens.repo);
        }
        let mut oi: usize = 0;
        while oi < batch.ops.len()
            invariant
                old(self).wf(),
                *self == *old(self),
                oi <= batch.ops@.len(),
                batch.ops@.len() > 0,
                tokens.wf(),
                batch.ops@.len() == 1 ==> oi == 0 ==> tokens_matches_dup(
                    old(self).tokens.repo, tokens.repo),
                batch.ops@.len() == 1 ==> oi == 1 ==> token_op_applied(
                    old(self).tokens.repo, tokens, batch.ops@[0]),
            decreases batch.ops@.len() - oi,
        {
            let ghost prev_tokens = tokens;
            proof {
                if batch.ops@.len() == 1 {
                    lemma_token_dup_lookup_transfer(old(self).tokens.repo,
                        prev_tokens.repo);
                }
            }
            match &batch.ops[oi] {
                TokenCatalogOp::CreateAdminToken(d) => {
                    if d.token_id.0 == u64::MAX {
                        return Err(CatalogError::InvalidConfiguration);
                    }
                    let mut info = TokenInfo::new(d.token_id, d.name.clone(),
                        crate::tokens::copy_bytes(&d.hash), d.created_at, d.expiry);
                    let mut perms: Vec<Permission> = Vec::new();
                    perms.push(Permission {
                        resource_type: ResourceType::Wildcard,
                        resource_identifier: ResourceIdentifier::Wildcard,
                        actions: Actions::Wildcard,
                    });
                    info.set_permissions(perms);
                    match tokens.add_token(d.token_id, info) {
                        Ok(()) => {},
                        Err(e) => {
                            return Err(e);
                        },
                    }
                },
                TokenCatalogOp::CreateScopedToken(d) => {
                    if d.token_id.0 == u64::MAX {
                        return Err(CatalogError::InvalidConfiguration);
                    }
                    let mut info = TokenInfo::new(d.token_id, d.name.clone(),
                        crate::tokens::copy_bytes(&d.hash), d.created_at, d.expiry);
                    info.set_permissions(dup_permissions(&d.permissions));
                    match tokens.add_token(d.token_id, info) {
                        Ok(()) => {},
                        Err(e) => {
                            return Err(e);
                        },
                    }
                },
                TokenCatalogOp::RegenerateAdminToken(d) => {
                    match tokens.update_admin_token_hash(d.token_id,
                        crate::tokens::copy_bytes(&d.hash), d.updated_at)
                    {
                        Ok(()) => {},
                        Err(e) => {
                            return Err(e);
                        },
                    }
                },
                TokenCatalogOp::DeleteToken(d) => {
                    match tokens.delete_token(d.token_name.as_str()) {
                        Ok(()) => {},
                        Err(e) => {
                            return Err(e);
                        },
                    }
                },
            }
            proof {
                if batch.ops@.len() == 1 {
                    lemma_token_op_applied_from_dup(old(self).tokens.repo, prev_tokens,
                        tokens, batch.ops@[0]);
                }
            }
            oi += 1;
        }
        self.tokens = tokens;
        Ok(true)
    }

    /// Applies a delete batch, removing hard-deleted databases and tables.
    /// Returns whether anything changed.
    pub fn apply_delete_batch(&mut self, batch: &DeleteBatch) -> (r: Result<bool, CatalogError>)
        requires
            old(self).wf(),
        ensures
            final(self).wf(),
            final(self).sequence == old(self).sequence,
            r is Ok,
            r matches Ok(false) ==> *final(self) == *old(self),
            r matches Err(e) ==> crate::errors::apply_error(e),
            (batch.ops@.len() == 1 && batch.ops@[0] is DeleteDatabase) ==> ({
                let db_id = batch.ops@[0]->DeleteDatabase_0;
                if old(self).databases.spec_contains_id(db_id.0) {
                    r == Ok::<bool, CatalogError>(true)
                        && final(self).databases.entries@
                            == old(self).databases.entries@.remove(
                                old(self).databases.idx_of_id(db_id.0))
                } else {
                    r == Ok::<bool, CatalogError>(false)
                }
            }),
            (batch.ops@.len() == 1 && batch.ops@[0] is DeleteTable) ==> ({
                let db_id = batch.ops@[0]->DeleteTable_0;
                let table_id = batch.ops@[0]->DeleteTable_1;
                if old(self).databases.spec_contains_id(db_id.0)
                    && old(self).databases.entries@[old(self).databases.idx_of_id(db_id.0)]
                        .res.tables.spec_contains_id(table_id.0) {
                    let k = old(self).databases.idx_of_id(db_id.0);
                    let db_old = old(self).databases.entries@[k].res;
                    r == Ok::<bool, CatalogError>(true)
                        && final(self).databases.entries@.len()
                            == old(self).databases.entries@.len()
                        && final(self).databases.entries@[k].res.tables.entries@
                            == db_old.tables.entries@.remove(
                                db_old.tables.idx_of_id(table_id.0))
                        && (forall|i: int|
                            0 <= i < old(self).databases.entries@.len() && i != k
                                ==> final(self).databases.entries@[i]
                                    == old(self).databases.entries@[i])
                } else {
                    r == Ok::<bool, CatalogError>(false)
                }
            }),
    {
        let mut updated = false;
        let mut oi: usize = 0;
        while oi < batch.ops.len()
            invariant
                self.wf(),
                self.sequence == old(self).sequence,
                oi <= batch.ops@.len(),
                !updated ==> *self == *old(self),
                oi == 0 ==> !updated,
                batch.ops@.len() == 1 ==> oi == 1 ==> delete_op_applied(*old(self), *self,
                    batch.ops@[0], updated),
            decreases batch.ops@.len() - oi,
        {
            let ghost prev = *self;
            match &batch.ops[oi] {
                DeleteOp::DeleteDatabase(db_id) => {
                    if self.databases.contains_id(db_id.0) {
                        self.databases.remove(db_id.0);
                        proof {
                            lemma_databases_ok_after_remove(prev, *self);
                        }
                        updated = true;
                    }
                },
                DeleteOp::DeleteTable(db_id, table_id) => {
                    match self.databases.find_id(db_id.0) {
                        Some(k) => {
                            if self.databases.entries[k].res.tables.contains_id(table_id.0) {
                                let mut entry = self.databases.take_at(k);
                                entry.res.tables.remove(table_id.0);
                                let ghost entry_snap = entry;
                                self.databases.put_at(k, entry);
                                proof {
                                    lemma_databases_ok_after_put(prev, *self,
                                        k as int, entry_snap);
                                    assert(self.databases.entries@
                                        =~= prev.databases.entries@.update(k as int,
                                            entry_snap));
                                }
                                updated = true;
                            }
                        },
                        None => {},
                    }
                },
            }
            proof {
                if batch.ops@.len() == 1 {
                    match batch.ops@[0] {
                        DeleteOp::DeleteDatabase(db_id) => {
                            if old(self).databases.spec_contains_id(db_id.0) {
                                assert(updated);
                                assert(self.databases.entries@
                                    == old(self).databases.entries@.remove(
                                        old(self).databases.idx_of_id(db_id.0)));
                            } else {
                                assert(!updated);
                            }
                        },
                        DeleteOp::DeleteTable(db_id, table_id) => {
                            if old(self).databases.spec_contains_id(db_id.0)
                                && old(self).databases.entries@[
                                    old(self).databases.idx_of_id(db_id.0)]
                                    .res.tables.spec_contains_id(table_id.0) {
                                let k = old(self).databases.idx_of_id(db_id.0);
                                let db_old = old(self).databases.entries@[k].res;
                                assert(updated);
                                assert(self.databases.entries@.len()
                                    == old(self).databases.entries@.len());
                                assert(self.databases.entries@[k].res.tables.entries@
                                    == db_old.tables.entries@.remove(
                                        db_old.tables.idx_of_id(table_id.0)));
                                assert(forall|i: int|
                                    0 <= i < old(self).databases.entries@.len() && i != k
                                        ==> self.databases.entries@[i]
                                            == old(self).databases.entries@[i]);
                            } else {
                                assert(!updated);
                            }
                        },
                    }
                }
            }
            oi += 1;
        }
        Ok(updated)
    }

    /// Applies a database batch: creates the database when it is absent, and
    /// otherwise applies the operations to a copy and publishes it whole, so
    /// that a failing batch changes nothing.
    pub fn apply_database_batch(&mut self, batch: &DatabaseBatch)
        -> (r: Result<bool, CatalogError>)
        requires
            old(self).wf(),
        ensures
            final(self).wf(),
            final(self).sequence == old(self).sequence,
            r matches Ok(false) ==> *final(self) == *old(self),
            r matches Ok(true) ==> final(self).databases.spec_contains_id(batch.database_id.0),
            r matches Err(e) ==> crate::errors::apply_error(e),
            r matches Err(_) ==> *final(self) == *old(self),
    {
        match self.databases.find_id(batch.database_id.0) {
            Some(k) => {
                let mut db = self.databases.entries[k].res.duplicate();
                let ghost db_id_val = db.id;
                let mut changed = false;
                let mut oi: usize = 0;
                while oi < batch.ops.len()
                    invariant
                        old(self).wf(),
                        *self == *old(self),
                        db.wf(),
                        db.id == db_id_val,
                        oi <= batch.ops@.len(),
                    decreases batch.ops@.len() - oi,
                {
                    match db.apply_op(&batch.ops[oi]) {
                        Ok(c) => {
                            if c {
                                changed = true;
                            }
                        },
                        Err(e) => {
                            return Err(e);
                        },
                    }
                    oi += 1;
                }
                if !changed {
                    return Ok(false);
                }
                let new_name = db.name.clone();
                let renamed = !str_eq(new_name.as_str(),
                    self.databases.entries[k].name.as_str());
                if renamed && self.databases.contains_name(new_name.as_str()) {
                    // the renamed database would collide: publish nothing
                    return Err(CatalogError::AlreadyExists);
                }
                let ghost prev = *self;
                let mut entry = self.databases.take_at(k);
                entry.name = new_name;
                entry.res = db;
                let ghost entry_snap = entry;
                self.databases.put_at(k, entry);
                proof {
                    assert(prev.databases.entries@[k as int].id
                        == prev.databases.entries@[k as int].res.id.0);
                    lemma_databases_ok_after_put(prev, *self, k as int, entry_snap);
                    assert(self.databases.entries@[k as int].id == batch.database_id.0);
                    assert(self.databases.spec_contains_id(batch.database_id.0));
                }
                Ok(true)
            },
            None => {
                if batch.database_id.0 == u64::MAX {
                    return Err(CatalogError::InvalidConfiguration);
                }
                let mut db = DatabaseSchema::new(batch.database_id, batch.database_name.clone());
                let mut oi: usize = 0;
                while oi < batch.ops.len()
                    invariant
                        old(self).wf(),
                        *self == *old(self),
                        db.wf(),
                        db.id == batch.database_id,
                        oi <= batch.ops@.len(),
                    decreases batch.ops@.len() - oi,
                {
                    match db.apply_op(&batch.ops[oi]) {
                        Ok(_) => {},
                        Err(e) => {
                            return Err(e);
                        },
                    }
                    oi += 1;
                }
                let name = db.name.clone();
                let ghost db_snap = db;
                match self.databases.insert(batch.database_id.0, name, db) {
                    Ok(()) => {},
                    Err(e) => {
                        return Err(e);
                    },
                }
                proof {
                    let n = self.databases.entries@.len() - 1;
                    assert(forall|i: int|
                        0 <= i < n ==> #[trigger] self.databases.entries@[i]
                            == self.databases.entries@.drop_last()[i]);
                    assert(self.databases.entries@[n].res == db_snap);
                    assert forall|i: int| 0 <= i < self.databases.entries@.len() implies {
                        let e = #[trigger] self.databases.entries@[i];
                        e.id == e.res.id.0 && e.name@ == e.res.name@ && e.res.wf()
                    } by {
                        if i < n {
                            let e = old(self).databases.entries@[i];
                            assert(e.id == e.res.id.0 && e.name@ == e.res.name@ && e.res.wf());
                        }
                    }
                    assert(self.databases.entries@[n].id == batch.database_id.0);
                    assert(self.databases.spec_contains_id(batch.database_id.0));
                }
                Ok(true)
            },
        }
    }

    /// Verifies and applies a catalog batch, advancing the sequence exactly
    /// when the batch changed anything. A batch that changes nothing leaves
    /// the catalog as it was and does not consume the sequence.
    pub fn apply_catalog_batch(&mut self, batch: &CatalogBatch,
        sequence: CatalogSequenceNumber) -> (r: Result<bool, CatalogError>)
        requires
            old(self).wf(),
        ensures
            final(self).wf(),
            r matches Ok(true) ==> final(self).sequence == sequence,
            r matches Ok(false) ==> *final(self) == *old(self),
            r matches Err(e) ==> crate::errors::apply_error(e),
            r matches Err(_) ==> *final(self) == *old(self),
    {
        let updated = match batch {
            CatalogBatch::Node(b) => self.apply_node_batch(b),
            CatalogBatch::Database(b) => self.apply_database_batch(b),
            CatalogBatch::Token(b) => self.apply_token_batch(b),
            CatalogBatch::Delete(b) => self.apply_delete_batch(b),
            CatalogBatch::Generation(b) => self.apply_generation_batch(b),
        };
        match updated {
            Ok(true) => {
                self.sequence = sequence;
                Ok(true)
            },
            Ok(false) => Ok(false),
            Err(e) => Err(e),
        }
    }

    /// Applies a generation batch, to a copy of the configuration published
    /// whole, so that a failing batch changes nothing.
    pub fn apply_generation_batch(&mut self, batch: &GenerationBatch)
        -> (r: Result<bool, CatalogError>)
        requires
            old(self).wf(),
        ensures
            final(self).wf(),
            final(self).sequence == old(self).sequence,
            r matches Ok(false) ==> *final(self) == *old(self),
            r matches Err(_) ==> *final(self) == *old(self),
            r matches Err(e) ==> crate::errors::apply_error(e),
            r matches Err(e) ==> e is CannotChangeGenerationDuration,
            (batch.ops@.len() == 1 && batch.ops@[0] is SetGenerationDuration) ==> ({
                let log = batch.ops@[0]->SetGenerationDuration_0;
                if !old(self).generation_config.spec_has_level(log.level) {
                    r == Ok::<bool, CatalogError>(true)
                        && final(self).generation_config.spec_has_level(log.level)
                        && final(self).generation_config.spec_duration_for(log.level)
                            == log.duration_ns
                } else if old(self).generation_config.spec_duration_for(log.level)
                    == log.duration_ns {
                    r == Ok::<bool, CatalogError>(false)
                } else {
                    r matches Err(e) && e is CannotChangeGenerationDuration
                }
            }),
    {
        let mut config = GenerationConfig {
            generation_durations: copy_levels(&self.generation_config.generation_durations),
        };
        let mut updated = false;
        let mut oi: usize = 0;
        while oi < batch.ops.len()
            invariant
                old(self).wf(),
                *self == *old(self),
                oi <= batch.ops@.len(),
                config.wf(),
                oi == 0 ==> !updated,
                oi == 0 ==> config.generation_durations@
                    == old(self).generation_config.generation_durations@,
                batch.ops@.len() == 1 ==> oi == 1 ==> generation_op_applied(
                    old(self).generation_config, config, batch.ops@[0], updated),
            decreases batch.ops@.len() - oi,
        {
            match &batch.ops[oi] {
                GenerationOp::SetGenerationDuration(log) => {
                    match config.set_duration(log.level, log.duration_ns) {
                        Ok(changed) => {
                            if changed {
                                updated = true;
                            }
                        },
                        Err(e) => {
                            return Err(e);
                        },
                    }
                },
            }
            oi += 1;
        }
        if !updated {
            return Ok(false);
        }
        self.generation_config = config;
        Ok(true)
    }
}

/// Copies a list of node modes.
fn copy_modes(v: &Vec<NodeMode>) -> (r: Vec<NodeMode>)
    ensures
        r@ == v@,
{
    let mut r: Vec<NodeMode> = Vec::new();
    let mut i: usize = 0;
    while i < v.len()
        invariant
            i <= v@.len(),
            r@ =~= v@.subrange(0, i as int),
        decreases v@.len() - i,
    {
        r.push(v[i]);
        i += 1;
        proof {
            assert(r@ =~= v@.subrange(0, i as int));
        }
    }
    proof {
        assert(r@ =~= v@);
    }
    r
}

/// Replacing one node entry with one that keeps its id and name leaves
/// every node entry consistent.
proof fn lemma_nodes_ok_after_update(old_c: InnerCatalog, new_c: InnerCatalog, k: int)
    requires
        old_c.nodes_ok(),
        0 <= k < old_c.nodes.entries@.len(),
        new_c.nodes.entries@.len() == old_c.nodes.entries@.len(),
        forall|i: int|
            0 <= i < old_c.nodes.entries@.len() && i != k
                ==> new_c.nodes.entries@[i] == old_c.nodes.entries@[i],
        ({
            let e = new_c.nodes.entries@[k];
            e.id == e.res.node_catalog_id.0 && e.name@ == e.res.node_id@
        }),
    ensures
        new_c.nodes_ok(),
{
    assert forall|i: int| 0 <= i < new_c.nodes.entries@.len() implies {
        let e = #[trigger] new_c.nodes.entries@[i];
        e.id == e.res.node_catalog_id.0 && e.name@ == e.res.node_id@
    } by {
        if i != k {
            let e = old_c.nodes.entries@[i];
            assert(e.id == e.res.node_catalog_id.0 && e.name@ == e.res.node_id@);
        }
    }
}

/// Appending a node entry that carries its own id and name leaves every node
/// entry consistent.
proof fn lemma_nodes_ok_after_push(old_c: InnerCatalog, new_c: InnerCatalog)
    requires
        old_c.nodes_ok(),
        new_c.nodes.entries@.len() == old_c.nodes.entries@.len() + 1,
        new_c.nodes.entries@.drop_last() == old_c.nodes.entries@,
        ({
            let e = new_c.nodes.entries@.last();
            e.id == e.res.node_catalog_id.0 && e.name@ == e.res.node_id@
        }),
    ensures
        new_c.nodes_ok(),
{
    let n = new_c.nodes.entries@.len() - 1;
    assert(forall|i: int|
        0 <= i < n ==> #[trigger] new_c.nodes.entries@[i]
            == new_c.nodes.entries@.drop_last()[i]);
    assert forall|i: int| 0 <= i < new_c.nodes.entries@.len() implies {
        let e = #[trigger] new_c.nodes.entries@[i];
        e.id == e.res.node_catalog_id.0 && e.name@ == e.res.node_id@
    } by {
        if i < n {
            let e = old_c.nodes.entries@[i];
            assert(e.id == e.res.node_catalog_id.0 && e.name@ == e.res.node_id@);
        }
    }
}

/// Removing a database entry leaves every database entry consistent.
pub proof fn lemma_databases_ok_after_remove(old_c: InnerCatalog, new_c: InnerCatalog)
    requires
        old_c.databases_ok(),
        exists|k: int|
            0 <= k <= old_c.databases.entries@.len()
                && new_c.databases.entries@ == old_c.databases.entries@.remove(k)
                && k < old_c.databases.entries@.len(),
    ensures
        new_c.databases_ok(),
{
    let k = choose|k: int|
        0 <= k <= old_c.databases.entries@.len()
            && new_c.databases.entries@ == old_c.databases.entries@.remove(k)
            && k < old_c.databases.entries@.len();
    assert forall|i: int| 0 <= i < new_c.databases.entries@.len() implies {
        let e = #[trigger] new_c.databases.entries@[i];
        e.id == e.res.id.0 && e.name@ == e.res.name@ && e.res.wf()
    } by {
        if i < k {
            assert(new_c.databases.entries@[i] == old_c.databases.entries@[i]);
            let e = old_c.databases.entries@[i];
            assert(e.id == e.res.id.0 && e.name@ == e.res.name@ && e.res.wf());
        } else {
            assert(new_c.databases.entries@[i] == old_c.databases.entries@[i + 1]);
            let e = old_c.databases.entries@[i + 1];
            assert(e.id == e.res.id.0 && e.name@ == e.res.name@ && e.res.wf());
        }
    }
}

/// Putting back a well-formed database entry at the position it was taken
/// from leaves every database entry consistent.
pub proof fn lemma_databases_ok_after_put(old_c: InnerCatalog, new_c: InnerCatalog, k: int,
    entry: crate::repository::RepoEntry<DatabaseSchema>)
    requires
        old_c.databases_ok(),
        0 <= k < old_c.databases.entries@.len(),
        new_c.databases.entries@ == old_c.databases.entries@.remove(k).insert(k, entry),
        entry.id == entry.res.id.0,
        entry.name@ == entry.res.name@,
        entry.res.wf(),
    ensures
        new_c.databases_ok(),
{
    assert(new_c.databases.entries@.len() == old_c.databases.entries@.len());
    assert forall|i: int| 0 <= i < new_c.databases.entries@.len() implies {
        let e = #[trigger] new_c.databases.entries@[i];
        e.id == e.res.id.0 && e.name@ == e.res.name@ && e.res.wf()
    } by {
        if i != k {
            assert(new_c.databases.entries@[i] == old_c.databases.entries@[i]);
            let e = old_c.databases.entries@[i];
            assert(e.id == e.res.id.0 && e.name@ == e.res.name@ && e.res.wf());
        } else {
            assert(new_c.databases.entries@[i] == entry);
        }
    }
}

} // verus!

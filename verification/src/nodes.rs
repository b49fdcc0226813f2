//! Node definitions: the members of the catalog's cluster.

use vstd::prelude::*;

use crate::log::NodeMode;
use crate::types::{NodeId, NodeState};

verus! {

/// The definition of a node in the catalog.
pub struct NodeDefinition {
    /// User-provided, unique name for the node.
    pub node_id: String,
    /// Unique identifier for the node in the catalog.
    pub node_catalog_id: NodeId,
    /// A unique value generated when the node is first registered; immutable
    /// thereafter.
    pub instance_id: String,
    /// The modes the node is operating in.
    pub mode: Vec<NodeMode>,
    /// The number of cores this node is using.
    pub core_count: u64,
    /// The state of the node.
    pub state: NodeState,
}

impl NodeDefinition {
    pub fn instance_id(&self) -> (r: String)
        ensures
            r == self.instance_id,
    {
        self.instance_id.clone()
    }

    pub fn node_id(&self) -> (r: String)
        ensures
            r == self.node_id,
    {
        self.node_id.clone()
    }

    pub fn node_catalog_id(&self) -> (r: NodeId)
        ensures
            r == self.node_catalog_id,
    {
        self.node_catalog_id
    }

    pub fn modes(&self) -> (r: &Vec<NodeMode>)
        ensures
            r == &self.mode,
    {
        &self.mode
    }

    pub fn is_running(&self) -> (r: bool)
        ensures
            r == (self.state is Running),
    {
        match self.state {
            NodeState::Running { .. } => true,
            NodeState::Stopped { .. } => false,
        }
    }

    pub fn core_count(&self) -> (r: u64)
        ensures
            r == self.core_count,
    {
        self.core_count
    }

    pub fn state(&self) -> (r: NodeState)
        ensures
            r == self.state,
    {
        self.state
    }
}

} // verus!

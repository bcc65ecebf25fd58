//! A node that holds the nodes loaded together from one file.

use vstd::prelude::*;
use crate::error::RunError;
use crate::hashing::name_hash;
use crate::node_id::NodeId;
use crate::nodes::NodeResult;

verus! {

/// The nodes of one file, in the order they were loaded, and the file's path.
/// While it stands the nodes stay loaded; running it goes on to the first.
#[derive(Debug)]
pub struct ReferenceNode {
    pub nodes: Vec<NodeId>,
    pub path: String,
}

impl ReferenceNode {
    pub open spec fn spec_run(self) -> Result<NodeResult, RunError> {
        if self.nodes@.len() == 0 {
            Err(RunError::EmptyReference)
        } else {
            Ok(NodeResult::Next(self.nodes@[0].static_of()))
        }
    }

    /// Goes on to the first node of the file.
    pub fn run(&self) -> (r: Result<NodeResult, RunError>)
        ensures
            r == self.spec_run(),
    {
        if self.nodes.len() == 0 {
            Err(RunError::EmptyReference)
        } else {
            Ok(NodeResult::Next(self.nodes[0].to_static()))
        }
    }

    /// The node's identity, from the file's path.
    pub fn id(&self) -> (r: NodeId)
        ensures
            r == NodeId::U64(name_hash(self.path@)),
    {
        NodeId::U64(crate::hashing::get_hash(self.path.as_str()))
    }

    /// The nodes it holds.
    pub fn iter(&self) -> (r: &Vec<NodeId>)
        ensures
            r == &self.nodes,
    {
        &self.nodes
    }
}

} // verus!

//! A node that picks the next node by the value of an attribute.

use vstd::prelude::*;
use crate::attributes::Attribute;
use crate::error::RunError;
use crate::hashing::name_hash;
use crate::node_id::NodeId;
use crate::nodes::NodeResult;
use crate::state::{typed, AnimationState, StateView};
use crate::value::{Value, ValueKind};

verus! {

/// The node that the last pair with value `v` names, if any pair has it.
pub open spec fn lookup(pairs: Seq<(Value, NodeId)>, v: Value) -> Option<NodeId>
    decreases pairs.len(),
{
    if pairs.len() == 0 {
        None
    } else if pairs.last().0 == v {
        Some(pairs.last().1)
    } else {
        lookup(pairs.drop_last(), v)
    }
}

/// Reads the value of kind `kind` under `check` and goes on to the node that
/// `pairs` gives for it, or to `default`. Where a value appears in two pairs
/// the later one counts.
#[derive(Debug)]
pub struct MatchNode {
    pub name: String,
    pub kind: ValueKind,
    pub pairs: Vec<(Value, NodeId)>,
    pub check: Attribute,
    pub default: NodeId,
}

impl MatchNode {
    pub fn new(name: &str, kind: ValueKind, pairs: Vec<(Value, NodeId)>, check: Attribute, default: NodeId) -> (r: MatchNode)
        ensures
            r.name@ == name@,
            r.kind == kind,
            r.pairs == pairs,
            r.check == check,
            r.default == default,
    {
        MatchNode { name: name.to_owned(), kind, pairs, check, default }
    }

    /// What running the node on `s` gives; the store is left as it is.
    pub open spec fn spec_run(self, s: StateView) -> Result<NodeResult, RunError> {
        match typed(s, self.check, self.kind) {
            Err(e) => Err(RunError::StateError(e)),
            Ok(v) => Ok(NodeResult::Next(
                match lookup(self.pairs@, v) {
                    Some(id) => id,
                    None => self.default,
                }.static_of(),
            )),
        }
    }

    fn find(&self, v: Value) -> (r: &NodeId)
        ensures
            *r == (match lookup(self.pairs@, v) {
                Some(id) => id,
                None => self.default,
            }),
    {
        let mut i: usize = self.pairs.len();
        assert(self.pairs@.subrange(0, i as int) =~= self.pairs@);
        while i > 0
            invariant
                i <= self.pairs@.len(),
                lookup(self.pairs@, v) == lookup(self.pairs@.subrange(0, i as int), v),
            decreases i,
        {
            let ghost pre = self.pairs@.subrange(0, i as int);
            assert(pre.drop_last() =~= self.pairs@.subrange(0, i - 1));
            if self.pairs[i - 1].0 == v {
                return &self.pairs[i - 1].1;
            }
            i = i - 1;
        }
        &self.default
    }

    /// Goes on to the node paired with the stored value.
    pub fn run(&self, state: &mut AnimationState) -> (r: Result<NodeResult, RunError>)
        requires
            old(state).well_formed(),
        ensures
            final(state).well_formed(),
            final(state)@ == old(state)@,
            r == self.spec_run(old(state)@),
    {
        match state.get_typed(&self.check, self.kind) {
            Err(e) => Err(RunError::StateError(e)),
            Ok(v) => {
                Ok(NodeResult::Next(self.find(v).to_static()))
            },
        }
    }

    /// The node's identity, from its name.
    pub fn id(&self) -> (r: NodeId)
        ensures
            r == NodeId::Hash(name_hash(self.name@)),
    {
        NodeId::Hash(crate::hashing::get_hash(self.name.as_str()))
    }
}

} // verus!

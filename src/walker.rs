//! The table of nodes and the walk that runs them for one entity and tick.

use vstd::prelude::*;
use crate::error::RunError;
use crate::node_id::NodeId;
use crate::nodes::{AnimationNode, NodeResult};
use crate::state::{AnimationState, StateView};

verus! {

/// The node stored under `id`: the latest entry whose address equals it.
pub open spec fn lookup(entries: Seq<(NodeId, AnimationNode)>, id: NodeId) -> Option<AnimationNode>
    decreases entries.len(),
{
    if entries.len() == 0 {
        None
    } else if entries.last().0.reduced() == id.reduced() {
        Some(entries.last().1)
    } else {
        lookup(entries.drop_last(), id)
    }
}

/// The nodes that walks address, each under its address.
#[derive(Debug)]
pub struct NodeTable {
    pub entries: Vec<(NodeId, AnimationNode)>,
}

/// Where an entity's walk starts each tick.
#[derive(Debug)]
pub struct StartNode(pub NodeId);

impl StartNode {
    pub fn from_u64(id: u64) -> (r: StartNode)
        ensures
            r.0 == NodeId::U64(id),
    {
        StartNode(NodeId::U64(id))
    }

    pub fn from_name(name: &str) -> (r: StartNode)
        ensures
            r.0 matches NodeId::Name(h, n) && n@ == name@ && h == crate::hashing::name_hash(name@),
    {
        StartNode(NodeId::from_name(name))
    }

    /// A start at a node of a table that the host manages.
    pub fn from_handle(handle: u64) -> (r: StartNode)
        ensures
            r.0 == NodeId::Handle(handle),
    {
        StartNode(NodeId::Handle(handle))
    }
}

/// Why a walk ended without a frame.
#[derive(Debug)]
pub enum WalkError {
    /// No node is stored under the address.
    NotFound(NodeId),
    /// A node failed.
    Run(RunError),
    /// The walk ran its full number of nodes without reaching a frame.
    MaxDepth,
}

/// How a walk ended: with the frame to show, or without one.
#[derive(Debug)]
pub enum TickOutcome {
    Rendered(String),
    Failed(WalkError),
}

/// The walk from `current` that may run `fuel` more nodes, and the store
/// after it.
pub open spec fn spec_walk(
    entries: Seq<(NodeId, AnimationNode)>,
    s: StateView,
    current: NodeId,
    fuel: nat,
) -> (TickOutcome, StateView)
    decreases fuel,
{
    if fuel == 0 {
        (TickOutcome::Failed(WalkError::MaxDepth), s)
    } else {
        match lookup(entries, current) {
            None => (TickOutcome::Failed(WalkError::NotFound(current)), s),
            Some(node) => {
                let (r, s2) = node.spec_run(s);
                match r {
                    Err(e) => (TickOutcome::Failed(WalkError::Run(e)), s2),
                    Ok(NodeResult::Done(frame)) => (TickOutcome::Rendered(frame), s2),
                    Ok(NodeResult::Next(id)) => spec_walk(entries, s2, id, (fuel - 1) as nat),
                }
            },
        }
    }
}

impl NodeTable {
    pub fn new() -> (r: NodeTable)
        ensures
            r.entries@ == Seq::<(NodeId, AnimationNode)>::empty(),
    {
        NodeTable { entries: Vec::new() }
    }

    /// Stores `node` under `id`, in place of any node stored under it before.
    pub fn insert(&mut self, id: NodeId, node: AnimationNode)
        ensures
            final(self).entries@ == old(self).entries@.push((id, node)),
            forall|k: NodeId| #[trigger] lookup(final(self).entries@, k)
                == if k.reduced() == id.reduced() { Some(node) } else { lookup(old(self).entries@, k) },
    {
        self.entries.push((id, node));
        proof {
            assert(self.entries@.drop_last() =~= old(self).entries@);
        }
    }

    /// Stores `node` under its own identity.
    pub fn add(&mut self, node: AnimationNode) -> (r: NodeId)
        ensures
            r == node.spec_id(),
            final(self).entries@ == old(self).entries@.push((r, node)),
    {
        let id = node.id();
        self.entries.push((id.deep_clone(), node));
        id
    }

    /// The node stored under `id`.
    pub fn get(&self, id: &NodeId) -> (r: Option<&AnimationNode>)
        ensures
            r matches Some(n) ==> lookup(self.entries@, *id) == Some(*n),
            r is None ==> lookup(self.entries@, *id) is None,
    {
        let mut i: usize = self.entries.len();
        assert(self.entries@.subrange(0, i as int) =~= self.entries@);
        while i > 0
            invariant
                i <= self.entries@.len(),
                lookup(self.entries@, *id) == lookup(self.entries@.subrange(0, i as int), *id),
            decreases i,
        {
            let ghost pre = self.entries@.subrange(0, i as int);
            assert(pre.drop_last() =~= self.entries@.subrange(0, i - 1));
            if self.entries[i - 1].0 == *id {
                return Some(&self.entries[i - 1].1);
            }
            i = i - 1;
        }
        None
    }

    /// Walks the graph for one entity and tick: from `start`, runs the node
    /// stored under the current address and follows what it gives, until a
    /// node gives a frame, a node is missing or fails, or `max_depth` nodes
    /// have run.
    pub fn step(&self, state: &mut AnimationState, start: &NodeId, max_depth: usize) -> (r: TickOutcome)
        requires
            old(state).well_formed(),
        ensures
            final(state).well_formed(),
            (r, final(state)@) == spec_walk(self.entries@, old(state)@, *start, max_depth as nat),
    {
        let mut current = start.deep_clone();
        let mut fuel = max_depth;
        let ghost goal = spec_walk(self.entries@, old(state)@, *start, max_depth as nat);
        let mut out: Option<TickOutcome> = None;
        while out.is_none() && fuel > 0
            invariant
                state.well_formed(),
                out is None ==> spec_walk(self.entries@, state@, current, fuel as nat) == goal,
                out matches Some(o) ==> (o, state@) == goal,
            decreases fuel,
        {
            match self.get(&current) {
                None => {
                    out = Some(TickOutcome::Failed(WalkError::NotFound(current.deep_clone())));
                },
                Some(node) => match node.run(state) {
                    Err(e) => {
                        out = Some(TickOutcome::Failed(WalkError::Run(e)));
                    },
                    Ok(NodeResult::Done(frame)) => {
                        out = Some(TickOutcome::Rendered(frame));
                    },
                    Ok(NodeResult::Next(id)) => {
                        current = id;
                    },
                },
            }
            fuel = fuel - 1;
        }
        match out {
            Some(o) => o,
            None => TickOutcome::Failed(WalkError::MaxDepth),
        }
    }
}

/// Every node of the table goes on, from any store, to a node that the table
/// holds.
pub open spec fn always_forwards(entries: Seq<(NodeId, AnimationNode)>) -> bool {
    forall|id: NodeId, s: StateView| #[trigger] forwards(entries, id, s)
}

/// The node under `id`, if any, goes on from `s` to a node that the table holds.
pub open spec fn forwards(entries: Seq<(NodeId, AnimationNode)>, id: NodeId, s: StateView) -> bool {
    lookup(entries, id) matches Some(node) ==> {
        let (r, _) = node.spec_run(s);
        r matches Ok(NodeResult::Next(next)) && lookup(entries, next) is Some
    }
}

/// Cycle safety: where every node only forwards to another node of the table
/// (as two nodes that forward to each other do), a walk from a node of the
/// table ends, after its full number of nodes, with the depth error.
pub proof fn lemma_cycle_capped(
    entries: Seq<(NodeId, AnimationNode)>,
    s: StateView,
    start: NodeId,
    fuel: nat,
)
    requires
        always_forwards(entries),
        lookup(entries, start) is Some,
    ensures
        spec_walk(entries, s, start, fuel).0 == TickOutcome::Failed(WalkError::MaxDepth),
    decreases fuel,
{
    if fuel > 0 {
        let node = lookup(entries, start).unwrap();
        let (r, s2) = node.spec_run(s);
        assert(forwards(entries, start, s));
        assert(r matches Ok(NodeResult::Next(next)) && lookup(entries, next) is Some);
        let next = r->Ok_0->Next_0;
        lemma_cycle_capped(entries, s2, next, (fuel - 1) as nat);
    }
}

} // verus!

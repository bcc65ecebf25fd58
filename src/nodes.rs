//! The kinds of node, and what running one gives.

use vstd::prelude::*;
use crate::error::RunError;
use crate::node_id::NodeId;
use crate::state::{AnimationState, StateView};

pub mod index_node;
pub mod fps_node;
pub mod scale_node;
pub mod variable_node;
pub mod match_node;
pub mod reference_node;
pub mod script_node;

use fps_node::FPSNode;
use index_node::IndexNode;
use match_node::MatchNode;
use reference_node::ReferenceNode;
use script_node::ScriptNode;
use scale_node::ScaleNode;
use variable_node::VariableNode;

verus! {

/// A node of any kind.
#[derive(Debug)]
pub enum AnimationNode {
    Index(IndexNode),
    Fps(FPSNode),
    Scale(ScaleNode),
    Variable(VariableNode),
    Match(MatchNode),
    Reference(ReferenceNode),
    Script(ScriptNode),
}

/// `new` is `old` given the identity `id`: kept in a node's own field, or in
/// a script's first `#id` tag; a match node and a reference node keep theirs.
pub open spec fn id_set(old: AnimationNode, new: AnimationNode, id: NodeId) -> bool {
    match old {
        AnimationNode::Index(m) => new == AnimationNode::Index(IndexNode { id: Some(id), ..m }),
        AnimationNode::Fps(m) => new == AnimationNode::Fps(FPSNode { id: Some(id), ..m }),
        AnimationNode::Scale(m) => new == AnimationNode::Scale(ScaleNode { id: Some(id), ..m }),
        AnimationNode::Variable(m) => new == AnimationNode::Variable(VariableNode { id: Some(id), ..m }),
        AnimationNode::Script(m) => new is Script && new->Script_0.tokens == m.tokens
            && new->Script_0.fallback == m.fallback
            && new->Script_0.tags@ == script_node::tags_with_id(m.tags@, id, 0),
        AnimationNode::Match(_) | AnimationNode::Reference(_) => new == old,
    }
}

impl AnimationNode {
    /// What running the node on `s` gives, and the store after it.
    pub open spec fn spec_run(self, s: StateView) -> (Result<NodeResult, RunError>, StateView) {
        match self {
            AnimationNode::Index(n) => n.spec_run(s),
            AnimationNode::Fps(n) => n.spec_run(s),
            AnimationNode::Scale(n) => n.spec_run(s),
            AnimationNode::Variable(n) => n.spec_run(s),
            AnimationNode::Match(n) => (n.spec_run(s), s),
            AnimationNode::Reference(n) => (n.spec_run(), s),
            AnimationNode::Script(n) => n.spec_run(s),
        }
    }

    /// Runs the node against an entity's store.
    pub fn run(&self, state: &mut AnimationState) -> (r: Result<NodeResult, RunError>)
        requires
            old(state).well_formed(),
        ensures
            final(state).well_formed(),
            (r, final(state)@) == self.spec_run(old(state)@),
    {
        match self {
            AnimationNode::Index(n) => n.run(state),
            AnimationNode::Fps(n) => n.run(state),
            AnimationNode::Scale(n) => n.run(state),
            AnimationNode::Variable(n) => n.run(state),
            AnimationNode::Match(n) => n.run(state),
            AnimationNode::Reference(n) => n.run(),
            AnimationNode::Script(n) => n.run(state),
        }
    }

    /// The node's identity: the one it was given, or else the one its name
    /// (or, for a reference node, its file's path) gives.
    pub open spec fn spec_id(self) -> NodeId {
        match self {
            AnimationNode::Index(n) => index_node::node_identity(n.id, n.name@),
            AnimationNode::Fps(n) => index_node::node_identity(n.id, n.name@),
            AnimationNode::Scale(n) => index_node::node_identity(n.id, n.name@),
            AnimationNode::Variable(n) => index_node::node_identity(n.id, n.name@),
            AnimationNode::Match(n) => NodeId::Hash(crate::hashing::name_hash(n.name@)),
            AnimationNode::Reference(n) => NodeId::U64(crate::hashing::name_hash(n.path@)),
            AnimationNode::Script(n) => script_node::tags_identity(n.tags@, 0, None),
        }
    }

    /// The name of the node's type in the node text format.
    pub open spec fn type_word(self) -> Seq<char> {
        match self {
            AnimationNode::Index(_) => "IndexNode"@,
            AnimationNode::Fps(_) => "FPSNode"@,
            AnimationNode::Scale(_) => "ScaleNode"@,
            AnimationNode::Variable(_) => "VariableNode"@,
            AnimationNode::Match(_) => "MatchNode"@,
            AnimationNode::Reference(_) => "ReferenceNode"@,
            AnimationNode::Script(_) => "ScriptNode"@,
        }
    }

    pub fn node_type(&self) -> (r: &'static str)
        ensures
            r@ == self.type_word(),
    {
        match self {
            AnimationNode::Index(_) => "IndexNode",
            AnimationNode::Fps(_) => "FPSNode",
            AnimationNode::Scale(_) => "ScaleNode",
            AnimationNode::Variable(_) => "VariableNode",
            AnimationNode::Match(_) => "MatchNode",
            AnimationNode::Reference(_) => "ReferenceNode",
            AnimationNode::Script(_) => "ScriptNode",
        }
    }

    /// The node's name: its own, that of a script's first `#name` tag (none
    /// where it has none), and none for a reference node.
    pub fn name(&self) -> (r: Option<&String>)
        ensures
            match *self {
                AnimationNode::Index(n) => r == Some(&n.name),
                AnimationNode::Fps(n) => r == Some(&n.name),
                AnimationNode::Scale(n) => r == Some(&n.name),
                AnimationNode::Variable(n) => r == Some(&n.name),
                AnimationNode::Match(n) => r == Some(&n.name),
                AnimationNode::Reference(_) => r is None,
                AnimationNode::Script(n) => (r matches Some(s) ==> exists|k: int| 0 <= k < n.tags@.len() && n.tags@[k] == script_node::Tag::Name(*s))
                    && (r is None ==> forall|k: int| 0 <= k < n.tags@.len() ==> !(n.tags@[k] is Name)),
            },
    {
        match self {
            AnimationNode::Index(n) => Some(&n.name),
            AnimationNode::Fps(n) => Some(&n.name),
            AnimationNode::Scale(n) => Some(&n.name),
            AnimationNode::Variable(n) => Some(&n.name),
            AnimationNode::Match(n) => Some(&n.name),
            AnimationNode::Reference(_) => None,
            AnimationNode::Script(n) => n.name(),
        }
    }

    /// Gives the node the identity `id`, which it then has; a match node,
    /// which takes its identity from its name, and a reference node, which
    /// takes it from its file, keep theirs.
    pub fn set_id(&mut self, id: NodeId)
        ensures
            id_set(*old(self), *final(self), id),
            !(*old(self) is Match || *old(self) is Reference) ==> final(self).spec_id() == id.static_of(),
    {
        match self {
            AnimationNode::Index(n) => n.set_id(id),
            AnimationNode::Fps(n) => n.set_id(id),
            AnimationNode::Scale(n) => n.set_id(id),
            AnimationNode::Variable(n) => n.set_id(id),
            AnimationNode::Script(n) => {
                let ghost before = n.tags@;
                n.set_id(id);
                proof {
                    script_node::lemma_set_id_identity(before, id);
                }
            },
            AnimationNode::Match(_) | AnimationNode::Reference(_) => {},
        }
    }

    pub fn id(&self) -> (r: NodeId)
        ensures
            r == self.spec_id(),
    {
        match self {
            AnimationNode::Index(n) => n.id(),
            AnimationNode::Fps(n) => n.id(),
            AnimationNode::Scale(n) => n.id(),
            AnimationNode::Variable(n) => n.id(),
            AnimationNode::Match(n) => n.id(),
            AnimationNode::Reference(n) => n.id(),
            AnimationNode::Script(n) => n.id(),
        }
    }
}

/// What running a node gives: the node to run next, or the frame to show.
/// A frame is the asset path of an image.
#[derive(Debug)]
pub enum NodeResult {
    Next(NodeId),
    Done(String),
}

/// Where a list position lands after `step` more: past the end it wraps
/// around on a looping list and stops at the last entry otherwise.
pub open spec fn advance(index: int, step: int, len: int, is_loop: bool) -> int {
    if index + step < len {
        index + step
    } else if is_loop {
        (index + step) % len
    } else {
        len - 1
    }
}

/// `advance` without overflow.
pub fn advance_index(index: usize, step: usize, len: usize, is_loop: bool) -> (r: usize)
    requires
        len > 0,
    ensures
        r == advance(index as int, step as int, len as int, is_loop),
        r < len,
{
    if index < len && step < len - index {
        index + step
    } else if is_loop {
        let a = index % len;
        let b = step % len;
        proof {
            lemma_mod_sum(index as int, step as int, len as int);
        }
        if a < len - b {
            a + b
        } else {
            a - (len - b)
        }
    } else {
        len - 1
    }
}

proof fn lemma_mod_sum(a: int, b: int, n: int)
    requires
        a >= 0,
        b >= 0,
        n > 0,
    ensures
        (a + b) % n == (if a % n + b % n < n { a % n + b % n } else { a % n + b % n - n }),
{
    vstd::arithmetic::div_mod::lemma_add_mod_noop(a, b, n);
    vstd::arithmetic::div_mod::lemma_mod_bound(a, n);
    vstd::arithmetic::div_mod::lemma_mod_bound(b, n);
    let s = a % n + b % n;
    if s >= n {
        vstd::arithmetic::div_mod::lemma_mod_add_multiples_vanish(s - n, n);
        vstd::arithmetic::div_mod::lemma_small_mod((s - n) as nat, n as nat);
    } else {
        vstd::arithmetic::div_mod::lemma_small_mod(s as nat, n as nat);
    }
}

} // verus!

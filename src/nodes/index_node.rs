//! A node that steps through a list of frames.

use vstd::prelude::*;
use crate::attributes::Attribute;
use crate::error::{RunError, StateError};
use crate::node_id::NodeId;
use crate::nodes::{advance, advance_index, NodeResult};
use crate::state::{after_set, typed, AnimationState, StateView};
use crate::value::{Value, ValueKind};

verus! {

/// Steps through `frames` by the frames advanced this tick, keeping its place
/// under the `index` key. Past the end it wraps around where `is_loop` is set
/// and stays on the last frame otherwise.
#[derive(Debug)]
pub struct IndexNode {
    pub id: Option<NodeId>,
    pub name: String,
    pub frames: Vec<String>,
    pub is_loop: bool,
    pub index: Attribute,
}

/// The position that the node's key holds: its count, or 0 where none is.
pub open spec fn stored_position(s: StateView, key: Attribute) -> int {
    match typed(s, key, ValueKind::Usize) {
        Ok(Value::Usize(n)) => n as int,
        _ => 0,
    }
}

/// The frames advanced this tick, as the store holds them.
pub open spec fn frames_advanced(s: StateView) -> Result<usize, StateError> {
    match typed(s, Attribute::Frames, ValueKind::Usize) {
        Ok(Value::Usize(n)) => Ok(n),
        Ok(_) => Err(StateError::WrongType),
        Err(e) => Err(e),
    }
}

/// The identity of a node that may have been given one: that identity without
/// its name, or else the one its name gives.
pub open spec fn node_identity(id: Option<NodeId>, name: Seq<char>) -> NodeId {
    match id {
        Some(i) => i.static_of(),
        None => NodeId::Hash(crate::hashing::name_hash(name)),
    }
}

pub fn identity_of(id: &Option<NodeId>, name: &String) -> (r: NodeId)
    ensures
        r == node_identity(*id, name@),
{
    match id {
        Some(i) => i.to_static(),
        None => NodeId::Hash(crate::hashing::get_hash(name.as_str())),
    }
}

impl IndexNode {
    /// A node over `frames` that keeps its place under the default index key.
    pub fn new(name: &str, frames: &Vec<String>, is_loop: bool) -> (r: IndexNode)
        ensures
            r.id is None,
            r.name@ == name@,
            r.frames@ == frames@,
            r.is_loop == is_loop,
            r.index == Attribute::IndexId(0),
    {
        let copy = frames.clone();
        proof {
            assert(copy@ =~= frames@);
        }
        IndexNode { id: None, name: name.to_owned(), frames: copy, is_loop, index: Attribute::IndexId(0) }
    }

    /// A node over `frames` that keeps its place under `index`.
    pub fn new_with_index(name: &str, frames: &Vec<String>, is_loop: bool, index: Attribute) -> (r: IndexNode)
        ensures
            r.id is None,
            r.name@ == name@,
            r.frames@ == frames@,
            r.is_loop == is_loop,
            r.index == index,
    {
        let copy = frames.clone();
        proof {
            assert(copy@ =~= frames@);
        }
        IndexNode { id: None, name: name.to_owned(), frames: copy, is_loop, index }
    }

    /// Where the node lands from the store `s`.
    pub open spec fn landing(self, s: StateView) -> int {
        advance(
            stored_position(s, self.index),
            frames_advanced(s).unwrap() as int,
            self.frames@.len() as int,
            self.is_loop,
        )
    }

    /// What running the node on `s` gives, and the store after it.
    pub open spec fn spec_run(self, s: StateView) -> (Result<NodeResult, RunError>, StateView) {
        if self.frames@.len() == 0 {
            (Err(RunError::NoFrames), s)
        } else if frames_advanced(s) is Err {
            (Err(RunError::StateError(frames_advanced(s)->Err_0)), s)
        } else {
            let i = self.landing(s);
            (Ok(NodeResult::Done(self.frames@[i])), after_set(s, self.index, Value::Usize(i as usize)))
        }
    }

    /// Adds the frames advanced this tick to the stored position, wraps or
    /// clamps it, stores it back and shows the frame there.
    pub fn run(&self, state: &mut AnimationState) -> (r: Result<NodeResult, RunError>)
        requires
            old(state).well_formed(),
        ensures
            final(state).well_formed(),
            (r, final(state)@) == self.spec_run(old(state)@),
    {
        if self.frames.len() == 0 {
            return Err(RunError::NoFrames);
        }
        let index = match state.get_usize(&self.index) {
            Ok(n) => n,
            Err(_) => 0,
        };
        let frames = match state.get_usize(&Attribute::Frames) {
            Ok(n) => n,
            Err(e) => return Err(RunError::StateError(e)),
        };
        let next = advance_index(index, frames, self.frames.len(), self.is_loop);
        state.set_attribute(self.index.clone(), Value::Usize(next));
        Ok(NodeResult::Done(self.frames[next].clone()))
    }

    /// The node's identity: the one it was given, or else the one its name gives.
    pub fn id(&self) -> (r: NodeId)
        ensures
            r == node_identity(self.id, self.name@),
    {
        identity_of(&self.id, &self.name)
    }

    pub fn set_id(&mut self, id: NodeId)
        ensures
            final(self).id == Some(id),
            final(self).name == old(self).name,
            final(self).frames == old(self).frames,
            final(self).is_loop == old(self).is_loop,
            final(self).index == old(self).index,
    {
        self.id = Some(id);
    }
}

} // verus!

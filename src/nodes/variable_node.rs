//! A node whose frames each last a time of their own.

use vstd::prelude::*;
use crate::attributes::Attribute;
use crate::error::RunError;
use crate::node_id::NodeId;
use crate::nodes::{advance, advance_index, NodeResult};
use crate::nodes::fps_node::{min_u64, stored_micros};
use crate::nodes::index_node::{identity_of, node_identity, stored_position};
use crate::nodes::scale_node::stored_count;
use crate::state::{after_set, AnimationState, StateView};
use crate::value::Value;

verus! {

/// From entry `i` with `t` microseconds to spend: while the time is more than
/// the entry lasts, spend the entry and move on (wrapping or stopping at the
/// end as `is_loop` says). An entry of no length ends the walk where it is.
pub open spec fn spend(durations: Seq<u64>, i: int, t: nat, is_loop: bool) -> (int, nat)
    decreases t,
{
    if 0 <= i < durations.len() && durations[i] > 0 && t > durations[i] {
        spend(durations, advance(i, 1, durations.len() as int, is_loop), (t - durations[i]) as nat, is_loop)
    } else {
        (i, t)
    }
}

/// Steps through frames that each last their own time, keeping its place
/// under the `index` key and the time left in the current frame under the
/// time-remainder slot.
#[derive(Debug)]
pub struct VariableNode {
    pub id: Option<NodeId>,
    pub name: String,
    pub frames: Vec<(String, u64)>,
    pub is_loop: bool,
    pub index: Attribute,
}

impl VariableNode {
    pub fn new(name: &str, frames: Vec<(String, u64)>, is_loop: bool) -> (r: VariableNode)
        ensures
            r.id is None,
            r.name@ == name@,
            r.frames == frames,
            r.is_loop == is_loop,
            r.index == Attribute::IndexId(0),
    {
        VariableNode { id: None, name: name.to_owned(), frames, is_loop, index: Attribute::IndexId(0) }
    }

    pub fn new_with_index(name: &str, frames: Vec<(String, u64)>, is_loop: bool, index: Attribute) -> (r: VariableNode)
        ensures
            r.id is None,
            r.name@ == name@,
            r.frames == frames,
            r.is_loop == is_loop,
            r.index == index,
    {
        VariableNode { id: None, name: name.to_owned(), frames, is_loop, index }
    }

    pub open spec fn durations(self) -> Seq<u64> {
        self.frames@.map_values(|f: (String, u64)| f.1)
    }

    /// What running the node on `s` gives, and the store after it.
    pub open spec fn spec_run(self, s: StateView) -> (Result<NodeResult, RunError>, StateView) {
        let rem = stored_micros(s, Attribute::TimeThisFrame);
        let frames = stored_count(s, Attribute::Frames);
        let last = stored_micros(s, Attribute::LastFPS);
        let len = self.frames@.len() as int;
        if len == 0 {
            (Err(RunError::NoFrames), s)
        } else if rem is Err {
            (Err(RunError::StateError(rem->Err_0)), s)
        } else if frames is Err {
            (Err(RunError::StateError(frames->Err_0)), s)
        } else if last is Err {
            (Err(RunError::StateError(last->Err_0)), s)
        } else {
            let start = advance(stored_position(s, self.index), 0, len, self.is_loop);
            let total = (last->Ok_0 * frames->Ok_0 + rem->Ok_0) as nat;
            let (i, t) = spend(self.durations(), start, total, self.is_loop);
            let s1 = after_set(s, Attribute::TimeThisFrame, Value::Micros(min_u64(t as int)));
            let s2 = after_set(s1, self.index, Value::Usize(i as usize));
            (Ok(NodeResult::Done(self.frames@[i].0)), s2)
        }
    }

    /// Spends the tick's time on the frames from the stored position on, and
    /// shows the frame it ends on.
    pub fn run(&self, state: &mut AnimationState) -> (r: Result<NodeResult, RunError>)
        requires
            old(state).well_formed(),
        ensures
            final(state).well_formed(),
            (r, final(state)@) == self.spec_run(old(state)@),
    {
        let len = self.frames.len();
        if len == 0 {
            return Err(RunError::NoFrames);
        }
        let rem = match state.get_micros(&Attribute::TimeThisFrame) {
            Ok(t) => t,
            Err(e) => return Err(RunError::StateError(e)),
        };
        let frames = match state.get_usize(&Attribute::Frames) {
            Ok(n) => n,
            Err(e) => return Err(RunError::StateError(e)),
        };
        let last = match state.get_micros(&Attribute::LastFPS) {
            Ok(t) => t,
            Err(e) => return Err(RunError::StateError(e)),
        };
        let stored = match state.get_usize(&self.index) {
            Ok(n) => n,
            Err(_) => 0,
        };
        let big: u128 = 0xffff_ffff_ffff_ffff;
        proof {
            assert((last as int) * (frames as int) <= (big as int) * (big as int)) by (nonlinear_arith)
                requires last <= big, frames <= big;
        }
        let mut t: u128 = (last as u128) * (frames as u128) + (rem as u128);
        let mut i: usize = advance_index(stored, 0, len, self.is_loop);
        let ghost durs = self.durations();
        let ghost goal = spend(durs, i as int, t as nat, self.is_loop);
        loop
            invariant
                len == self.frames@.len(),
                durs == self.durations(),
                i < len,
                spend(durs, i as int, t as nat, self.is_loop) == goal,
            ensures
                i < len,
                goal == (i as int, t as nat),
            decreases t,
        {
            let d = self.frames[i].1;
            assert(durs[i as int] == d);
            if d > 0 && t > d as u128 {
                t = t - d as u128;
                i = advance_index(i, 1, len, self.is_loop);
            } else {
                break;
            }
        }
        let t64: u64 = if t <= big { t as u64 } else { u64::MAX };
        state.set_attribute(Attribute::TimeThisFrame, Value::Micros(t64));
        state.set_attribute(self.index.clone(), Value::Usize(i));
        Ok(NodeResult::Done(self.frames[i].0.clone()))
    }

    pub fn id(&self) -> (r: NodeId)
        ensures
            r == node_identity(self.id, self.name@),
    {
        identity_of(&self.id, &self.name)
    }

    pub fn set_id(&mut self, id: NodeId)
        ensures
            *final(self) == (VariableNode { id: Some(id), ..*old(self) }),
    {
        self.id = Some(id);
    }
}

} // verus!

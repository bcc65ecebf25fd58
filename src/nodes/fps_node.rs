//! A node that turns elapsed time into frames at a fixed rate.

use vstd::prelude::*;
use crate::attributes::Attribute;
use crate::error::{RunError, StateError};
use crate::node_id::NodeId;
use crate::nodes::NodeResult;
use crate::nodes::index_node::{identity_of, node_identity};
use crate::state::{after_set, typed, AnimationState, StateView};
use crate::value::{Value, ValueKind};

verus! {

pub const MICROS_PER_SECOND: u64 = 1000000;

/// The time stored under `key`, as the store holds it.
pub open spec fn stored_micros(s: StateView, key: Attribute) -> Result<u64, StateError> {
    match typed(s, key, ValueKind::Micros) {
        Ok(Value::Micros(n)) => Ok(n),
        Ok(_) => Err(StateError::WrongType),
        Err(e) => Err(e),
    }
}

/// The time carried over from earlier ticks: 0 where none is stored.
pub open spec fn carried_over(s: StateView) -> int {
    match stored_micros(s, Attribute::TimeThisFrame) {
        Ok(n) => n as int,
        Err(_) => 0,
    }
}

pub open spec fn min_u64(x: int) -> u64 {
    if x <= u64::MAX { x as u64 } else { u64::MAX }
}

pub open spec fn min_usize(x: int) -> usize {
    if x <= usize::MAX { x as usize } else { usize::MAX }
}

/// How long one frame lasts at `fps` frames a second, in whole microseconds
/// and at least one; 0 where the rate is 0 and frames never advance.
pub open spec fn frame_micros(fps: u32) -> u64 {
    if fps == 0 {
        0
    } else if fps as int >= MICROS_PER_SECOND as int {
        1
    } else {
        (MICROS_PER_SECOND as int / fps as int) as u64
    }
}

/// Whole frames in `time` microseconds of frames `width` long (none where the
/// width is 0), and the time left over.
pub open spec fn split_time(time: int, width: int) -> (int, int) {
    if width == 0 {
        (0, time)
    } else {
        (time / width, time % width)
    }
}

/// Plays at a fixed rate: adds the tick's time to what was left over, turns it
/// into whole frames, keeps the rest for the next tick, and goes on to `next`.
#[derive(Debug)]
pub struct FPSNode {
    pub id: Option<NodeId>,
    pub name: String,
    pub fps: u32,
    pub next: NodeId,
}

impl FPSNode {
    pub fn new(name: &str, fps: u32, next: NodeId) -> (r: FPSNode)
        ensures
            r.id is None,
            r.name@ == name@,
            r.fps == fps,
            r.next == next,
    {
        FPSNode { id: None, name: name.to_owned(), fps, next }
    }

    pub fn frame_time(&self) -> (r: u64)
        ensures
            r == frame_micros(self.fps),
    {
        if self.fps == 0 {
            0
        } else if self.fps as u64 >= MICROS_PER_SECOND {
            1
        } else {
            MICROS_PER_SECOND / (self.fps as u64)
        }
    }

    /// What running the node on `s` gives, and the store after it.
    pub open spec fn spec_run(self, s: StateView) -> (Result<NodeResult, RunError>, StateView) {
        match stored_micros(s, Attribute::Delta) {
            Err(e) => (Err(RunError::StateError(e)), s),
            Ok(delta) => {
                let time = min_u64(delta + carried_over(s));
                let (frames, left) = split_time(time as int, frame_micros(self.fps) as int);
                let s1 = after_set(s, Attribute::Frames, Value::Usize(frames as usize));
                let s2 = after_set(s1, Attribute::TimeThisFrame, Value::Micros(left as u64));
                let s3 = after_set(s2, Attribute::LastFPS, Value::Micros(frame_micros(self.fps)));
                (Ok(NodeResult::Next(self.next.static_of())), s3)
            },
        }
    }

    /// Turns this tick's time into frames at the node's rate.
    pub fn run(&self, state: &mut AnimationState) -> (r: Result<NodeResult, RunError>)
        requires
            old(state).well_formed(),
        ensures
            final(state).well_formed(),
            (r, final(state)@) == self.spec_run(old(state)@),
    {
        let delta = match state.get_micros(&Attribute::Delta) {
            Ok(d) => d,
            Err(e) => return Err(RunError::StateError(e)),
        };
        let rem = match state.get_micros(&Attribute::TimeThisFrame) {
            Ok(t) => t,
            Err(_) => 0,
        };
        let time = delta.saturating_add(rem);
        let width = self.frame_time();
        let (frames, left) = if width == 0 {
            (0u64, time)
        } else {
            (time / width, time % width)
        };
        state.set_attribute(Attribute::Frames, Value::Usize(frames as usize));
        state.set_attribute(Attribute::TimeThisFrame, Value::Micros(left));
        state.set_attribute(Attribute::LastFPS, Value::Micros(width));
        Ok(NodeResult::Next(self.next.to_static()))
    }

    pub fn id(&self) -> (r: NodeId)
        ensures
            r == node_identity(self.id, self.name@),
    {
        identity_of(&self.id, &self.name)
    }

    pub fn set_id(&mut self, id: NodeId)
        ensures
            *final(self) == (FPSNode { id: Some(id), ..*old(self) }),
    {
        self.id = Some(id);
    }
}

} // verus!

//! A node that stretches the frame timing of the node before it.

use vstd::prelude::*;
use crate::attributes::Attribute;
use crate::error::{RunError, StateError};
use crate::node_id::NodeId;
use crate::nodes::NodeResult;
use crate::nodes::fps_node::{min_u64, min_usize, split_time, stored_micros};
use crate::nodes::index_node::{identity_of, node_identity};
use crate::state::{after_set, typed, AnimationState, StateView};
use crate::value::{Value, ValueKind};

verus! {

pub const PERMILLE_ONE: u64 = 1000;

/// The scale stored under `key`, in thousandths; one where none is stored.
pub open spec fn stored_scale(s: StateView, key: Attribute) -> int {
    match typed(s, key, ValueKind::Permille) {
        Ok(Value::Permille(n)) => n as int,
        _ => PERMILLE_ONE as int,
    }
}

pub open spec fn stored_count(s: StateView, key: Attribute) -> Result<usize, StateError> {
    match typed(s, key, ValueKind::Usize) {
        Ok(Value::Usize(n)) => Ok(n),
        Ok(_) => Err(StateError::WrongType),
        Err(e) => Err(e),
    }
}

/// Re-times what the node before it produced: the frames it counted and the
/// time left over are turned back into time, then into frames of the earlier
/// width scaled by the value under `scale` (thousandths; one where unset).
#[derive(Debug)]
pub struct ScaleNode {
    pub id: Option<NodeId>,
    pub name: String,
    pub scale: Attribute,
    pub next: NodeId,
}

impl ScaleNode {
    pub fn new(name: &str, scale: Attribute, next: NodeId) -> (r: ScaleNode)
        ensures
            r.id is None,
            r.name@ == name@,
            r.scale == scale,
            r.next == next,
    {
        ScaleNode { id: None, name: name.to_owned(), scale, next }
    }

    /// What running the node on `s` gives, and the store after it.
    pub open spec fn spec_run(self, s: StateView) -> (Result<NodeResult, RunError>, StateView) {
        let rem = stored_micros(s, Attribute::TimeThisFrame);
        let frames = stored_count(s, Attribute::Frames);
        let last = stored_micros(s, Attribute::LastFPS);
        if rem is Err {
            (Err(RunError::StateError(rem->Err_0)), s)
        } else if frames is Err {
            (Err(RunError::StateError(frames->Err_0)), s)
        } else if last is Err {
            (Err(RunError::StateError(last->Err_0)), s)
        } else {
            let total = last->Ok_0 * frames->Ok_0 + rem->Ok_0;
            let width = last->Ok_0 * stored_scale(s, self.scale) / PERMILLE_ONE as int;
            let (count, left) = split_time(total, width);
            let s1 = after_set(s, Attribute::LastFPS, Value::Micros(min_u64(width)));
            let s2 = after_set(s1, Attribute::TimeThisFrame, Value::Micros(min_u64(left)));
            let s3 = after_set(s2, Attribute::Frames, Value::Usize(min_usize(count)));
            (Ok(NodeResult::Next(self.next.static_of())), s3)
        }
    }

    /// Re-times the frames of the node before it by the stored scale.
    pub fn run(&self, state: &mut AnimationState) -> (r: Result<NodeResult, RunError>)
        requires
            old(state).well_formed(),
        ensures
            final(state).well_formed(),
            (r, final(state)@) == self.spec_run(old(state)@),
    {
        let rem = match state.get_micros(&Attribute::TimeThisFrame) {
            Ok(t) => t,
            Err(e) => return Err(RunError::StateError(e)),
        };
        let frames = match state.get_usize(&Attribute::Frames) {
            Ok(n) => n,
            Err(e) => return Err(RunError::StateError(e)),
        };
        let last = match state.get_micros(&Attribute::LastFPS) {
            Ok(t) => t,
            Err(e) => return Err(RunError::StateError(e)),
        };
        let scale = match state.get_permille(&self.scale) {
            Ok(n) => n,
            Err(_) => PERMILLE_ONE,
        };
        let big: u128 = 0xffff_ffff_ffff_ffff;
        proof {
            assert((last as int) * (frames as int) <= (big as int) * (big as int)) by (nonlinear_arith)
                requires last <= big, frames <= big;
            assert((last as int) * (scale as int) <= (big as int) * (big as int)) by (nonlinear_arith)
                requires last <= big, scale <= big;
        }
        let total: u128 = (last as u128) * (frames as u128) + (rem as u128);
        let width: u128 = (last as u128) * (scale as u128) / (PERMILLE_ONE as u128);
        let (count, left) = if width == 0 {
            (0u128, total)
        } else {
            (total / width, total % width)
        };
        let width64: u64 = if width <= big { width as u64 } else { u64::MAX };
        let left64: u64 = if left <= big { left as u64 } else { u64::MAX };
        let count_n: usize = if count <= usize::MAX as u128 { count as usize } else { usize::MAX };
        state.set_attribute(Attribute::LastFPS, Value::Micros(width64));
        state.set_attribute(Attribute::TimeThisFrame, Value::Micros(left64));
        state.set_attribute(Attribute::Frames, Value::Usize(count_n));
        Ok(NodeResult::Next(self.next.to_static()))
    }

    pub fn id(&self) -> (r: NodeId)
        ensures
            r == node_identity(self.id, self.name@),
    {
        identity_of(&self.id, &self.name)
    }

    pub fn set_id(&mut self, id: NodeId)
        ensures
            *final(self) == (ScaleNode { id: Some(id), ..*old(self) }),
    {
        self.id = Some(id);
    }
}

} // verus!

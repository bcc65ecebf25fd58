//! The values that an entity's attribute store holds.

use vstd::prelude::*;

verus! {

/// The type tag of a stored value.
#[derive(PartialEq, Eq, Structural, Clone, Copy, Debug)]
pub enum ValueKind {
    Usize,
    Micros,
    Bool,
    Permille,
}

/// A value in the attribute store.
///
/// Times are whole microseconds (`Micros`), and ratios such as a playback
/// scale are thousandths (`Permille`, so 1000 is one). A host that keeps an
/// enum of its own in the store writes it as a `Usize` tag.
#[derive(PartialEq, Eq, Structural, Clone, Copy, Debug)]
pub enum Value {
    Usize(usize),
    Micros(u64),
    Bool(bool),
    Permille(u64),
}

impl Value {
    pub open spec fn spec_kind(self) -> ValueKind {
        match self {
            Value::Usize(_) => ValueKind::Usize,
            Value::Micros(_) => ValueKind::Micros,
            Value::Bool(_) => ValueKind::Bool,
            Value::Permille(_) => ValueKind::Permille,
        }
    }

    pub fn kind(&self) -> (r: ValueKind)
        ensures
            r == self.spec_kind(),
    {
        match self {
            Value::Usize(_) => ValueKind::Usize,
            Value::Micros(_) => ValueKind::Micros,
            Value::Bool(_) => ValueKind::Bool,
            Value::Permille(_) => ValueKind::Permille,
        }
    }
}

} // verus!

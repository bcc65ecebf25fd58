//! Addresses of nodes in a node table.

use vstd::prelude::*;
use core::cmp::Ordering;
use crate::hashing::{get_hash, name_hash};

verus! {

/// The address of a node.
///
/// `U64` is a number picked by whoever built the graph, `Name` a name with its
/// hash, `Hash` the hash of a name alone, and `Handle` a handle into a table
/// that the host manages. A name and its hash are the same address; a number
/// never equals a name, even where the hash collides with it.
#[derive(Debug)]
pub enum NodeId {
    Handle(u64),
    Name(u64, String),
    U64(u64),
    Hash(u64),
}

impl NodeId {
    /// The address with any name dropped: what equality compares.
    pub open spec fn reduced(self) -> NodeId {
        match self {
            NodeId::Name(id, _) => NodeId::Hash(id),
            _ => self,
        }
    }

    /// A named address carries the hash of its name.
    pub open spec fn well_formed(self) -> bool {
        match self {
            NodeId::Name(id, name) => id == name_hash(name@),
            _ => true,
        }
    }

    /// Where the address sorts: handles, then numbers, then names; within one
    /// kind by the number or hash.
    pub open spec fn sort_key(self) -> (int, u64) {
        match self {
            NodeId::Handle(h) => (0, h),
            NodeId::U64(id) => (1, id),
            NodeId::Hash(id) => (2, id),
            NodeId::Name(id, _) => (2, id),
        }
    }

    pub open spec fn spec_compare(self, other: NodeId) -> Ordering {
        let (a, x) = self.sort_key();
        let (b, y) = other.sort_key();
        if a < b || (a == b && x < y) {
            Ordering::Less
        } else if a == b && x == y {
            Ordering::Equal
        } else {
            Ordering::Greater
        }
    }

    /// The address without its name, the hash recomputed from the name.
    pub open spec fn static_of(self) -> NodeId {
        match self {
            NodeId::Name(_, name) => NodeId::Hash(name_hash(name@)),
            _ => self,
        }
    }

    pub fn from_u64(id: u64) -> (r: NodeId)
        ensures
            r == NodeId::U64(id),
    {
        NodeId::U64(id)
    }

    /// The named address for `name`.
    pub fn from_name(name: &str) -> (r: NodeId)
        ensures
            r matches NodeId::Name(id, n) && n@ == name@ && id == name_hash(name@),
            r.well_formed(),
    {
        NodeId::Name(get_hash(name), name.to_owned())
    }

    /// A copy without the name: a named address becomes the hash of its name.
    pub fn to_static(&self) -> (r: NodeId)
        ensures
            r == self.static_of(),
            self.well_formed() ==> r == self.reduced(),
    {
        match self {
            NodeId::Name(_, name) => NodeId::Hash(get_hash(name.as_str())),
            NodeId::U64(id) => NodeId::U64(*id),
            NodeId::Hash(id) => NodeId::Hash(*id),
            NodeId::Handle(h) => NodeId::Handle(*h),
        }
    }

    /// A copy that keeps the name.
    pub fn deep_clone(&self) -> (r: NodeId)
        ensures
            r == *self,
    {
        match self {
            NodeId::Name(id, name) => NodeId::Name(*id, name.clone()),
            NodeId::U64(id) => NodeId::U64(*id),
            NodeId::Hash(id) => NodeId::Hash(*id),
            NodeId::Handle(h) => NodeId::Handle(*h),
        }
    }

    fn sort_pair(&self) -> (r: (u8, u64))
        ensures
            r.0 as int == self.sort_key().0,
            r.1 == self.sort_key().1,
    {
        match self {
            NodeId::Handle(h) => (0, *h),
            NodeId::U64(id) => (1, *id),
            NodeId::Hash(id) => (2, *id),
            NodeId::Name(id, _) => (2, *id),
        }
    }
}

impl PartialEq for NodeId {
    fn eq(&self, other: &NodeId) -> (r: bool) {
        match (self, other) {
            (NodeId::U64(a), NodeId::U64(b))
            | (NodeId::Name(a, _), NodeId::Name(b, _))
            | (NodeId::Name(a, _), NodeId::Hash(b))
            | (NodeId::Hash(a), NodeId::Hash(b))
            | (NodeId::Hash(a), NodeId::Name(b, _))
            | (NodeId::Handle(a), NodeId::Handle(b)) => *a == *b,
            _ => false,
        }
    }
}

impl vstd::std_specs::cmp::PartialEqSpecImpl for NodeId {
    open spec fn obeys_eq_spec() -> bool {
        true
    }

    open spec fn eq_spec(&self, other: &NodeId) -> bool {
        self.reduced() == other.reduced()
    }
}

impl Eq for NodeId {
}

impl PartialOrd for NodeId {
    fn partial_cmp(&self, other: &NodeId) -> (r: Option<Ordering>) {
        let (a, x) = self.sort_pair();
        let (b, y) = other.sort_pair();
        if a < b || (a == b && x < y) {
            Some(Ordering::Less)
        } else if a == b && x == y {
            Some(Ordering::Equal)
        } else {
            Some(Ordering::Greater)
        }
    }
}

impl vstd::std_specs::cmp::PartialOrdSpecImpl for NodeId {
    open spec fn obeys_partial_cmp_spec() -> bool {
        true
    }

    open spec fn partial_cmp_spec(&self, other: &NodeId) -> Option<Ordering> {
        Some(self.spec_compare(*other))
    }
}

impl Clone for NodeId {
    /// A copy without the name, as `to_static` makes it.
    fn clone(&self) -> (r: NodeId)
        ensures
            r == self.static_of(),
    {
        self.to_static()
    }
}

impl Default for NodeId {
    fn default() -> (r: NodeId)
        ensures
            r == NodeId::U64(0),
    {
        NodeId::U64(0)
    }
}

} // verus!

//! Keys of the per-entity attribute store.

use vstd::prelude::*;
use crate::hashing::{get_hash, name_hash};
use crate::text::{decimal, push_decimal, push_str};
use vstd::std_specs::cmp::PartialEqSpec;

verus! {

/// A key of an entity's attribute store.
///
/// `Custom` and `Index` keep the name they were made from next to its hash;
/// `CustomId` and `IndexId` keep the hash alone. A named key and its hash-only
/// form are the same key: they compare equal, and `clone` drops the name while
/// `deep_clone` keeps it. Custom and index keys live in separate namespaces,
/// and the remaining variants are the fixed core slots.
#[derive(Debug)]
pub enum Attribute {
    Custom(u64, String),
    CustomId(u64),
    Default,
    Delta,
    Frames,
    TimeThisFrame,
    FlipX,
    FlipY,
    LastFPS,
    Index(u64, String),
    IndexId(u64),
}

impl Attribute {
    /// The key with any name dropped: what equality compares.
    pub open spec fn reduced(self) -> Attribute {
        match self {
            Attribute::Custom(id, _) => Attribute::CustomId(id),
            Attribute::Index(id, _) => Attribute::IndexId(id),
            _ => self,
        }
    }

    /// A named key carries the hash of its name.
    pub open spec fn well_formed(self) -> bool {
        match self {
            Attribute::Custom(id, name) => id == name_hash(name@),
            Attribute::Index(id, name) => id == name_hash(name@),
            _ => true,
        }
    }

    pub open spec fn spec_is_core(self) -> bool {
        !(self is Custom || self is CustomId || self is Index || self is IndexId)
    }

    pub open spec fn spec_is_index(self) -> bool {
        self is Index || self is IndexId
    }

    pub open spec fn spec_is_custom(self) -> bool {
        self is Custom || self is CustomId
    }

    /// The hash of a custom or index key.
    pub open spec fn spec_id(self) -> Option<u64> {
        match self {
            Attribute::Custom(id, _) => Some(id),
            Attribute::CustomId(id) => Some(id),
            Attribute::Index(id, _) => Some(id),
            Attribute::IndexId(id) => Some(id),
            _ => None,
        }
    }

    /// The name of a core slot's variant.
    pub open spec fn variant_name(self) -> Seq<char> {
        match self {
            Attribute::Custom(..) | Attribute::CustomId(_) => "Custom"@,
            Attribute::Default => "Default"@,
            Attribute::Delta => "Delta"@,
            Attribute::Frames => "Frames"@,
            Attribute::TimeThisFrame => "TimeThisFrame"@,
            Attribute::FlipX => "FlipX"@,
            Attribute::FlipY => "FlipY"@,
            Attribute::LastFPS => "LastFPS"@,
            Attribute::Index(..) | Attribute::IndexId(_) => "Index"@,
        }
    }

    /// The name of a key: its own name, or the variant name of a core slot;
    /// none for a hash-only key.
    pub open spec fn spec_name(self) -> Option<Seq<char>> {
        match self {
            Attribute::Custom(_, name) => Some(name@),
            Attribute::Index(_, name) => Some(name@),
            Attribute::CustomId(_) | Attribute::IndexId(_) => None,
            _ => Some(self.variant_name()),
        }
    }

    /// The name of a key, or its hash in decimal where the name is gone.
    pub open spec fn spec_name_or_id(self) -> Seq<char> {
        match self {
            Attribute::CustomId(id) => decimal(id as nat),
            Attribute::IndexId(id) => decimal(id as nat),
            _ => self.spec_name().unwrap(),
        }
    }

    pub fn is_core(&self) -> (r: bool)
        ensures
            r == self.spec_is_core(),
    {
        match self {
            Attribute::Custom(_, _) | Attribute::CustomId(_) | Attribute::Index(_, _)
            | Attribute::IndexId(_) => false,
            _ => true,
        }
    }

    pub fn is_index(&self) -> (r: bool)
        ensures
            r == self.spec_is_index(),
    {
        match self {
            Attribute::Index(_, _) | Attribute::IndexId(_) => true,
            _ => false,
        }
    }

    pub fn is_custom(&self) -> (r: bool)
        ensures
            r == self.spec_is_custom(),
    {
        match self {
            Attribute::Custom(_, _) | Attribute::CustomId(_) => true,
            _ => false,
        }
    }

    /// A copy that keeps the name.
    pub fn deep_clone(&self) -> (r: Attribute)
        ensures
            r == *self,
    {
        match self {
            Attribute::Custom(id, name) => Attribute::Custom(*id, name.clone()),
            Attribute::CustomId(id) => Attribute::CustomId(*id),
            Attribute::Default => Attribute::Default,
            Attribute::Delta => Attribute::Delta,
            Attribute::Frames => Attribute::Frames,
            Attribute::TimeThisFrame => Attribute::TimeThisFrame,
            Attribute::FlipX => Attribute::FlipX,
            Attribute::FlipY => Attribute::FlipY,
            Attribute::LastFPS => Attribute::LastFPS,
            Attribute::Index(id, name) => Attribute::Index(*id, name.clone()),
            Attribute::IndexId(id) => Attribute::IndexId(*id),
        }
    }

    /// The named index key for `name`.
    pub fn new_index(name: &str) -> (r: Attribute)
        ensures
            r matches Attribute::Index(id, n) && n@ == name@ && id == name_hash(name@),
            r.well_formed(),
    {
        Attribute::Index(get_hash(name), name.to_owned())
    }

    /// The named custom key for `name`.
    pub fn new_attribute(name: &str) -> (r: Attribute)
        ensures
            r matches Attribute::Custom(id, n) && n@ == name@ && id == name_hash(name@),
            r.well_formed(),
    {
        Attribute::Custom(get_hash(name), name.to_owned())
    }

    /// The hash-only custom key for `name`.
    pub fn new_attribute_id(name: &str) -> (r: Attribute)
        ensures
            r == Attribute::CustomId(name_hash(name@)),
    {
        Attribute::CustomId(get_hash(name))
    }

    /// The hash-only index key for `name`.
    pub fn new_index_id(name: &str) -> (r: Attribute)
        ensures
            r == Attribute::IndexId(name_hash(name@)),
    {
        Attribute::IndexId(get_hash(name))
    }

    /// The hash of a custom or index key; none for a core slot.
    pub fn get_id(&self) -> (r: Option<u64>)
        ensures
            r == self.spec_id(),
    {
        match self {
            Attribute::CustomId(id) | Attribute::IndexId(id) | Attribute::Custom(id, _)
            | Attribute::Index(id, _) => Some(*id),
            _ => None,
        }
    }

    /// The name of a core slot's variant.
    pub fn variant_str(&self) -> (r: &'static str)
        ensures
            r@ == self.variant_name(),
    {
        proof {
            reveal_strlit("Custom");
            reveal_strlit("Default");
            reveal_strlit("Delta");
            reveal_strlit("Frames");
            reveal_strlit("TimeThisFrame");
            reveal_strlit("FlipX");
            reveal_strlit("FlipY");
            reveal_strlit("LastFPS");
            reveal_strlit("Index");
        }
        match self {
            Attribute::Custom(..) | Attribute::CustomId(_) => "Custom",
            Attribute::Default => "Default",
            Attribute::Delta => "Delta",
            Attribute::Frames => "Frames",
            Attribute::TimeThisFrame => "TimeThisFrame",
            Attribute::FlipX => "FlipX",
            Attribute::FlipY => "FlipY",
            Attribute::LastFPS => "LastFPS",
            Attribute::Index(..) | Attribute::IndexId(_) => "Index",
        }
    }

    /// The name of the key; none where only its hash is left.
    pub fn name(&self) -> (r: Option<&str>)
        ensures
            r.is_some() == self.spec_name().is_some(),
            r.is_some() ==> r.unwrap()@ == self.spec_name().unwrap(),
    {
        match self {
            Attribute::Custom(_, name) | Attribute::Index(_, name) => Some(name.as_str()),
            Attribute::CustomId(_) | Attribute::IndexId(_) => None,
            _ => Some(self.variant_str()),
        }
    }

    /// The name of the key, or its hash in decimal where the name is gone.
    pub fn name_or_id(&self) -> (r: String)
        ensures
            r@ == self.spec_name_or_id(),
    {
        let mut out = String::new();
        match self {
            Attribute::CustomId(id) | Attribute::IndexId(id) => {
                push_decimal(&mut out, *id);
                assert(out@ =~= self.spec_name_or_id());
            },
            _ => {
                let name = self.name();
                push_str(&mut out, name.unwrap());
                assert(out@ =~= self.spec_name_or_id());
            },
        }
        out
    }
}

impl PartialEq for Attribute {
    fn eq(&self, other: &Attribute) -> (r: bool) {
        match (self, other) {
            (Attribute::Custom(a, _), Attribute::Custom(b, _))
            | (Attribute::Custom(a, _), Attribute::CustomId(b))
            | (Attribute::CustomId(a), Attribute::Custom(b, _))
            | (Attribute::CustomId(a), Attribute::CustomId(b))
            | (Attribute::Index(a, _), Attribute::Index(b, _))
            | (Attribute::Index(a, _), Attribute::IndexId(b))
            | (Attribute::IndexId(a), Attribute::Index(b, _))
            | (Attribute::IndexId(a), Attribute::IndexId(b)) => *a == *b,
            (Attribute::Default, Attribute::Default)
            | (Attribute::Delta, Attribute::Delta)
            | (Attribute::Frames, Attribute::Frames)
            | (Attribute::TimeThisFrame, Attribute::TimeThisFrame)
            | (Attribute::FlipX, Attribute::FlipX)
            | (Attribute::FlipY, Attribute::FlipY)
            | (Attribute::LastFPS, Attribute::LastFPS) => true,
            _ => false,
        }
    }
}

impl vstd::std_specs::cmp::PartialEqSpecImpl for Attribute {
    open spec fn obeys_eq_spec() -> bool {
        true
    }

    open spec fn eq_spec(&self, other: &Attribute) -> bool {
        self.reduced() == other.reduced()
    }
}

impl Eq for Attribute {
}

impl Clone for Attribute {
    /// A copy without the name: named keys become their hash-only form.
    fn clone(&self) -> (r: Attribute)
        ensures
            r == self.reduced(),
    {
        match self {
            Attribute::Custom(id, _) => Attribute::CustomId(*id),
            Attribute::CustomId(id) => Attribute::CustomId(*id),
            Attribute::Default => Attribute::Default,
            Attribute::Delta => Attribute::Delta,
            Attribute::Frames => Attribute::Frames,
            Attribute::TimeThisFrame => Attribute::TimeThisFrame,
            Attribute::FlipX => Attribute::FlipX,
            Attribute::FlipY => Attribute::FlipY,
            Attribute::LastFPS => Attribute::LastFPS,
            Attribute::Index(id, _) => Attribute::IndexId(*id),
            Attribute::IndexId(id) => Attribute::IndexId(*id),
        }
    }
}

impl Default for Attribute {
    fn default() -> (r: Attribute)
        ensures
            r == Attribute::Default,
    {
        Attribute::Default
    }
}

/// Key identity: a key made from a name equals the hash-only key of the name's
/// hash, both under `==` and in the reduced form that the store keys by; a
/// custom key never equals an index key, even of the same name; and a core
/// slot equals no custom or index key.
pub proof fn lemma_key_identity(name: String, core: Attribute, other: Attribute)
    requires
        core.spec_is_core(),
        other.spec_is_custom() || other.spec_is_index(),
    ensures
        Attribute::Custom(name_hash(name@), name).eq_spec(&Attribute::CustomId(name_hash(name@))),
        Attribute::CustomId(name_hash(name@)).eq_spec(&Attribute::Custom(name_hash(name@), name)),
        Attribute::Custom(name_hash(name@), name).reduced()
            == Attribute::CustomId(name_hash(name@)).reduced(),
        Attribute::Index(name_hash(name@), name).eq_spec(&Attribute::IndexId(name_hash(name@))),
        Attribute::Index(name_hash(name@), name).reduced()
            == Attribute::IndexId(name_hash(name@)).reduced(),
        !Attribute::Custom(name_hash(name@), name).eq_spec(&Attribute::Index(name_hash(name@), name)),
        !core.eq_spec(&other),
        !other.eq_spec(&core),
{
}

} // verus!

//! The text forms of attribute keys and node addresses.
//!
//! A key is a core slot's name (`Delta`), or `Custom(..)` / `Index(..)` around
//! a quoted name or a hash in decimal. An address is `Id(n)`, `Name("..")`,
//! `Name(n)` for a hash, or `Handle(n)`.

use vstd::prelude::*;
use crate::attributes::Attribute;
use crate::hashing::{get_hash, name_hash};
use crate::node_id::NodeId;
use crate::parse::{
    chars_of, read_hex, spec_hex, spec_has_at, has_at, is_blank, is_word_char, read_string, read_uint, skip_blanks, spec_digits_end,
    spec_skip_blanks, spec_string, spec_string_rest, spec_uint, spec_word_end, word_end,
};

verus! {

/// What stands inside the parentheses of a wrapped form.
pub enum Inner {
    Str(Seq<char>),
    Num(nat),
}

/// `( value )` from place `i` on, blanks allowed around the value; the value
/// is a string literal or an unsigned number that fits in 64 bits.
pub open spec fn spec_wrapped(t: Seq<char>, i: int) -> Option<(Inner, int)> {
    let j = spec_skip_blanks(t, i);
    if !(0 <= j < t.len() && t[j] == '(') {
        None
    } else {
        let k = spec_skip_blanks(t, j + 1);
        let inner: Option<(Inner, int)> = match spec_string(t, k) {
            Some((s, m)) => Some((Inner::Str(s), m)),
            None => match spec_uint(t, k) {
                Some((n, m)) => if n <= u64::MAX { Some((Inner::Num(n), m)) } else { None },
                None => None,
            },
        };
        match inner {
            None => None,
            Some((v, m)) => {
                let q = spec_skip_blanks(t, m);
                if 0 <= q < t.len() && t[q] == ')' {
                    Some((v, q + 1))
                } else {
                    None
                }
            },
        }
    }
}

/// The core slot that a word names.
pub open spec fn core_named(w: Seq<char>) -> Option<Attribute> {
    if w == "Default"@ {
        Some(Attribute::Default)
    } else if w == "Delta"@ {
        Some(Attribute::Delta)
    } else if w == "Frames"@ {
        Some(Attribute::Frames)
    } else if w == "TimeThisFrame"@ {
        Some(Attribute::TimeThisFrame)
    } else if w == "FlipX"@ {
        Some(Attribute::FlipX)
    } else if w == "FlipY"@ {
        Some(Attribute::FlipY)
    } else if w == "LastFPS"@ {
        Some(Attribute::LastFPS)
    } else {
        None
    }
}

/// The key that a form stands for, with a name's hash worked out.
pub open spec fn key_of(is_index: bool, v: Inner) -> Attribute {
    match v {
        Inner::Num(n) => if is_index { Attribute::IndexId(n as u64) } else { Attribute::CustomId(n as u64) },
        Inner::Str(s) => if is_index {
            Attribute::IndexId(name_hash(s))
        } else {
            Attribute::CustomId(name_hash(s))
        },
    }
}

/// The name a form carries, if it carries one.
pub open spec fn name_in(v: Inner) -> Option<Seq<char>> {
    match v {
        Inner::Str(s) => Some(s),
        Inner::Num(_) => None,
    }
}

/// The key written at `i` (in reduced form), the name it carries, and the
/// place after it.
pub open spec fn spec_attribute(t: Seq<char>, i: int) -> Option<(Attribute, Option<Seq<char>>, int)> {
    let e = spec_word_end(t, i);
    let w = t.subrange(i, e);
    if core_named(w) is Some {
        Some((core_named(w).unwrap(), None, e))
    } else if w == "Custom"@ || w == "Index"@ {
        match spec_wrapped(t, e) {
            None => None,
            Some((v, m)) => Some((key_of(w == "Index"@, v), name_in(v), m)),
        }
    } else {
        None
    }
}

/// The address that a wrapped form after `word` stands for.
pub open spec fn id_of(word: Seq<char>, v: Inner) -> Option<NodeId> {
    if word == "Id"@ {
        match v {
            Inner::Num(n) => Some(NodeId::U64(n as u64)),
            Inner::Str(_) => None,
        }
    } else if word == "Handle"@ {
        match v {
            Inner::Num(n) => Some(NodeId::Handle(n as u64)),
            Inner::Str(_) => None,
        }
    } else if word == "Name"@ {
        match v {
            Inner::Num(n) => Some(NodeId::Hash(n as u64)),
            Inner::Str(s) => Some(NodeId::Hash(name_hash(s))),
        }
    } else {
        None
    }
}

/// The address written at `i` (in reduced form), the name it carries, and the
/// place after it.
pub open spec fn spec_node_id(t: Seq<char>, i: int) -> Option<(NodeId, Option<Seq<char>>, int)> {
    let e = spec_word_end(t, i);
    let w = t.subrange(i, e);
    match spec_wrapped(t, e) {
        None => None,
        Some((v, m)) => match id_of(w, v) {
            None => None,
            Some(id) => Some((id, name_in(v), m)),
        },
    }
}

/// A key's name as the key carries it.
pub open spec fn attr_name(a: Attribute) -> Option<Seq<char>> {
    match a {
        Attribute::Custom(_, n) => Some(n@),
        Attribute::Index(_, n) => Some(n@),
        _ => None,
    }
}

/// An address's name as it carries it.
pub open spec fn id_name(a: NodeId) -> Option<Seq<char>> {
    match a {
        NodeId::Name(_, n) => Some(n@),
        _ => None,
    }
}

/// A value read from inside parentheses.
pub enum InnerValue {
    Str(String),
    Num(u64),
}

impl InnerValue {
    pub open spec fn spec_inner(self) -> Inner {
        match self {
            InnerValue::Str(s) => Inner::Str(s@),
            InnerValue::Num(n) => Inner::Num(n as nat),
        }
    }
}

pub fn read_wrapped(t: &Vec<char>, i: usize) -> (r: Option<(InnerValue, usize)>)
    requires
        i <= t@.len(),
    ensures
        r matches Some((v, j)) ==> spec_wrapped(t@, i as int) == Some((v.spec_inner(), j as int)) && j <= t@.len(),
        r is None ==> spec_wrapped(t@, i as int) is None,
{
    let j = skip_blanks(t, i);
    if !(j < t.len() && t[j] == '(') {
        return None;
    }
    let k = skip_blanks(t, j + 1);
    let (v, m) = match read_string(t, k) {
        Some((s, m)) => (InnerValue::Str(s), m),
        None => match read_uint(t, k) {
            Some((n, m)) => (InnerValue::Num(n), m),
            None => return None,
        },
    };
    let q = skip_blanks(t, m);
    if q < t.len() && t[q] == ')' {
        Some((v, q + 1))
    } else {
        None
    }
}

proof fn lemma_string_rest_end(t: Seq<char>, k: int, acc: Seq<char>)
    ensures
        spec_string_rest(t, k, acc) matches Some((_, m)) ==> k < m <= t.len(),
    decreases t.len() - k,
{
    if 0 <= k < t.len() && t[k] != '"' {
        if t[k] == '\\' {
            if k + 1 < t.len() {
                lemma_string_rest_end(t, k + 2, acc.push(t[k + 1]));
            }
        } else {
            lemma_string_rest_end(t, k + 1, acc.push(t[k]));
        }
    }
}

pub proof fn lemma_string_end(t: Seq<char>, i: int)
    ensures
        spec_string(t, i) matches Some((_, m)) ==> i < m <= t.len(),
{
    if 0 <= i < t.len() && t[i] == '"' {
        lemma_string_rest_end(t, i + 1, Seq::empty());
    }
}

pub proof fn lemma_digits_bounds(t: Seq<char>, i: int)
    requires
        0 <= i <= t.len(),
    ensures
        i <= spec_digits_end(t, i) <= t.len(),
    decreases t.len() - i,
{
    if i < t.len() && crate::text::is_digit(t[i]) {
        lemma_digits_bounds(t, i + 1);
    }
}

/// Whether the word `t[i..e]` is `w`.
fn word_is(t: &Vec<char>, i: usize, e: usize, w: &str) -> (r: bool)
    requires
        i <= e <= t@.len(),
    ensures
        r == (t@.subrange(i as int, e as int) == w@),
{
    let n = w.unicode_len();
    if e - i != n {
        return false;
    }
    has_at(t, i, w)
}

/// The core slot that the word `t[i..e]` names.
fn read_core(t: &Vec<char>, i: usize, e: usize) -> (r: Option<Attribute>)
    requires
        i <= e <= t@.len(),
    ensures
        r == core_named(t@.subrange(i as int, e as int)),
{
    if word_is(t, i, e, "Default") {
        Some(Attribute::Default)
    } else if word_is(t, i, e, "Delta") {
        Some(Attribute::Delta)
    } else if word_is(t, i, e, "Frames") {
        Some(Attribute::Frames)
    } else if word_is(t, i, e, "TimeThisFrame") {
        Some(Attribute::TimeThisFrame)
    } else if word_is(t, i, e, "FlipX") {
        Some(Attribute::FlipX)
    } else if word_is(t, i, e, "FlipY") {
        Some(Attribute::FlipY)
    } else if word_is(t, i, e, "LastFPS") {
        Some(Attribute::LastFPS)
    } else {
        None
    }
}

/// The key written at `i`, with its name where it was written with one.
pub fn read_attribute(t: &Vec<char>, i: usize) -> (r: Option<(Attribute, usize)>)
    requires
        i <= t@.len(),
    ensures
        r matches Some((a, j)) ==> spec_attribute(t@, i as int) == Some((a.reduced(), attr_name(a), j as int))
            && a.well_formed() && j <= t@.len(),
        r is None ==> spec_attribute(t@, i as int) is None,
{
    let e = word_end(t, i);
    if let Some(a) = read_core(t, i, e) {
        return Some((a, e));
    }
    let is_custom = word_is(t, i, e, "Custom");
    let is_index = word_is(t, i, e, "Index");
    if !is_custom && !is_index {
        return None;
    }
    match read_wrapped(t, e) {
        None => None,
        Some((InnerValue::Num(n), m)) => {
            if is_index {
                Some((Attribute::IndexId(n), m))
            } else {
                Some((Attribute::CustomId(n), m))
            }
        },
        Some((InnerValue::Str(s), m)) => {
            let h = get_hash(s.as_str());
            if is_index {
                Some((Attribute::Index(h, s), m))
            } else {
                Some((Attribute::Custom(h, s), m))
            }
        },
    }
}

/// The address written at `i`, with its name where it was written with one.
pub fn read_node_id(t: &Vec<char>, i: usize) -> (r: Option<(NodeId, usize)>)
    requires
        i <= t@.len(),
    ensures
        r matches Some((a, j)) ==> spec_node_id(t@, i as int) == Some((a.reduced(), id_name(a), j as int))
            && a.well_formed() && j <= t@.len(),
        r is None ==> spec_node_id(t@, i as int) is None,
{
    proof {
        reveal_strlit("Id");
        reveal_strlit("Handle");
        reveal_strlit("Name");
    }
    let e = word_end(t, i);
    let is_id = word_is(t, i, e, "Id");
    let is_handle = word_is(t, i, e, "Handle");
    let is_name = word_is(t, i, e, "Name");
    match read_wrapped(t, e) {
        None => None,
        Some((InnerValue::Num(n), m)) => {
            if is_id {
                Some((NodeId::U64(n), m))
            } else if is_handle {
                Some((NodeId::Handle(n), m))
            } else if is_name {
                Some((NodeId::Hash(n), m))
            } else {
                None
            }
        },
        Some((InnerValue::Str(s), m)) => {
            if is_name {
                let h = get_hash(s.as_str());
                assert("Name"@.len() == 4 && "Id"@.len() == 2 && "Handle"@.len() == 6);
                Some((NodeId::Name(h, s), m))
            } else {
                None
            }
        },
    }
}

/// The key that a whole text writes, blanks around it allowed.
pub open spec fn spec_text_attribute(s: Seq<char>) -> Option<(Attribute, Option<Seq<char>>)> {
    let a = spec_skip_blanks(s, 0);
    let e = spec_word_end(s, a);
    let w = s.subrange(a, e);
    let ends_at = |j: int| spec_skip_blanks(s, j) == s.len();
    match spec_attribute(s, a) {
        Some((k, n, j)) if ends_at(j) => Some((k, n)),
        _ => match spec_hex_wrapped(s, e) {
            Some((h, j)) if (w == "Custom"@ || w == "Index"@) && ends_at(j) => Some(
                (key_of(w == "Index"@, Inner::Num(h)), None),
            ),
            _ => match spec_bare_number(s, a) {
                Some((h, j)) if ends_at(j) => Some((Attribute::CustomId(h as u64), None)),
                _ => None,
            },
        },
    }
}

/// `( 0x.. )` from place `i` on: a hexadecimal number in parentheses.
pub open spec fn spec_hex_wrapped(t: Seq<char>, i: int) -> Option<(nat, int)> {
    let j = spec_skip_blanks(t, i);
    if !(0 <= j < t.len() && t[j] == '(') {
        None
    } else {
        match spec_hex(t, spec_skip_blanks(t, j + 1)) {
            None => None,
            Some((h, m)) => {
                let q = spec_skip_blanks(t, m);
                if 0 <= q < t.len() && t[q] == ')' { Some((h, q + 1)) } else { None }
            },
        }
    }
}

/// A number written bare at `i`: hexadecimal after `0x`, or decimal; one
/// that fits in 64 bits.
pub open spec fn spec_bare_number(t: Seq<char>, i: int) -> Option<(nat, int)> {
    match spec_hex(t, i) {
        Some(r) => Some(r),
        None => match spec_uint(t, i) {
            Some((n, j)) => if n <= u64::MAX { Some((n, j)) } else { None },
            None => None,
        },
    }
}

fn read_hex_wrapped(t: &Vec<char>, i: usize) -> (r: Option<(u64, usize)>)
    requires
        i <= t@.len(),
    ensures
        r matches Some((h, j)) ==> spec_hex_wrapped(t@, i as int) == Some((h as nat, j as int)) && j <= t@.len(),
        r is None ==> spec_hex_wrapped(t@, i as int) is None,
{
    let j = skip_blanks(t, i);
    if !(j < t.len() && t[j] == '(') {
        return None;
    }
    let k = skip_blanks(t, j + 1);
    match read_hex(t, k) {
        None => None,
        Some((h, m)) => {
            let q = skip_blanks(t, m);
            if q < t.len() && t[q] == ')' { Some((h, q + 1)) } else { None }
        },
    }
}

fn read_bare_number(t: &Vec<char>, i: usize) -> (r: Option<(u64, usize)>)
    requires
        i <= t@.len(),
    ensures
        r matches Some((h, j)) ==> spec_bare_number(t@, i as int) == Some((h as nat, j as int)) && j <= t@.len(),
        r is None ==> spec_bare_number(t@, i as int) is None,
{
    match read_hex(t, i) {
        Some(x) => Some(x),
        None => read_uint(t, i),
    }
}

/// The address that a whole text writes, blanks around it and a `Node::`
/// before it allowed.
pub open spec fn spec_text_node_id(s: Seq<char>) -> Option<(NodeId, Option<Seq<char>>)> {
    let a = spec_skip_blanks(s, 0);
    let b = if spec_has_at(s, a, "Node::"@) { a + 6 } else { a };
    match spec_node_id(s, b) {
        Some((id, n, j)) => if spec_skip_blanks(s, j) == s.len() { Some((id, n)) } else { None },
        None => None,
    }
}

impl Attribute {
    /// The key that `s` writes: a core slot's name (`Delta`), `Custom(..)` or
    /// `Index(..)` around a quoted name, a decimal hash or a `0x..` hash, or a
    /// bare decimal or `0x..` hash of a custom key; any other text is taken
    /// as the name of a custom key.
    pub fn from_str(s: &str) -> (r: Attribute)
        ensures
            r.well_formed(),
            spec_text_attribute(s@) matches Some((k, n)) ==> r.reduced() == k && attr_name(r) == n,
            spec_text_attribute(s@) is None ==> r.reduced() == Attribute::CustomId(name_hash(s@))
                && attr_name(r) == Some(s@),
    {
        proof {
            reveal_strlit("Custom");
            reveal_strlit("Index");
        }
        let t = chars_of(s);
        let a = skip_blanks(&t, 0);
        match read_attribute(&t, a) {
            Some((k, j)) => {
                if skip_blanks(&t, j) == t.len() {
                    return k;
                }
            },
            None => {},
        }
        let e = word_end(&t, a);
        let is_custom = word_is(&t, a, e, "Custom");
        let is_index = word_is(&t, a, e, "Index");
        match read_hex_wrapped(&t, e) {
            Some((h, j)) => {
                if (is_custom || is_index) && skip_blanks(&t, j) == t.len() {
                    return if is_index { Attribute::IndexId(h) } else { Attribute::CustomId(h) };
                }
            },
            None => {},
        }
        match read_bare_number(&t, a) {
            Some((h, j)) => {
                if skip_blanks(&t, j) == t.len() {
                    return Attribute::CustomId(h);
                }
            },
            None => {},
        }
        Attribute::Custom(get_hash(s), s.to_owned())
    }
}

impl NodeId {
    /// The address that `s` writes (`Id(3)`, `Name("walk")`, `Name(42)`,
    /// `Handle(7)`, with or without `Node::` before it).
    pub fn from_str(s: &str) -> (r: Option<NodeId>)
        ensures
            r matches Some(id) ==> id.well_formed() && spec_text_node_id(s@) == Some((id.reduced(), id_name(id))),
            r is None ==> spec_text_node_id(s@) is None,
    {
        proof {
            reveal_strlit("Node::");
        }
        let t = chars_of(s);
        let a = skip_blanks(&t, 0);
        let b = if t.len() - a >= 6 && has_at(&t, a, "Node::") { a + 6 } else { a };
        match read_node_id(&t, b) {
            Some((id, j)) => {
                if skip_blanks(&t, j) == t.len() {
                    Some(id)
                } else {
                    None
                }
            },
            None => None,
        }
    }
}

} // verus!

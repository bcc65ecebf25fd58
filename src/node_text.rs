//! Building nodes from the fields of their text.

use vstd::prelude::*;
use crate::attributes::Attribute;
use crate::error::ParseIssue;
use crate::fields::{FieldSpan, spec_scan};
use crate::key_text::{attr_name, id_name, read_attribute, read_node_id, spec_attribute, spec_node_id};
use crate::node_id::NodeId;
use crate::nodes::fps_node::FPSNode;
use crate::nodes::index_node::IndexNode;
use crate::nodes::scale_node::ScaleNode;
use crate::nodes::variable_node::VariableNode;
use crate::nodes::match_node::MatchNode;
use crate::value::{Value, ValueKind};
use crate::parse::{spec_word_end, word_end};
use crate::parse::{has_at, read_string, read_uint, skip_blanks, spec_skip_blanks, spec_string, spec_uint};
use crate::values::{read_bool, read_path_list, read_timed_list, spec_bool, spec_path_list, spec_timed_list};

verus! {

/// The last field named `name`.
pub open spec fn spec_field(t: Seq<char>, fs: Seq<FieldSpan>, name: Seq<char>) -> Option<FieldSpan>
    decreases fs.len(),
{
    if fs.len() == 0 {
        None
    } else if t.subrange(fs.last().name_start as int, fs.last().name_end as int) == name {
        Some(fs.last())
    } else {
        spec_field(t, fs.drop_last(), name)
    }
}

/// Fields lie inside the text, their names before their values.
pub open spec fn spans_ok(t: Seq<char>, fs: Seq<FieldSpan>) -> bool {
    forall|k: int| 0 <= k < fs.len() ==> {
        let f = #[trigger] fs[k];
        f.name_start <= f.name_end <= f.start <= f.end <= t.len()
    }
}

/// A value read at a field's start that fills the field up to blanks.
pub open spec fn whole<T>(t: Seq<char>, r: Option<(T, int)>, f: FieldSpan) -> Option<T> {
    match r {
        Some((v, j)) => if spec_skip_blanks(t, j) == f.end as int { Some(v) } else { None },
        None => None,
    }
}

/// What a field named `name` of a body gives: nothing where it is missing,
/// or the value read from it by `read`, or the place of a bad value.
pub open spec fn field_value<T>(t: Seq<char>, fs: Seq<FieldSpan>, name: Seq<char>, read: spec_fn(Seq<char>, int) -> Option<(T, int)>) -> Option<Result<T, int>> {
    match spec_field(t, fs, name) {
        None => None,
        Some(f) => match whole(t, read(t, f.start as int), f) {
            Some(v) => Some(Ok(v)),
            None => Some(Err(f.start as int)),
        },
    }
}

pub fn find_field(t: &Vec<char>, fs: &Vec<FieldSpan>, name: &str) -> (r: Option<usize>)
    requires
        spans_ok(t@, fs@),
    ensures
        r matches Some(k) ==> k < fs@.len() && spec_field(t@, fs@, name@) == Some(fs@[k as int]),
        r is None ==> spec_field(t@, fs@, name@) is None,
{
    let mut k = fs.len();
    assert(fs@.subrange(0, k as int) =~= fs@);
    while k > 0
        invariant
            k <= fs@.len(),
            spans_ok(t@, fs@),
            spec_field(t@, fs@, name@) == spec_field(t@, fs@.subrange(0, k as int), name@),
        decreases k,
    {
        let ghost pre = fs@.subrange(0, k as int);
        assert(pre.drop_last() =~= fs@.subrange(0, k - 1));
        let f = &fs[k - 1];
        let n = name.unicode_len();
        if f.name_end - f.name_start == n && has_at(t, f.name_start, name) {
            return Some(k - 1);
        }
        k = k - 1;
    }
    None
}

/// Whether the value read up to `j` fills the field.
fn fills(t: &Vec<char>, j: usize, f: &FieldSpan) -> (r: bool)
    requires
        j <= t@.len(),
    ensures
        r == (spec_skip_blanks(t@, j as int) == f.end as int),
{
    skip_blanks(t, j) == f.end
}

/// The key written at `i` with the name it carries, and the place after it.
pub open spec fn attribute_value(t: Seq<char>, i: int) -> Option<((Attribute, Option<Seq<char>>), int)> {
    match spec_attribute(t, i) {
        Some((a, n, j)) => Some(((a, n), j)),
        None => None,
    }
}

/// The address written at `i` with the name it carries, and the place after it.
pub open spec fn node_id_value(t: Seq<char>, i: int) -> Option<((NodeId, Option<Seq<char>>), int)> {
    match spec_node_id(t, i) {
        Some((a, n, j)) => Some(((a, n), j)),
        None => None,
    }
}

pub open spec fn spec_u32(t: Seq<char>, i: int) -> Option<(nat, int)> {
    match spec_uint(t, i) {
        Some((n, j)) => if n <= u32::MAX { Some((n, j)) } else { None },
        None => None,
    }
}

/// The index node that a body's fields describe: its name, frame paths, loop
/// flag and index key (reduced, with the name it was written with); or what
/// was wrong and where. `end` is where the body ends.
pub open spec fn spec_index_fields(t: Seq<char>, fs: Seq<FieldSpan>, end: int)
    -> Result<(Seq<char>, Seq<Seq<char>>, bool, Attribute, Option<Seq<char>>), (ParseIssue, int)>
{
    let name = field_value(t, fs, "name"@, |t: Seq<char>, i: int| spec_string(t, i));
    let frames = field_value(t, fs, "frames"@, |t: Seq<char>, i: int| spec_path_list(t, i));
    let is_loop = field_value(t, fs, "is_loop"@, |t: Seq<char>, i: int| spec_bool(t, i));
    let index = field_value(t, fs, "index"@, |t: Seq<char>, i: int| attribute_value(t, i));
    if name is None {
        Err((ParseIssue::MissingField, end))
    } else if name.unwrap() is Err {
        Err((ParseIssue::BadValue, name.unwrap()->Err_0))
    } else if frames is None {
        Err((ParseIssue::MissingField, end))
    } else if frames.unwrap() is Err {
        Err((ParseIssue::BadValue, frames.unwrap()->Err_0))
    } else if is_loop is Some && is_loop.unwrap() is Err {
        Err((ParseIssue::BadValue, is_loop.unwrap()->Err_0))
    } else if index is Some && index.unwrap() is Err {
        Err((ParseIssue::BadValue, index.unwrap()->Err_0))
    } else {
        let l = match is_loop { Some(Ok(b)) => b, _ => false };
        let (k, kn) = match index { Some(Ok(a)) => a, _ => (Attribute::IndexId(0), None) };
        Ok((name.unwrap()->Ok_0, frames.unwrap()->Ok_0, l, k, kn))
    }
}

/// Reads an index node from a body's fields.
pub fn index_from_fields(t: &Vec<char>, fs: &Vec<FieldSpan>, end: usize) -> (r: Result<IndexNode, (ParseIssue, usize)>)
    requires
        spans_ok(t@, fs@),
    ensures
        r matches Ok(n) ==> n.id is None && n.index.well_formed() && spec_index_fields(t@, fs@, end as int) == Ok::<_, (ParseIssue, int)>(
            (n.name@, n.frames@.map_values(|p: String| p@), n.is_loop, n.index.reduced(), attr_name(n.index))),
        r matches Err((issue, pos)) ==> spec_index_fields(t@, fs@, end as int) == Err::<(Seq<char>, Seq<Seq<char>>, bool, Attribute, Option<Seq<char>>), (ParseIssue, int)>((issue, pos as int)),
{
    proof {
        reveal_strlit("name");
        reveal_strlit("frames");
        reveal_strlit("is_loop");
        reveal_strlit("index");
    }
    let name = match find_field(t, fs, "name") {
        None => return Err((ParseIssue::MissingField, end)),
        Some(k) => {
            let f = &fs[k];
            match read_string(t, f.start) {
                Some((s, j)) => if fills(t, j, f) { s } else { return Err((ParseIssue::BadValue, f.start)) },
                None => return Err((ParseIssue::BadValue, f.start)),
            }
        },
    };
    let frames = match find_field(t, fs, "frames") {
        None => return Err((ParseIssue::MissingField, end)),
        Some(k) => {
            let f = &fs[k];
            match read_path_list(t, f.start) {
                Some((v, j)) => if fills(t, j, f) { v } else { return Err((ParseIssue::BadValue, f.start)) },
                None => return Err((ParseIssue::BadValue, f.start)),
            }
        },
    };
    let is_loop = match find_field(t, fs, "is_loop") {
        None => false,
        Some(k) => {
            let f = &fs[k];
            match read_bool(t, f.start) {
                Some((b, j)) => if fills(t, j, f) { b } else { return Err((ParseIssue::BadValue, f.start)) },
                None => return Err((ParseIssue::BadValue, f.start)),
            }
        },
    };
    let index = match find_field(t, fs, "index") {
        None => Attribute::IndexId(0),
        Some(k) => {
            let f = &fs[k];
            match read_attribute(t, f.start) {
                Some((a, j)) => if fills(t, j, f) { a } else { return Err((ParseIssue::BadValue, f.start)) },
                None => return Err((ParseIssue::BadValue, f.start)),
            }
        },
    };
    Ok(IndexNode { id: None, name, frames, is_loop, index })
}

/// The frame-rate node that a body's fields describe: its name, rate and
/// next address (reduced, with the name it was written with).
pub open spec fn spec_fps_fields(t: Seq<char>, fs: Seq<FieldSpan>, end: int)
    -> Result<(Seq<char>, nat, NodeId, Option<Seq<char>>), (ParseIssue, int)>
{
    let name = field_value(t, fs, "name"@, |t: Seq<char>, i: int| spec_string(t, i));
    let fps = field_value(t, fs, "fps"@, |t: Seq<char>, i: int| spec_u32(t, i));
    let next = field_value(t, fs, "next"@, |t: Seq<char>, i: int| node_id_value(t, i));
    if name is None || fps is None || next is None {
        Err((ParseIssue::MissingField, end))
    } else if name.unwrap() is Err {
        Err((ParseIssue::BadValue, name.unwrap()->Err_0))
    } else if fps.unwrap() is Err {
        Err((ParseIssue::BadValue, fps.unwrap()->Err_0))
    } else if next.unwrap() is Err {
        Err((ParseIssue::BadValue, next.unwrap()->Err_0))
    } else {
        let (n, nn) = next.unwrap()->Ok_0;
        Ok((name.unwrap()->Ok_0, fps.unwrap()->Ok_0, n, nn))
    }
}

fn field_string(t: &Vec<char>, fs: &Vec<FieldSpan>, k: usize) -> (r: Result<String, (ParseIssue, usize)>)
    requires
        spans_ok(t@, fs@),
        k < fs@.len(),
    ensures
        r matches Ok(s) ==> whole(t@, spec_string(t@, fs@[k as int].start as int), fs@[k as int]) == Some(s@),
        r matches Err((issue, pos)) ==> issue == ParseIssue::BadValue && pos == fs@[k as int].start
            && whole(t@, spec_string(t@, fs@[k as int].start as int), fs@[k as int]) is None,
{
    let f = &fs[k];
    match read_string(t, f.start) {
        Some((s, j)) => if fills(t, j, f) { Ok(s) } else { Err((ParseIssue::BadValue, f.start)) },
        None => Err((ParseIssue::BadValue, f.start)),
    }
}

fn field_node_id(t: &Vec<char>, fs: &Vec<FieldSpan>, k: usize) -> (r: Result<NodeId, (ParseIssue, usize)>)
    requires
        spans_ok(t@, fs@),
        k < fs@.len(),
    ensures
        r matches Ok(a) ==> a.well_formed() && whole(t@, node_id_value(t@, fs@[k as int].start as int), fs@[k as int]) == Some((a.reduced(), id_name(a))),
        r matches Err((issue, pos)) ==> issue == ParseIssue::BadValue && pos == fs@[k as int].start
            && whole(t@, node_id_value(t@, fs@[k as int].start as int), fs@[k as int]) is None,
{
    let f = &fs[k];
    match read_node_id(t, f.start) {
        Some((a, j)) => if fills(t, j, f) { Ok(a) } else { Err((ParseIssue::BadValue, f.start)) },
        None => Err((ParseIssue::BadValue, f.start)),
    }
}

fn field_attribute(t: &Vec<char>, fs: &Vec<FieldSpan>, k: usize) -> (r: Result<Attribute, (ParseIssue, usize)>)
    requires
        spans_ok(t@, fs@),
        k < fs@.len(),
    ensures
        r matches Ok(a) ==> a.well_formed() && whole(t@, attribute_value(t@, fs@[k as int].start as int), fs@[k as int]) == Some((a.reduced(), attr_name(a))),
        r matches Err((issue, pos)) ==> issue == ParseIssue::BadValue && pos == fs@[k as int].start
            && whole(t@, attribute_value(t@, fs@[k as int].start as int), fs@[k as int]) is None,
{
    let f = &fs[k];
    match read_attribute(t, f.start) {
        Some((a, j)) => if fills(t, j, f) { Ok(a) } else { Err((ParseIssue::BadValue, f.start)) },
        None => Err((ParseIssue::BadValue, f.start)),
    }
}

/// Reads a frame-rate node from a body's fields.
pub fn fps_from_fields(t: &Vec<char>, fs: &Vec<FieldSpan>, end: usize) -> (r: Result<FPSNode, (ParseIssue, usize)>)
    requires
        spans_ok(t@, fs@),
    ensures
        r matches Ok(n) ==> n.id is None && n.next.well_formed() && spec_fps_fields(t@, fs@, end as int) == Ok::<_, (ParseIssue, int)>(
            (n.name@, n.fps as nat, n.next.reduced(), id_name(n.next))),
        r matches Err((issue, pos)) ==> spec_fps_fields(t@, fs@, end as int) == Err::<(Seq<char>, nat, NodeId, Option<Seq<char>>), (ParseIssue, int)>((issue, pos as int)),
{
    proof {
        reveal_strlit("name");
        reveal_strlit("fps");
        reveal_strlit("next");
    }
    let kn = find_field(t, fs, "name");
    let kf = find_field(t, fs, "fps");
    let kx = find_field(t, fs, "next");
    if kn.is_none() || kf.is_none() || kx.is_none() {
        return Err((ParseIssue::MissingField, end));
    }
    let name = match field_string(t, fs, kn.unwrap()) {
        Ok(s) => s,
        Err(e) => return Err(e),
    };
    let f = &fs[kf.unwrap()];
    let fps: u32 = match read_uint(t, f.start) {
        Some((n, j)) => if n <= u32::MAX as u64 && fills(t, j, f) { n as u32 } else { return Err((ParseIssue::BadValue, f.start)) },
        None => return Err((ParseIssue::BadValue, f.start)),
    };
    let next = match field_node_id(t, fs, kx.unwrap()) {
        Ok(a) => a,
        Err(e) => return Err(e),
    };
    Ok(FPSNode { id: None, name, fps, next })
}

/// The scale node that a body's fields describe: its name, scale key and
/// next address.
pub open spec fn spec_scale_fields(t: Seq<char>, fs: Seq<FieldSpan>, end: int)
    -> Result<(Seq<char>, (Attribute, Option<Seq<char>>), (NodeId, Option<Seq<char>>)), (ParseIssue, int)>
{
    let name = field_value(t, fs, "name"@, |t: Seq<char>, i: int| spec_string(t, i));
    let scale = field_value(t, fs, "scale"@, |t: Seq<char>, i: int| attribute_value(t, i));
    let next = field_value(t, fs, "next"@, |t: Seq<char>, i: int| node_id_value(t, i));
    if name is None || scale is None || next is None {
        Err((ParseIssue::MissingField, end))
    } else if name.unwrap() is Err {
        Err((ParseIssue::BadValue, name.unwrap()->Err_0))
    } else if scale.unwrap() is Err {
        Err((ParseIssue::BadValue, scale.unwrap()->Err_0))
    } else if next.unwrap() is Err {
        Err((ParseIssue::BadValue, next.unwrap()->Err_0))
    } else {
        Ok((name.unwrap()->Ok_0, scale.unwrap()->Ok_0, next.unwrap()->Ok_0))
    }
}

/// Reads a scale node from a body's fields.
pub fn scale_from_fields(t: &Vec<char>, fs: &Vec<FieldSpan>, end: usize) -> (r: Result<ScaleNode, (ParseIssue, usize)>)
    requires
        spans_ok(t@, fs@),
    ensures
        r matches Ok(n) ==> n.id is None && n.scale.well_formed() && n.next.well_formed()
            && spec_scale_fields(t@, fs@, end as int) == Ok::<_, (ParseIssue, int)>(
            (n.name@, (n.scale.reduced(), attr_name(n.scale)), (n.next.reduced(), id_name(n.next)))),
        r matches Err((issue, pos)) ==> spec_scale_fields(t@, fs@, end as int) == Err::<(Seq<char>, (Attribute, Option<Seq<char>>), (NodeId, Option<Seq<char>>)), (ParseIssue, int)>((issue, pos as int)),
{
    proof {
        reveal_strlit("name");
        reveal_strlit("scale");
        reveal_strlit("next");
    }
    let kn = find_field(t, fs, "name");
    let ks = find_field(t, fs, "scale");
    let kx = find_field(t, fs, "next");
    if kn.is_none() || ks.is_none() || kx.is_none() {
        return Err((ParseIssue::MissingField, end));
    }
    let name = match field_string(t, fs, kn.unwrap()) {
        Ok(s) => s,
        Err(e) => return Err(e),
    };
    let scale = match field_attribute(t, fs, ks.unwrap()) {
        Ok(a) => a,
        Err(e) => return Err(e),
    };
    let next = match field_node_id(t, fs, kx.unwrap()) {
        Ok(a) => a,
        Err(e) => return Err(e),
    };
    Ok(ScaleNode { id: None, name, scale, next })
}

/// The node with frames of their own lengths that a body's fields describe:
/// its name, frames with their lengths in microseconds, loop flag and index
/// key.
pub open spec fn spec_variable_fields(t: Seq<char>, fs: Seq<FieldSpan>, end: int)
    -> Result<(Seq<char>, Seq<(Seq<char>, nat)>, bool, Attribute, Option<Seq<char>>), (ParseIssue, int)>
{
    let name = field_value(t, fs, "name"@, |t: Seq<char>, i: int| spec_string(t, i));
    let frames = field_value(t, fs, "frames"@, |t: Seq<char>, i: int| spec_timed_list(t, i));
    let is_loop = field_value(t, fs, "is_loop"@, |t: Seq<char>, i: int| spec_bool(t, i));
    let index = field_value(t, fs, "index"@, |t: Seq<char>, i: int| attribute_value(t, i));
    if name is None {
        Err((ParseIssue::MissingField, end))
    } else if name.unwrap() is Err {
        Err((ParseIssue::BadValue, name.unwrap()->Err_0))
    } else if frames is None {
        Err((ParseIssue::MissingField, end))
    } else if frames.unwrap() is Err {
        Err((ParseIssue::BadValue, frames.unwrap()->Err_0))
    } else if is_loop is Some && is_loop.unwrap() is Err {
        Err((ParseIssue::BadValue, is_loop.unwrap()->Err_0))
    } else if index is Some && index.unwrap() is Err {
        Err((ParseIssue::BadValue, index.unwrap()->Err_0))
    } else {
        let l = match is_loop { Some(Ok(b)) => b, _ => false };
        let (k, kn) = match index { Some(Ok(a)) => a, _ => (Attribute::IndexId(0), None) };
        Ok((name.unwrap()->Ok_0, frames.unwrap()->Ok_0, l, k, kn))
    }
}

/// Reads a node with frames of their own lengths from a body's fields.
pub fn variable_from_fields(t: &Vec<char>, fs: &Vec<FieldSpan>, end: usize) -> (r: Result<VariableNode, (ParseIssue, usize)>)
    requires
        spans_ok(t@, fs@),
    ensures
        r matches Ok(n) ==> n.id is None && n.index.well_formed() && spec_variable_fields(t@, fs@, end as int) == Ok::<_, (ParseIssue, int)>(
            (n.name@, n.frames@.map_values(|p: (String, u64)| (p.0@, p.1 as nat)), n.is_loop, n.index.reduced(), attr_name(n.index))),
        r matches Err((issue, pos)) ==> spec_variable_fields(t@, fs@, end as int) == Err::<(Seq<char>, Seq<(Seq<char>, nat)>, bool, Attribute, Option<Seq<char>>), (ParseIssue, int)>((issue, pos as int)),
{
    proof {
        reveal_strlit("name");
        reveal_strlit("frames");
        reveal_strlit("is_loop");
        reveal_strlit("index");
    }
    let name = match find_field(t, fs, "name") {
        None => return Err((ParseIssue::MissingField, end)),
        Some(k) => match field_string(t, fs, k) {
            Ok(s) => s,
            Err(e) => return Err(e),
        },
    };
    let frames = match find_field(t, fs, "frames") {
        None => return Err((ParseIssue::MissingField, end)),
        Some(k) => {
            let f = &fs[k];
            match read_timed_list(t, f.start) {
                Some((v, j)) => if fills(t, j, f) { v } else { return Err((ParseIssue::BadValue, f.start)) },
                None => return Err((ParseIssue::BadValue, f.start)),
            }
        },
    };
    let is_loop = match find_field(t, fs, "is_loop") {
        None => false,
        Some(k) => {
            let f = &fs[k];
            match read_bool(t, f.start) {
                Some((b, j)) => if fills(t, j, f) { b } else { return Err((ParseIssue::BadValue, f.start)) },
                None => return Err((ParseIssue::BadValue, f.start)),
            }
        },
    };
    let index = match find_field(t, fs, "index") {
        None => Attribute::IndexId(0),
        Some(k) => match field_attribute(t, fs, k) {
            Ok(a) => a,
            Err(e) => return Err(e),
        },
    };
    Ok(VariableNode { id: None, name, frames, is_loop, index })
}

/// The kind that a word names.
pub open spec fn kind_named(w: Seq<char>) -> Option<ValueKind> {
    if w == "Usize"@ {
        Some(ValueKind::Usize)
    } else if w == "Micros"@ {
        Some(ValueKind::Micros)
    } else if w == "Bool"@ {
        Some(ValueKind::Bool)
    } else if w == "Permille"@ {
        Some(ValueKind::Permille)
    } else {
        None
    }
}

/// The kind written at `i`.
pub open spec fn spec_kind(t: Seq<char>, i: int) -> Option<(ValueKind, int)> {
    let e = spec_word_end(t, i);
    match kind_named(t.subrange(i, e)) {
        Some(k) => Some((k, e)),
        None => None,
    }
}

/// A value of kind `kind` written at `i`: a flag, or an unsigned number that
/// fits the kind.
pub open spec fn spec_value(t: Seq<char>, i: int, kind: ValueKind) -> Option<(Value, int)> {
    match kind {
        ValueKind::Bool => match spec_bool(t, i) {
            Some((b, j)) => Some((Value::Bool(b), j)),
            None => None,
        },
        _ => match spec_uint(t, i) {
            Some((n, j)) => if kind == ValueKind::Usize && n <= usize::MAX {
                Some((Value::Usize(n as usize), j))
            } else if kind == ValueKind::Micros && n <= u64::MAX {
                Some((Value::Micros(n as u64), j))
            } else if kind == ValueKind::Permille && n <= u64::MAX {
                Some((Value::Permille(n as u64), j))
            } else {
                None
            },
            None => None,
        },
    }
}

/// The items of a list of `(value, address)` pairs from `i` on.
pub open spec fn spec_pair_items(t: Seq<char>, i: int, kind: ValueKind, acc: Seq<(Value, (NodeId, Option<Seq<char>>))>)
    -> Option<(Seq<(Value, (NodeId, Option<Seq<char>>))>, int)>
    decreases t.len() - i,
{
    let a = spec_skip_blanks(t, i);
    if i < 0 || a >= t.len() {
        None
    } else if t[a] == ']' {
        Some((acc, a + 1))
    } else if t[a] != '(' {
        None
    } else {
        match spec_value(t, spec_skip_blanks(t, a + 1), kind) {
            None => None,
            Some((v, m)) => {
                let c = spec_skip_blanks(t, m);
                if !(c < t.len() && t[c] == ',') {
                    None
                } else {
                    match spec_node_id(t, spec_skip_blanks(t, c + 1)) {
                        None => None,
                        Some((id, nm, n)) => {
                            let q = spec_skip_blanks(t, n);
                            if !(q < t.len() && t[q] == ')') {
                                None
                            } else {
                                let b = spec_skip_blanks(t, q + 1);
                                if b >= t.len() || b + 1 <= i {
                                    None
                                } else if t[b] == ',' {
                                    spec_pair_items(t, b + 1, kind, acc.push((v, (id, nm))))
                                } else if t[b] == ']' {
                                    Some((acc.push((v, (id, nm))), b + 1))
                                } else {
                                    None
                                }
                            }
                        },
                    }
                }
            },
        }
    }
}

pub open spec fn spec_pair_list(t: Seq<char>, i: int, kind: ValueKind) -> Option<(Seq<(Value, (NodeId, Option<Seq<char>>))>, int)> {
    if 0 <= i < t.len() && t[i] == '[' {
        spec_pair_items(t, i + 1, kind, Seq::empty())
    } else {
        None
    }
}

fn read_kind(t: &Vec<char>, i: usize) -> (r: Option<(ValueKind, usize)>)
    requires
        i <= t@.len(),
    ensures
        r matches Some((k, j)) ==> spec_kind(t@, i as int) == Some((k, j as int)) && j <= t@.len(),
        r is None ==> spec_kind(t@, i as int) is None,
{
    proof {
        reveal_strlit("Usize");
        reveal_strlit("Micros");
        reveal_strlit("Bool");
        reveal_strlit("Permille");
    }
    let e = word_end(t, i);
    let n = e - i;
    if n == 5 && has_at(t, i, "Usize") {
        Some((ValueKind::Usize, e))
    } else if n == 6 && has_at(t, i, "Micros") {
        Some((ValueKind::Micros, e))
    } else if n == 4 && has_at(t, i, "Bool") {
        Some((ValueKind::Bool, e))
    } else if n == 8 && has_at(t, i, "Permille") {
        Some((ValueKind::Permille, e))
    } else {
        assert("Usize"@.len() == 5 && "Micros"@.len() == 6 && "Bool"@.len() == 4 && "Permille"@.len() == 8);
        None
    }
}

pub fn read_value(t: &Vec<char>, i: usize, kind: ValueKind) -> (r: Option<(Value, usize)>)
    requires
        i <= t@.len(),
    ensures
        r matches Some((v, j)) ==> spec_value(t@, i as int, kind) == Some((v, j as int)) && j <= t@.len(),
        r is None ==> spec_value(t@, i as int, kind) is None,
{
    match kind {
        ValueKind::Bool => match read_bool(t, i) {
            Some((b, j)) => Some((Value::Bool(b), j)),
            None => None,
        },
        _ => match read_uint(t, i) {
            Some((n, j)) => {
                if kind == ValueKind::Usize && n <= usize::MAX as u64 {
                    Some((Value::Usize(n as usize), j))
                } else if kind == ValueKind::Micros {
                    Some((Value::Micros(n), j))
                } else if kind == ValueKind::Permille {
                    Some((Value::Permille(n), j))
                } else {
                    None
                }
            },
            None => None,
        },
    }
}

fn read_pair_list(t: &Vec<char>, i: usize, kind: ValueKind) -> (r: Option<(Vec<(Value, NodeId)>, usize)>)
    requires
        i <= t@.len(),
    ensures
        r matches Some((ps, j)) ==> spec_pair_list(t@, i as int, kind) == Some((ps@.map_values(|p: (Value, NodeId)| (p.0, (p.1.reduced(), id_name(p.1)))), j as int))
            && j <= t@.len() && forall|k: int| 0 <= k < ps@.len() ==> (#[trigger] ps@[k]).1.well_formed(),
        r is None ==> spec_pair_list(t@, i as int, kind) is None,
{
    if !(i < t.len() && t[i] == '[') {
        return None;
    }
    let mut items: Vec<(Value, NodeId)> = Vec::new();
    let mut p = i + 1;
    let ghost goal = spec_pair_list(t@, i as int, kind);
    assert(items@.map_values(|p: (Value, NodeId)| (p.0, (p.1.reduced(), id_name(p.1)))) =~= Seq::<(Value, (NodeId, Option<Seq<char>>))>::empty());
    let mut out: Option<Option<usize>> = None;
    while out.is_none()
        invariant
            i < p <= t@.len(),
            forall|k: int| 0 <= k < items@.len() ==> (#[trigger] items@[k]).1.well_formed(),
            out is None ==> spec_pair_items(t@, p as int, kind, items@.map_values(|p: (Value, NodeId)| (p.0, (p.1.reduced(), id_name(p.1))))) == goal,
            out matches Some(Some(j)) ==> goal == Some((items@.map_values(|p: (Value, NodeId)| (p.0, (p.1.reduced(), id_name(p.1)))), j as int)) && j <= t@.len(),
            out matches Some(None) ==> goal is None,
        decreases t@.len() - p, if out is None { 1int } else { 0int },
    {
        let a = skip_blanks(t, p);
        if a >= t.len() {
            out = Some(None);
        } else if t[a] == ']' {
            out = Some(Some(a + 1));
        } else if t[a] != '(' {
            out = Some(None);
        } else {
            let a1 = skip_blanks(t, a + 1);
            match read_value(t, a1, kind) {
                None => {
                    out = Some(None);
                },
                Some((v, m)) => {
                    let c = skip_blanks(t, m);
                    if !(c < t.len() && t[c] == ',') {
                        out = Some(None);
                    } else {
                        let c1 = skip_blanks(t, c + 1);
                        match read_node_id(t, c1) {
                            None => {
                                out = Some(None);
                            },
                            Some((id, n)) => {
                                let q = skip_blanks(t, n);
                                if !(q < t.len() && t[q] == ')') {
                                    out = Some(None);
                                } else {
                                    let b = skip_blanks(t, q + 1);
                                    let ghost before = items@;
                                    let ghost entry = (v, (id.reduced(), id_name(id)));
                                    if b >= t.len() || b + 1 <= p {
                                        out = Some(None);
                                    } else if t[b] == ',' {
                                        items.push((v, id));
                                        proof {
                                            assert(items@.map_values(|p: (Value, NodeId)| (p.0, (p.1.reduced(), id_name(p.1)))) =~= before.map_values(|p: (Value, NodeId)| (p.0, (p.1.reduced(), id_name(p.1)))).push(entry));
                                        }
                                        p = b + 1;
                                    } else if t[b] == ']' {
                                        items.push((v, id));
                                        proof {
                                            assert(items@.map_values(|p: (Value, NodeId)| (p.0, (p.1.reduced(), id_name(p.1)))) =~= before.map_values(|p: (Value, NodeId)| (p.0, (p.1.reduced(), id_name(p.1)))).push(entry));
                                        }
                                        out = Some(Some(b + 1));
                                    } else {
                                        out = Some(None);
                                    }
                                }
                            },
                        }
                    }
                },
            }
        }
    }
    match out {
        Some(Some(j)) => Some((items, j)),
        _ => None,
    }
}

/// The match node that a body's fields describe: its name, value kind
/// (counts where none is given), checked key, default address and pairs.
pub open spec fn spec_match_fields(t: Seq<char>, fs: Seq<FieldSpan>, end: int)
    -> Result<(Seq<char>, ValueKind, (Attribute, Option<Seq<char>>), (NodeId, Option<Seq<char>>), Seq<(Value, (NodeId, Option<Seq<char>>))>), (ParseIssue, int)>
{
    let name = field_value(t, fs, "name"@, |t: Seq<char>, i: int| spec_string(t, i));
    let kind = field_value(t, fs, "kind"@, |t: Seq<char>, i: int| spec_kind(t, i));
    let check = field_value(t, fs, "check"@, |t: Seq<char>, i: int| attribute_value(t, i));
    let default = field_value(t, fs, "default"@, |t: Seq<char>, i: int| node_id_value(t, i));
    let k = match kind { Some(Ok(k)) => k, _ => ValueKind::Usize };
    let pairs = field_value(t, fs, "pairs"@, |t: Seq<char>, i: int| spec_pair_list(t, i, k));
    if name is None || check is None || default is None || pairs is None {
        Err((ParseIssue::MissingField, end))
    } else if name.unwrap() is Err {
        Err((ParseIssue::BadValue, name.unwrap()->Err_0))
    } else if kind is Some && kind.unwrap() is Err {
        Err((ParseIssue::BadValue, kind.unwrap()->Err_0))
    } else if check.unwrap() is Err {
        Err((ParseIssue::BadValue, check.unwrap()->Err_0))
    } else if default.unwrap() is Err {
        Err((ParseIssue::BadValue, default.unwrap()->Err_0))
    } else if pairs.unwrap() is Err {
        Err((ParseIssue::BadValue, pairs.unwrap()->Err_0))
    } else {
        Ok((name.unwrap()->Ok_0, k, check.unwrap()->Ok_0, default.unwrap()->Ok_0, pairs.unwrap()->Ok_0))
    }
}

/// Reads a match node from a body's fields.
pub fn match_from_fields(t: &Vec<char>, fs: &Vec<FieldSpan>, end: usize) -> (r: Result<MatchNode, (ParseIssue, usize)>)
    requires
        spans_ok(t@, fs@),
    ensures
        r matches Ok(n) ==> n.check.well_formed() && n.default.well_formed() && spec_match_fields(t@, fs@, end as int) == Ok::<_, (ParseIssue, int)>(
            (n.name@, n.kind, (n.check.reduced(), attr_name(n.check)), (n.default.reduced(), id_name(n.default)),
             n.pairs@.map_values(|p: (Value, NodeId)| (p.0, (p.1.reduced(), id_name(p.1)))))),
        r matches Err((issue, pos)) ==> spec_match_fields(t@, fs@, end as int) == Err::<(Seq<char>, ValueKind, (Attribute, Option<Seq<char>>), (NodeId, Option<Seq<char>>), Seq<(Value, (NodeId, Option<Seq<char>>))>), (ParseIssue, int)>((issue, pos as int)),
{
    proof {
        reveal_strlit("name");
        reveal_strlit("kind");
        reveal_strlit("check");
        reveal_strlit("default");
        reveal_strlit("pairs");
    }
    let kn = find_field(t, fs, "name");
    let kk = find_field(t, fs, "kind");
    let kc = find_field(t, fs, "check");
    let kd = find_field(t, fs, "default");
    let kp = find_field(t, fs, "pairs");
    if kn.is_none() || kc.is_none() || kd.is_none() || kp.is_none() {
        return Err((ParseIssue::MissingField, end));
    }
    let name = match field_string(t, fs, kn.unwrap()) {
        Ok(s) => s,
        Err(e) => return Err(e),
    };
    let kind = match kk {
        None => ValueKind::Usize,
        Some(k) => {
            let f = &fs[k];
            match read_kind(t, f.start) {
                Some((v, j)) => if fills(t, j, f) { v } else { return Err((ParseIssue::BadValue, f.start)) },
                None => return Err((ParseIssue::BadValue, f.start)),
            }
        },
    };
    let check = match field_attribute(t, fs, kc.unwrap()) {
        Ok(a) => a,
        Err(e) => return Err(e),
    };
    let default = match field_node_id(t, fs, kd.unwrap()) {
        Ok(a) => a,
        Err(e) => return Err(e),
    };
    let f = &fs[kp.unwrap()];
    let pairs = match read_pair_list(t, f.start, kind) {
        Some((v, j)) => if fills(t, j, f) { v } else { return Err((ParseIssue::BadValue, f.start)) },
        None => return Err((ParseIssue::BadValue, f.start)),
    };
    Ok(MatchNode { name, kind, pairs, check, default })
}

} // verus!

//! Loading nodes from text: one node, or a tree file of many.
//!
//! A node is `TypeName(field: value, ...)`, or `ScriptNode(...)` around a
//! script, optionally after `Id(n):` or `Name("..."):` that gives it its
//! identity. A tree file is `[node, node, ...]`; a node file holds nodes
//! without the brackets. A node that cannot be read is reported and passed
//! over, and the rest still load.

use vstd::prelude::*;
use crate::error::{LoadError, ParseIssue, Position};
use crate::fields::{read_body, scan, spec_body, spec_scan, FieldSpan};
use crate::key_text::{attr_name, id_name, read_node_id, spec_node_id};
use crate::node_id::NodeId;
use crate::node_text::{
    fps_from_fields, index_from_fields, match_from_fields, scale_from_fields, spec_fps_fields,
    spec_index_fields, spec_match_fields, spec_scale_fields, spec_variable_fields,
    variable_from_fields,
};
use crate::nodes::AnimationNode;
use crate::nodes::reference_node::ReferenceNode;
use crate::nodes::script_node::{closing, spec_closing, spec_script, ScriptNode, Tag, Token};
use crate::nodes::fps_node::FPSNode;
use crate::nodes::index_node::IndexNode;
use crate::nodes::match_node::MatchNode;
use crate::nodes::scale_node::ScaleNode;
use crate::nodes::variable_node::VariableNode;
use crate::parse::{file_position, has_at, skip_blanks, spec_skip_blanks, spec_word_end, string_of, word_end};
use crate::value::Value;

verus! {

pub open spec fn index_text(n: IndexNode) -> (Seq<char>, Seq<Seq<char>>, bool, crate::attributes::Attribute, Option<Seq<char>>) {
    (n.name@, n.frames@.map_values(|p: String| p@), n.is_loop, n.index.reduced(), attr_name(n.index))
}

pub open spec fn fps_text(n: FPSNode) -> (Seq<char>, nat, NodeId, Option<Seq<char>>) {
    (n.name@, n.fps as nat, n.next.reduced(), id_name(n.next))
}

pub open spec fn scale_text(n: ScaleNode) -> (Seq<char>, (crate::attributes::Attribute, Option<Seq<char>>), (NodeId, Option<Seq<char>>)) {
    (n.name@, (n.scale.reduced(), attr_name(n.scale)), (n.next.reduced(), id_name(n.next)))
}

pub open spec fn variable_text(n: VariableNode) -> (Seq<char>, Seq<(Seq<char>, nat)>, bool, crate::attributes::Attribute, Option<Seq<char>>) {
    (n.name@, n.frames@.map_values(|p: (String, u64)| (p.0@, p.1 as nat)), n.is_loop, n.index.reduced(), attr_name(n.index))
}

pub open spec fn match_text(n: MatchNode) -> (Seq<char>, crate::value::ValueKind, (crate::attributes::Attribute, Option<Seq<char>>), (NodeId, Option<Seq<char>>), Seq<(Value, (NodeId, Option<Seq<char>>))>) {
    (n.name@, n.kind, (n.check.reduced(), attr_name(n.check)), (n.default.reduced(), id_name(n.default)),
     n.pairs@.map_values(|p: (Value, NodeId)| (p.0, (p.1.reduced(), id_name(p.1)))))
}

pub open spec fn script_text(n: ScriptNode) -> (Seq<crate::nodes::script_node::TagText>, Option<(NodeId, Option<Seq<char>>)>, Seq<crate::nodes::script_node::TokenText>) {
    (n.tags@.map_values(|g: Tag| g.text()),
     match n.fallback { Some(f) => Some((f.reduced(), id_name(f))), None => None },
     n.tokens@.map_values(|k: Token| k.text()))
}

/// The node text at `i` (type name and body, no identity prefix) describes
/// `node`, and ends just before `j`.
pub open spec fn describes(t: Seq<char>, i: int, node: AnimationNode, j: int) -> bool {
    let e = spec_word_end(t, i);
    let w = t.subrange(i, e);
    let body = spec_body(t, e);
    match node {
        AnimationNode::Index(n) => w == "IndexNode"@ && n.id is None && body is Ok && body->Ok_0.1 == j
            && spec_index_fields(t, body->Ok_0.0, j) == Ok::<_, (ParseIssue, int)>(index_text(n)),
        AnimationNode::Fps(n) => w == "FPSNode"@ && n.id is None && body is Ok && body->Ok_0.1 == j
            && spec_fps_fields(t, body->Ok_0.0, j) == Ok::<_, (ParseIssue, int)>(fps_text(n)),
        AnimationNode::Scale(n) => w == "ScaleNode"@ && n.id is None && body is Ok && body->Ok_0.1 == j
            && spec_scale_fields(t, body->Ok_0.0, j) == Ok::<_, (ParseIssue, int)>(scale_text(n)),
        AnimationNode::Variable(n) => w == "VariableNode"@ && n.id is None && body is Ok && body->Ok_0.1 == j
            && spec_variable_fields(t, body->Ok_0.0, j) == Ok::<_, (ParseIssue, int)>(variable_text(n)),
        AnimationNode::Match(n) => w == "MatchNode"@ && body is Ok && body->Ok_0.1 == j
            && spec_match_fields(t, body->Ok_0.0, j) == Ok::<_, (ParseIssue, int)>(match_text(n)),
        AnimationNode::Script(n) => {
            let b = spec_skip_blanks(t, e);
            w == "ScriptNode"@ && 0 <= b < t.len() && t[b] == '(' && spec_closing(t, b + 1, 1) == Some(j - 1)
                && spec_script(t.subrange(b + 1, j - 1)) == Ok::<_, int>(script_text(n))
        },
        AnimationNode::Reference(_) => false,
    }
}

fn parse_error(t: &Vec<char>, issue: ParseIssue, p: usize) -> (r: LoadError)
    requires
        p <= t@.len(),
    ensures
        r matches LoadError::Parse { issue: i, .. } && i == issue,
{
    LoadError::Parse { issue, pos: file_position(t, p) }
}

fn word_is(t: &Vec<char>, i: usize, e: usize, w: &str) -> (r: bool)
    requires
        i <= e <= t@.len(),
    ensures
        r == (t@.subrange(i as int, e as int) == w@),
{
    let n = w.unicode_len();
    if e - i != n {
        return false;
    }
    has_at(t, i, w)
}

pub proof fn lemma_names_distinct()
    ensures
        "IndexNode"@ != "FPSNode"@,
        "IndexNode"@ != "ScaleNode"@,
        "IndexNode"@ != "VariableNode"@,
        "IndexNode"@ != "MatchNode"@,
        "IndexNode"@ != "ScriptNode"@,
        "FPSNode"@ != "ScaleNode"@,
        "FPSNode"@ != "VariableNode"@,
        "FPSNode"@ != "MatchNode"@,
        "FPSNode"@ != "ScriptNode"@,
        "ScaleNode"@ != "VariableNode"@,
        "ScaleNode"@ != "MatchNode"@,
        "ScaleNode"@ != "ScriptNode"@,
        "VariableNode"@ != "MatchNode"@,
        "VariableNode"@ != "ScriptNode"@,
        "MatchNode"@ != "ScriptNode"@,
{
    reveal_strlit("IndexNode");
    reveal_strlit("FPSNode");
    reveal_strlit("ScaleNode");
    reveal_strlit("VariableNode");
    reveal_strlit("MatchNode");
    reveal_strlit("ScriptNode");
    assert("IndexNode"@[0] != "ScaleNode"@[0]);
    assert("IndexNode"@[0] != "MatchNode"@[0]);
    assert("ScaleNode"@[0] != "MatchNode"@[0]);
    assert("IndexNode"@.len() != "FPSNode"@.len());
    assert("IndexNode"@.len() != "VariableNode"@.len());
    assert("IndexNode"@.len() != "ScriptNode"@.len());
    assert("FPSNode"@.len() != "ScaleNode"@.len());
    assert("FPSNode"@.len() != "VariableNode"@.len());
    assert("FPSNode"@.len() != "MatchNode"@.len());
    assert("FPSNode"@.len() != "ScriptNode"@.len());
    assert("ScaleNode"@.len() != "VariableNode"@.len());
    assert("ScaleNode"@.len() != "ScriptNode"@.len());
    assert("VariableNode"@.len() != "MatchNode"@.len());
    assert("VariableNode"@.len() != "ScriptNode"@.len());
    assert("MatchNode"@.len() != "ScriptNode"@.len());
}

fn load_script(t: &Vec<char>, i: usize, e: usize) -> (r: Result<(AnimationNode, usize), LoadError>)
    requires
        i <= e <= t@.len(),
        e == spec_word_end(t@, i as int),
        t@.subrange(i as int, e as int) == "ScriptNode"@,
    ensures
        r matches Ok((node, j)) ==> describes(t@, i as int, node, j as int) && j <= t@.len(),
        r is Err ==> forall|node: AnimationNode, j: int| !describes(t@, i as int, node, j),
        r matches Err(e) ==> !(e is NotRegistered),
{
    proof {
        reveal_strlit("IndexNode");
        reveal_strlit("FPSNode");
        reveal_strlit("ScaleNode");
        reveal_strlit("VariableNode");
        reveal_strlit("MatchNode");
        reveal_strlit("ScriptNode");
    }
    proof {
        lemma_names_distinct();
    }
    let b = skip_blanks(t, e);
    if !(b < t.len() && t[b] == '(') {
        return Err(parse_error(t, ParseIssue::Expected('('), b));
    }
    let close = match closing(t, b + 1) {
        Some(c) => c,
        None => return Err(LoadError::NoClosing { ch: ')', pos: file_position(t, b) }),
    };
    let text = string_of(t, b + 1, close);
    match ScriptNode::new(text.as_str()) {
        Ok(n) => Ok((AnimationNode::Script(n), close + 1)),
        Err(_) => {
            proof {
                assert forall|node: AnimationNode, j: int| !describes(t@, i as int, node, j) by {
                    if describes(t@, i as int, node, j) {
                        assert(node is Script);
                        assert(j - 1 == close);
                    }
                }
            }
            Err(parse_error(t, ParseIssue::BadValue, b + 1))
        },
    }
}

fn clamp(p: usize, n: usize) -> (r: usize)
    ensures
        r <= n,
        p <= n ==> r == p,
{
    if p <= n { p } else { n }
}

fn load_fields_node(t: &Vec<char>, i: usize, e: usize) -> (r: Result<(AnimationNode, usize), LoadError>)
    requires
        i <= e <= t@.len(),
        e == spec_word_end(t@, i as int),
        ({
            let w = t@.subrange(i as int, e as int);
            w == "IndexNode"@ || w == "FPSNode"@ || w == "ScaleNode"@ || w == "VariableNode"@ || w == "MatchNode"@
        }),
    ensures
        r matches Ok((node, j)) ==> describes(t@, i as int, node, j as int) && j <= t@.len(),
        r is Err ==> forall|node: AnimationNode, j: int| !describes(t@, i as int, node, j),
        r matches Err(e) ==> !(e is NotRegistered),
{
    proof {
        lemma_names_distinct();
    }
    let (fs, j) = match read_body(t, e) {
        Ok(x) => x,
        Err((issue, p)) => return Err(parse_error(t, issue, clamp(p, t.len()))),
    };
    if word_is(t, i, e, "IndexNode") {
        match index_from_fields(t, &fs, j) {
            Ok(n) => Ok((AnimationNode::Index(n), j)),
            Err((issue, p)) => Err(parse_error(t, issue, clamp(p, t.len()))),
        }
    } else if word_is(t, i, e, "FPSNode") {
        match fps_from_fields(t, &fs, j) {
            Ok(n) => Ok((AnimationNode::Fps(n), j)),
            Err((issue, p)) => Err(parse_error(t, issue, clamp(p, t.len()))),
        }
    } else if word_is(t, i, e, "ScaleNode") {
        match scale_from_fields(t, &fs, j) {
            Ok(n) => Ok((AnimationNode::Scale(n), j)),
            Err((issue, p)) => Err(parse_error(t, issue, clamp(p, t.len()))),
        }
    } else if word_is(t, i, e, "VariableNode") {
        match variable_from_fields(t, &fs, j) {
            Ok(n) => Ok((AnimationNode::Variable(n), j)),
            Err((issue, p)) => Err(parse_error(t, issue, clamp(p, t.len()))),
        }
    } else {
        match match_from_fields(t, &fs, j) {
            Ok(n) => Ok((AnimationNode::Match(n), j)),
            Err((issue, p)) => Err(parse_error(t, issue, clamp(p, t.len()))),
        }
    }
}

/// The type names that a reader knows.
pub open spec fn known_type(w: Seq<char>) -> bool {
    w == "IndexNode"@ || w == "FPSNode"@ || w == "ScaleNode"@ || w == "VariableNode"@ || w == "MatchNode"@
        || w == "ScriptNode"@
}

/// Reads the node whose type name starts at `i`: the node and the place
/// after its body. A type name that no reader knows is reported as such,
/// where its body's brackets close, apart from a body that cannot be read.
pub fn load_node(t: &Vec<char>, i: usize) -> (r: Result<(AnimationNode, usize), LoadError>)
    requires
        i <= t@.len(),
    ensures
        r matches Ok((node, j)) ==> describes(t@, i as int, node, j as int) && j <= t@.len(),
        r is Err ==> forall|node: AnimationNode, j: int| !describes(t@, i as int, node, j),
        known_type(t@.subrange(i as int, spec_word_end(t@, i as int))) ==> !(r matches Err(LoadError::NotRegistered(_))),
        ({
            let e = spec_word_end(t@, i as int);
            let b = spec_skip_blanks(t@, e);
            (!known_type(t@.subrange(i as int, e)) && 0 <= b < t@.len() && t@[b] == '('
                && spec_closing(t@, b + 1, 1) is Some)
                ==> (r matches Err(LoadError::NotRegistered(s)) && s@ == t@.subrange(i as int, e))
        }),
{
    proof {
        lemma_names_distinct();
    }
    let e = word_end(t, i);
    if word_is(t, i, e, "ScriptNode") {
        return load_script(t, i, e);
    }
    if word_is(t, i, e, "IndexNode") || word_is(t, i, e, "FPSNode") || word_is(t, i, e, "ScaleNode")
        || word_is(t, i, e, "VariableNode") || word_is(t, i, e, "MatchNode") {
        return load_fields_node(t, i, e);
    }
    let b = skip_blanks(t, e);
    if !(b < t.len() && t[b] == '(') {
        return Err(parse_error(t, ParseIssue::Expected('('), b));
    }
    match closing(t, b + 1) {
        Some(_) => Err(LoadError::NotRegistered(string_of(t, i, e))),
        None => Err(LoadError::NoClosing { ch: ')', pos: file_position(t, b) }),
    }
}

/// Where the node of an entry at `a` starts, and the identity its prefix
/// gives, if it has one (`Id(n):` or `Name(".."):` before the node; a handle
/// is no prefix).
pub open spec fn entry_head(t: Seq<char>, a: int) -> (int, Option<(NodeId, Option<Seq<char>>)>) {
    match spec_node_id(t, a) {
        Some((id, nm, m)) => {
            let c = spec_skip_blanks(t, m);
            if 0 <= c < t.len() && t[c] == ':' && !(id is Handle) {
                (spec_skip_blanks(t, c + 1), Some((id, nm)))
            } else {
                (a, None)
            }
        },
        None => (a, None),
    }
}

/// The entry at `a` holds `node` under `id`, and ends just before `j`: the
/// node that its text describes, given the identity of its prefix where it
/// has one.
pub open spec fn entry_describes(t: Seq<char>, a: int, id: NodeId, node: AnimationNode, j: int) -> bool {
    let start = entry_head(t, a).0;
    match entry_head(t, a).1 {
        Some((pid, _)) => id.reduced() == pid && exists|n: AnimationNode| #[trigger] describes(t, start, n, j)
            && crate::nodes::id_set(n, node, id),
        None => describes(t, start, node, j) && id == node.spec_id(),
    }
}

/// Some node is described by the text at `s`, ending just before `j`.
pub open spec fn loads_at(t: Seq<char>, s: int, j: int) -> bool {
    exists|n: AnimationNode| #[trigger] describes(t, s, n, j)
}

/// Where the entry at `a` ends, where it can be read.
pub open spec fn entry_end(t: Seq<char>, a: int) -> Option<int> {
    let s = entry_head(t, a).0;
    if exists|j: int| loads_at(t, s, j) {
        Some(choose|j: int| loads_at(t, s, j))
    } else {
        None
    }
}

/// The text at `s` describes nodes that all end at the same place.
pub proof fn lemma_describes_end_unique(t: Seq<char>, s: int, n1: AnimationNode, j1: int, n2: AnimationNode, j2: int)
    requires
        describes(t, s, n1, j1),
        describes(t, s, n2, j2),
    ensures
        j1 == j2,
{
    lemma_names_distinct();
}

pub proof fn lemma_entry_end(t: Seq<char>, a: int, n: AnimationNode, j: int)
    requires
        describes(t, entry_head(t, a).0, n, j),
    ensures
        entry_end(t, a) == Some(j),
{
    let s = entry_head(t, a).0;
    assert(loads_at(t, s, j));
    let k = choose|k: int| loads_at(t, s, k);
    let m = choose|m: AnimationNode| describes(t, s, m, k);
    lemma_describes_end_unique(t, s, n, j, m, k);
}

/// Reads the entry at `a`: the identity it gives the node, the node, and the
/// place after it.
pub fn load_entry(t: &Vec<char>, a: usize) -> (r: Result<(NodeId, AnimationNode, usize), LoadError>)
    requires
        a <= t@.len(),
    ensures
        r matches Ok((id, node, j)) ==> entry_describes(t@, a as int, id, node, j as int) && j <= t@.len()
            && entry_end(t@, a as int) == Some(j as int)
            && (entry_head(t@, a as int).1 is Some && !(node is Match || node is Reference)
                ==> node.spec_id() == id.static_of()),
        r is Err ==> entry_end(t@, a as int) is None,
{
    let mut start = a;
    let mut prefix: Option<NodeId> = None;
    match read_node_id(t, a) {
        Some((id, m)) => {
            let c = skip_blanks(t, m);
            let is_handle = match id {
                NodeId::Handle(_) => true,
                _ => false,
            };
            if c < t.len() && t[c] == ':' && !is_handle {
                start = skip_blanks(t, c + 1);
                prefix = Some(id);
            }
        },
        None => {},
    }
    proof {
        if spec_node_id(t@, a as int) is Some {
            let m = spec_node_id(t@, a as int).unwrap().2;
            let c = spec_skip_blanks(t@, m);
            assert(entry_head(t@, a as int).0 == start as int);
        } else {
            assert(entry_head(t@, a as int).0 == start as int);
        }
    }
    match load_node(t, start) {
        Err(e) => {
            proof {
                assert forall|j: int| !loads_at(t@, start as int, j) by {
                    if loads_at(t@, start as int, j) {
                        let n = choose|n: AnimationNode| describes(t@, start as int, n, j);
                    }
                }
            }
            Err(e)
        },
        Ok((node, j)) => {
            let ghost n0 = node;
            proof {
                lemma_entry_end(t@, a as int, n0, j as int);
            }
            match prefix {
                Some(id) => {
                    let mut node = node;
                    node.set_id(id.deep_clone());
                    proof {
                        assert(entry_head(t@, a as int) == (start as int, Some((id.reduced(), id_name(id)))));
                        assert(describes(t@, entry_head(t@, a as int).0, n0, j as int));
                        assert(crate::nodes::id_set(n0, node, id));
                        assert(exists|n: AnimationNode| describes(t@, entry_head(t@, a as int).0, n, j as int)
                            && crate::nodes::id_set(n, node, id));
                    }
                    Ok((id, node, j))
                },
                None => {
                    let id = node.id();
                    proof {
                        assert(entry_head(t@, a as int).1 is None);
                        assert(entry_head(t@, a as int).0 == start as int);
                        assert(describes(t@, start as int, n0, j as int));
                        assert(entry_describes(t@, a as int, id, node, j as int));
                    }
                    Ok((id, node, j))
                },
            }
        },
    }
}

/// What became of one entry of a file: it loaded, it could not be read, or
/// something other than a separator stood after it; each with its place.
pub enum EntryOutcome {
    Loaded(int),
    Failed(int),
    Junk(int),
}

/// The entries of a file from `p` on: what became of each, in order, and
/// where the walk stopped (after the closing `]` of a tree file); none where
/// a tree file ends before its `]`. An entry that cannot be read is passed
/// over up to the next `,` or closing bracket that is not inside brackets or
/// a string.
pub open spec fn spec_entries(t: Seq<char>, p: int, is_tree: bool) -> Option<(Seq<EntryOutcome>, int)>
    decreases t.len() - p,
{
    let a = spec_skip_blanks(t, p);
    if p < 0 || a >= t.len() {
        if is_tree { None } else { Some((Seq::empty(), a)) }
    } else if is_tree && t[a] == ']' {
        Some((Seq::empty(), a + 1))
    } else {
        let rec = match entry_end(t, a) {
            Some(_) => EntryOutcome::Loaded(a),
            None => EntryOutcome::Failed(a),
        };
        let next = match entry_end(t, a) {
            Some(j) => spec_skip_blanks(t, j),
            None => spec_scan(t, a, 0, false),
        };
        if next >= t.len() {
            if is_tree { None } else { Some((seq![rec], next)) }
        } else if t[next] == ',' {
            if next + 1 <= p {
                Some((seq![rec], next))
            } else {
                prefix_then(seq![rec], spec_entries(t, next + 1, is_tree))
            }
        } else if is_tree && t[next] == ']' {
            Some((seq![rec], next + 1))
        } else {
            let recs = seq![rec, EntryOutcome::Junk(next)];
            let skip_to = spec_scan(t, next + 1, 0, false);
            if skip_to >= t.len() || skip_to + 1 <= p {
                if is_tree && skip_to >= t.len() { None } else { Some((recs, skip_to)) }
            } else if t[skip_to] == ',' {
                prefix_then(recs, spec_entries(t, skip_to + 1, is_tree))
            } else {
                Some((recs, if t[skip_to] == ']' { skip_to + 1 } else { skip_to }))
            }
        }
    }
}

/// Where the entries of a file start: after the `[` of a tree file.
pub open spec fn entries_start(t: Seq<char>, is_tree: bool) -> Option<int> {
    let p = spec_skip_blanks(t, 0);
    if !is_tree {
        Some(p)
    } else if 0 <= p < t.len() && t[p] == '[' {
        Some(p + 1)
    } else {
        None
    }
}

/// The outcomes of a whole file; none where its envelope is wrong: a tree
/// file must start with `[` and end with the `]` that closes it.
pub open spec fn spec_file_entries(t: Seq<char>, is_tree: bool) -> Option<Seq<EntryOutcome>> {
    match entries_start(t, is_tree) {
        None => None,
        Some(p) => match spec_entries(t, p, is_tree) {
            None => None,
            Some((recs, e)) => if is_tree && spec_skip_blanks(t, e) < t.len() { None } else { Some(recs) },
        },
    }
}

/// The places of the entries that loaded, in order.
pub open spec fn loaded_starts(recs: Seq<EntryOutcome>) -> Seq<int>
    decreases recs.len(),
{
    if recs.len() == 0 {
        Seq::empty()
    } else {
        match recs.last() {
            EntryOutcome::Loaded(a) => loaded_starts(recs.drop_last()).push(a),
            _ => loaded_starts(recs.drop_last()),
        }
    }
}

/// The places that errors were reported for, in order.
pub open spec fn error_places(recs: Seq<EntryOutcome>) -> Seq<int>
    decreases recs.len(),
{
    if recs.len() == 0 {
        Seq::empty()
    } else {
        match recs.last() {
            EntryOutcome::Loaded(_) => error_places(recs.drop_last()),
            EntryOutcome::Failed(a) => error_places(recs.drop_last()).push(a),
            EntryOutcome::Junk(a) => error_places(recs.drop_last()).push(a),
        }
    }
}

pub open spec fn prefix_then(acc: Seq<EntryOutcome>, rest: Option<(Seq<EntryOutcome>, int)>) -> Option<(Seq<EntryOutcome>, int)> {
    match rest {
        None => None,
        Some((r, e)) => Some((acc + r, e)),
    }
}

/// The entry at `a` loaded as `e`: its node under its identity.
pub open spec fn entry_loaded(t: Seq<char>, a: int, e: (NodeId, AnimationNode)) -> bool {
    entry_end(t, a) matches Some(j) && entry_describes(t, a, e.0, e.1, j)
}

/// What loading a file gives: the nodes of the entries that loaded, each
/// under its identity, in the order of the file; each error with the place
/// it is for; and a reference node over the nodes' identities.
pub open spec fn loaded_as(t: Seq<char>, recs: Seq<EntryOutcome>, tree: LoadedTree, path: Seq<char>) -> bool {
    &&& tree.nodes@.len() == loaded_starts(recs).len()
    &&& forall|k: int| 0 <= k < tree.nodes@.len() ==> entry_loaded(t, loaded_starts(recs)[k], #[trigger] tree.nodes@[k])
    &&& tree.errors@.map_values(|e: (usize, LoadError)| e.0 as int) == error_places(recs)
    &&& tree.reference.path@ == path
    &&& tree.reference.nodes@ == tree.nodes@.map_values(|e: (NodeId, AnimationNode)| e.0)
}

/// What loading a file gave: the nodes with their identities, in the order
/// of the file; the errors of the entries that could not be read, each with
/// the place (a character index) it is for; and a reference node that holds
/// the loaded nodes.
#[derive(Debug)]
pub struct LoadedTree {
    pub nodes: Vec<(NodeId, AnimationNode)>,
    pub errors: Vec<(usize, LoadError)>,
    pub reference: ReferenceNode,
}

/// Loads the entries of a file: between `[` and `]` for a tree file, or up to
/// the end of the text for a node file. An entry that cannot be read is
/// reported and passed over, and the entries after it still load. A tree
/// file that does not start with `[`, or does not end with the `]` that
/// closes it, is an error of the whole file.
#[verifier::rlimit(100)]
pub fn load_entries(t: &Vec<char>, is_tree: bool, path: &str) -> (r: Result<LoadedTree, LoadError>)
    ensures
        r is Err <==> spec_file_entries(t@, is_tree) is None,
        r matches Err(e) ==> e is MissingChar || e is NotTree,
        r matches Ok(tree) ==> loaded_as(t@, spec_file_entries(t@, is_tree).unwrap(), tree, path@),
{
    let mut nodes: Vec<(NodeId, AnimationNode)> = Vec::new();
    let mut ids: Vec<NodeId> = Vec::new();
    let mut errors: Vec<(usize, LoadError)> = Vec::new();
    let mut p = skip_blanks(t, 0);
    if is_tree {
        if !(p < t.len() && t[p] == '[') {
            return Err(LoadError::MissingChar { ch: '[', pos: file_position(t, p) });
        }
        p = p + 1;
    }
    let ghost goal = spec_entries(t@, p as int, is_tree);
    let ghost mut acc: Seq<EntryOutcome> = Seq::empty();
    assert(acc + Seq::<EntryOutcome>::empty() =~= acc);
    assert(errors@.map_values(|e: (usize, LoadError)| e.0 as int) =~= Seq::<int>::empty());
    let mut done = false;
    let mut failed = false;
    let mut end: usize = p;
    while !done
        invariant
            p <= t@.len(),
            end <= t@.len(),
            failed ==> done && is_tree,
            !done ==> prefix_then(acc, spec_entries(t@, p as int, is_tree)) == goal,
            done && failed ==> goal is None,
            done && !failed ==> goal == Some((acc, end as int)),
            nodes@.len() == loaded_starts(acc).len(),
            forall|k: int| 0 <= k < nodes@.len() ==> entry_loaded(t@, loaded_starts(acc)[k], #[trigger] nodes@[k]),
            errors@.map_values(|e: (usize, LoadError)| e.0 as int) == error_places(acc),
            ids@ == nodes@.map_values(|e: (NodeId, AnimationNode)| e.0),
        decreases t@.len() - p, if done { 0int } else { 1int },
    {
        // the walk from here, named so that its definition unfolds once
        let ghost rest = spec_entries(t@, p as int, is_tree);
        let a = skip_blanks(t, p);
        if a >= t.len() {
            done = true;
            failed = is_tree;
            end = a;
            proof {
                assert(acc + Seq::<EntryOutcome>::empty() =~= acc);
            }
        } else if is_tree && t[a] == ']' {
            done = true;
            end = a + 1;
            proof {
                assert(acc + Seq::<EntryOutcome>::empty() =~= acc);
            }
        } else {
            let ghost rec: EntryOutcome;
            let ghost old_acc = acc;
            let ghost old_errors = errors@;
            let next = match load_entry(t, a) {
                Ok((id, node, j)) => {
                    let ghost before_nodes = nodes@;
                    let ghost entry = (id, node);
                    ids.push(id.deep_clone());
                    nodes.push((id, node));
                    proof {
                        rec = EntryOutcome::Loaded(a as int);
                        assert(loaded_starts(old_acc.push(rec)) == loaded_starts(old_acc).push(a as int)) by {
                            assert(old_acc.push(rec).drop_last() =~= old_acc);
                        }
                        assert(error_places(old_acc.push(rec)) == error_places(old_acc)) by {
                            assert(old_acc.push(rec).drop_last() =~= old_acc);
                        }
                        assert(nodes@.map_values(|e: (NodeId, AnimationNode)| e.0) =~= before_nodes.map_values(|e: (NodeId, AnimationNode)| e.0).push(entry.0));
                        assert forall|k: int| 0 <= k < nodes@.len() implies entry_loaded(t@, loaded_starts(old_acc.push(rec))[k], #[trigger] nodes@[k]) by {
                            if k == before_nodes.len() {
                                assert(nodes@[k] == entry);
                            } else {
                                assert(nodes@[k] == before_nodes[k]);
                            }
                        }
                    }
                    skip_blanks(t, j)
                },
                Err(e) => {
                    errors.push((a, e));
                    proof {
                        rec = EntryOutcome::Failed(a as int);
                        assert(old_acc.push(rec).drop_last() =~= old_acc);
                        assert(error_places(old_acc.push(rec)) == error_places(old_acc).push(a as int));
                        assert(loaded_starts(old_acc.push(rec)) == loaded_starts(old_acc));
                        assert(errors@.map_values(|e: (usize, LoadError)| e.0 as int) =~= old_errors.map_values(|e: (usize, LoadError)| e.0 as int).push(a as int));
                    }
                    scan(t, a)
                },
            };
            proof {
                acc = acc.push(rec);
            }
            if next >= t.len() {
                done = true;
                failed = is_tree;
                end = next;
                proof {
                    assert(acc =~= acc.drop_last() + seq![rec]);
                }
            } else if t[next] == ',' {
                if next + 1 <= p {
                    done = true;
                    end = next;
                    proof {
                        assert(acc =~= acc.drop_last() + seq![rec]);
                    }
                } else {
                    p = next + 1;
                    proof {
                        let r2 = spec_entries(t@, p as int, is_tree);
                        if r2 is Some {
                            assert(acc.drop_last() + (seq![rec] + r2.unwrap().0) =~= acc + r2.unwrap().0);
                        }
                    }
                }
            } else if is_tree && t[next] == ']' {
                done = true;
                end = next + 1;
                proof {
                    assert(acc =~= acc.drop_last() + seq![rec]);
                }
            } else {
                let ghost errs = errors@;
                errors.push((next, LoadError::MissingChar { ch: ',', pos: file_position(t, next) }));
                proof {
                    let jr = EntryOutcome::Junk(next as int);
                    assert(acc.push(jr).drop_last() =~= acc);
                    assert(error_places(acc.push(jr)) == error_places(acc).push(next as int));
                    assert(loaded_starts(acc.push(jr)) == loaded_starts(acc));
                    assert(errors@.map_values(|e: (usize, LoadError)| e.0 as int) =~= errs.map_values(|e: (usize, LoadError)| e.0 as int).push(next as int));
                    acc = acc.push(jr);
                }
                let skip_to = scan(t, next + 1);
                let ghost recs = seq![rec, EntryOutcome::Junk(next as int)];
                proof {
                    assert(acc =~= acc.drop_last().drop_last() + recs);
                }
                if skip_to >= t.len() || skip_to + 1 <= p {
                    done = true;
                    failed = is_tree && skip_to >= t.len();
                    end = skip_to;
                } else if t[skip_to] == ',' {
                    p = skip_to + 1;
                    proof {
                        let r2 = spec_entries(t@, p as int, is_tree);
                        if r2 is Some {
                            assert(acc.drop_last().drop_last() + (recs + r2.unwrap().0) =~= acc + r2.unwrap().0);
                        }
                    }
                } else {
                    done = true;
                    end = if t[skip_to] == ']' { skip_to + 1 } else { skip_to };
                }
            }
        }
    }
    if failed {
        return Err(LoadError::MissingChar { ch: ']', pos: file_position(t, t.len()) });
    }
    if is_tree {
        let after = skip_blanks(t, end);
        if after < t.len() {
            return Err(LoadError::NotTree { pos: file_position(t, after) });
        }
    }
    Ok(LoadedTree { nodes, errors, reference: ReferenceNode { nodes: ids, path: path.to_owned() } })
}

/// The place of the last `.` in the last part of a path (after the last `/`
/// or `\\`), if there is one, looking from `k` back.
pub open spec fn last_dot(p: Seq<char>, k: int) -> Option<int>
    decreases k,
{
    if k <= 0 || k > p.len() {
        None
    } else if p[k - 1] == '.' {
        Some(k - 1)
    } else if p[k - 1] == '/' || p[k - 1] == '\\' {
        None
    } else {
        last_dot(p, k - 1)
    }
}

/// Whether a path names a tree file (`nodetree`) or a node file (`node`), by
/// its extension.
pub open spec fn spec_is_tree(p: Seq<char>) -> Result<bool, LoadError> {
    match last_dot(p, p.len() as int) {
        None => Err(LoadError::NoExtension),
        Some(d) => {
            let ext = p.subrange(d + 1, p.len() as int);
            if ext == "node"@ {
                Ok(false)
            } else if ext == "nodetree"@ {
                Ok(true)
            } else {
                Err(LoadError::WrongExtension)
            }
        },
    }
}

/// Whether a path names a tree file or a node file.
pub fn is_tree_path(path: &Vec<char>) -> (r: Result<bool, LoadError>)
    ensures
        r == spec_is_tree(path@),
{
    proof {
        reveal_strlit("node");
        reveal_strlit("nodetree");
    }
    let mut k = path.len();
    let mut dot: Option<usize> = None;
    while k > 0 && dot.is_none() && path[k - 1] != '/' && path[k - 1] != '\\'
        invariant
            k <= path@.len(),
            dot matches Some(d) ==> last_dot(path@, path@.len() as int) == Some(d as int) && d < path@.len(),
            dot is None ==> last_dot(path@, path@.len() as int) == last_dot(path@, k as int),
        decreases k, if dot is None { 1int } else { 0int },
    {
        if path[k - 1] == '.' {
            dot = Some(k - 1);
        } else {
            k = k - 1;
        }
    }
    match dot {
        None => Err(LoadError::NoExtension),
        Some(d) => {
            let n = path.len() - (d + 1);
            if n == 4 && has_at(path, d + 1, "node") {
                Ok(false)
            } else if n == 8 && has_at(path, d + 1, "nodetree") {
                Ok(true)
            } else {
                assert("node"@.len() == 4 && "nodetree"@.len() == 8);
                Err(LoadError::WrongExtension)
            }
        },
    }
}

/// Loads a file that was read into `text` from `path`: a tree file
/// (`.nodetree`) or a node file (`.node`).
pub fn load_file(path: &str, text: &str) -> (r: Result<LoadedTree, LoadError>)
    ensures
        spec_is_tree(path@) is Err ==> r is Err && r->Err_0 == spec_is_tree(path@)->Err_0,
        spec_is_tree(path@) matches Ok(is_tree) ==> (r is Err <==> spec_file_entries(text@, is_tree) is None),
        r matches Ok(tree) ==> spec_is_tree(path@) is Ok
            && loaded_as(text@, spec_file_entries(text@, spec_is_tree(path@)->Ok_0).unwrap(), tree, path@),
{
    let p = crate::parse::chars_of(path);
    let is_tree = match is_tree_path(&p) {
        Ok(b) => b,
        Err(e) => return Err(e),
    };
    let t = crate::parse::chars_of(text);
    load_entries(&t, is_tree, path)
}

} // verus!

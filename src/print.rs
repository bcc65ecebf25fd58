//! Writing keys, addresses and nodes in the node text format.

use vstd::prelude::*;
use crate::attributes::Attribute;
use crate::node_id::NodeId;
use crate::text::{decimal, digit_char, digit_to_char, push_char, push_decimal, push_str};
use crate::nodes::fps_node::FPSNode;
use crate::nodes::index_node::IndexNode;
use crate::nodes::scale_node::ScaleNode;
use crate::nodes::variable_node::VariableNode;
use crate::nodes::match_node::MatchNode;
use crate::nodes::script_node::{ScriptNode, Tag, Token};
use crate::nodes::AnimationNode;
use crate::value::{Value, ValueKind};

verus! {

/// A character as a string literal holds it: quotes and backslashes get a
/// backslash before them.
pub open spec fn escaped_char(c: char) -> Seq<char> {
    if c == '"' || c == '\\' { seq!['\\', c] } else { seq![c] }
}

pub open spec fn escaped(s: Seq<char>) -> Seq<char>
    decreases s.len(),
{
    if s.len() == 0 { Seq::empty() } else { escaped_char(s[0]) + escaped(s.drop_first()) }
}

/// `s` as a string literal.
pub open spec fn quoted(s: Seq<char>) -> Seq<char> {
    seq!['"'] + escaped(s) + seq!['"']
}

/// The text of a key.
pub open spec fn attribute_text(a: Attribute) -> Seq<char> {
    match a {
        Attribute::Custom(_, n) => "Custom("@ + quoted(n@) + ")"@,
        Attribute::CustomId(h) => "Custom("@ + decimal(h as nat) + ")"@,
        Attribute::Index(_, n) => "Index("@ + quoted(n@) + ")"@,
        Attribute::IndexId(h) => "Index("@ + decimal(h as nat) + ")"@,
        _ => a.variant_name(),
    }
}

/// The text of an address.
pub open spec fn node_id_text(id: NodeId) -> Seq<char> {
    match id {
        NodeId::U64(n) => "Id("@ + decimal(n as nat) + ")"@,
        NodeId::Handle(n) => "Handle("@ + decimal(n as nat) + ")"@,
        NodeId::Hash(n) => "Name("@ + decimal(n as nat) + ")"@,
        NodeId::Name(_, n) => "Name("@ + quoted(n@) + ")"@,
    }
}

proof fn lemma_escaped_push(s: Seq<char>, c: char)
    ensures
        escaped(s.push(c)) == escaped(s) + escaped_char(c),
    decreases s.len(),
{
    if s.len() == 0 {
        assert(s.push(c).drop_first() =~= Seq::<char>::empty());
        assert(escaped(s.push(c)) =~= escaped_char(c) + escaped(Seq::<char>::empty()));
        assert(escaped(s) + escaped_char(c) =~= escaped_char(c));
    } else {
        assert(s.push(c).drop_first() =~= s.drop_first().push(c));
        lemma_escaped_push(s.drop_first(), c);
        assert(escaped(s.push(c)) =~= escaped_char(s[0]) + escaped(s.drop_first().push(c)));
        assert(escaped(s.push(c)) =~= escaped(s) + escaped_char(c));
    }
}

/// Appends `s` as a string literal.
pub fn push_quoted(out: &mut String, s: &str)
    ensures
        final(out)@ == old(out)@ + quoted(s@),
{
    push_char(out, '"');
    let n = s.unicode_len();
    let mut i: usize = 0;
    while i < n
        invariant
            n == s@.len(),
            i <= n,
            out@ == old(out)@.push('"') + escaped(s@.subrange(0, i as int)),
        decreases n - i,
    {
        let c = s.get_char(i);
        proof {
            assert(s@.subrange(0, i + 1) =~= s@.subrange(0, i as int).push(c));
            lemma_escaped_push(s@.subrange(0, i as int), c);
        }
        if c == '"' || c == '\\' {
            push_char(out, '\\');
        }
        push_char(out, c);
        proof {
            assert(out@ =~= old(out)@.push('"') + escaped(s@.subrange(0, i + 1)));
        }
        i = i + 1;
    }
    push_char(out, '"');
    proof {
        assert(s@.subrange(0, n as int) =~= s@);
        assert(out@ =~= old(out)@ + quoted(s@));
    }
}

/// Appends the text of a key.
pub fn push_attribute(out: &mut String, a: &Attribute)
    ensures
        final(out)@ == old(out)@ + attribute_text(*a),
{
    proof {
        reveal_strlit("Custom(");
        reveal_strlit("Index(");
        reveal_strlit(")");
    }
    match a {
        Attribute::Custom(_, n) => {
            push_str(out, "Custom(");
            push_quoted(out, n.as_str());
            push_str(out, ")");
        },
        Attribute::CustomId(h) => {
            push_str(out, "Custom(");
            push_decimal(out, *h);
            push_str(out, ")");
        },
        Attribute::Index(_, n) => {
            push_str(out, "Index(");
            push_quoted(out, n.as_str());
            push_str(out, ")");
        },
        Attribute::IndexId(h) => {
            push_str(out, "Index(");
            push_decimal(out, *h);
            push_str(out, ")");
        },
        _ => {
            push_str(out, a.variant_str());
        },
    }
    proof {
        assert(out@ =~= old(out)@ + attribute_text(*a));
    }
}

/// Appends the text of an address.
pub fn push_node_id(out: &mut String, id: &NodeId)
    ensures
        final(out)@ == old(out)@ + node_id_text(*id),
{
    match id {
        NodeId::U64(n) => {
            push_str(out, "Id(");
            push_decimal(out, *n);
            push_str(out, ")");
        },
        NodeId::Handle(n) => {
            push_str(out, "Handle(");
            push_decimal(out, *n);
            push_str(out, ")");
        },
        NodeId::Hash(n) => {
            push_str(out, "Name(");
            push_decimal(out, *n);
            push_str(out, ")");
        },
        NodeId::Name(_, n) => {
            push_str(out, "Name(");
            push_quoted(out, n.as_str());
            push_str(out, ")");
        },
    }
    proof {
        assert(out@ =~= old(out)@ + node_id_text(*id));
    }
}

pub open spec fn bool_text(b: bool) -> Seq<char> {
    if b { "true"@ } else { "false"@ }
}

/// The six decimals of a fraction of a second given in microseconds.
pub open spec fn six_digits(n: nat) -> Seq<char> {
    seq![
        digit_char((n / 100000) % 10),
        digit_char((n / 10000) % 10),
        digit_char((n / 1000) % 10),
        digit_char((n / 100) % 10),
        digit_char((n / 10) % 10),
        digit_char(n % 10),
    ]
}

/// A time in microseconds, written in seconds with six decimals.
pub open spec fn seconds_text(us: nat) -> Seq<char> {
    decimal(us / 1000000) + seq!['.'] + six_digits(us % 1000000)
}

/// The items of a list of paths, each as a string literal.
pub open spec fn paths_text(ps: Seq<Seq<char>>) -> Seq<char>
    decreases ps.len(),
{
    if ps.len() == 0 {
        Seq::empty()
    } else if ps.len() == 1 {
        quoted(ps[0])
    } else {
        paths_text(ps.drop_last()) + ", "@ + quoted(ps.last())
    }
}

/// The items of a list of `(path, seconds)` pairs.
pub open spec fn timed_text(ps: Seq<(Seq<char>, nat)>) -> Seq<char>
    decreases ps.len(),
{
    if ps.len() == 0 {
        Seq::empty()
    } else {
        let item = "("@ + quoted(ps.last().0) + ", "@ + seconds_text(ps.last().1) + ")"@;
        if ps.len() == 1 { item } else { timed_text(ps.drop_last()) + ", "@ + item }
    }
}

/// `Id(..): ` before a node that was given an identity.
pub open spec fn prefix_text(id: Option<NodeId>) -> Seq<char> {
    match id {
        Some(i) => node_id_text(i) + ": "@,
        None => Seq::empty(),
    }
}

pub open spec fn index_node_text(n: IndexNode) -> Seq<char> {
    prefix_text(n.id) + "IndexNode(name: "@ + quoted(n.name@) + ", frames: ["@
        + paths_text(n.frames@.map_values(|p: String| p@)) + "], is_loop: "@ + bool_text(n.is_loop)
        + ", index: "@ + attribute_text(n.index) + ")"@
}

pub open spec fn fps_node_text(n: FPSNode) -> Seq<char> {
    prefix_text(n.id) + "FPSNode(name: "@ + quoted(n.name@) + ", fps: "@ + decimal(n.fps as nat)
        + ", next: "@ + node_id_text(n.next) + ")"@
}

pub open spec fn scale_node_text(n: ScaleNode) -> Seq<char> {
    prefix_text(n.id) + "ScaleNode(name: "@ + quoted(n.name@) + ", scale: "@ + attribute_text(n.scale)
        + ", next: "@ + node_id_text(n.next) + ")"@
}

pub open spec fn variable_node_text(n: VariableNode) -> Seq<char> {
    prefix_text(n.id) + "VariableNode(name: "@ + quoted(n.name@) + ", frames: ["@
        + timed_text(n.frames@.map_values(|p: (String, u64)| (p.0@, p.1 as nat))) + "], is_loop: "@
        + bool_text(n.is_loop) + ", index: "@ + attribute_text(n.index) + ")"@
}

pub fn push_bool(out: &mut String, b: bool)
    ensures
        final(out)@ == old(out)@ + bool_text(b),
{
    if b {
        push_str(out, "true");
    } else {
        push_str(out, "false");
    }
}

pub fn push_seconds(out: &mut String, us: u64)
    ensures
        final(out)@ == old(out)@ + seconds_text(us as nat),
{
    push_decimal(out, us / 1000000);
    push_char(out, '.');
    let f = us % 1000000;
    push_char(out, digit_to_char((f / 100000) % 10));
    push_char(out, digit_to_char((f / 10000) % 10));
    push_char(out, digit_to_char((f / 1000) % 10));
    push_char(out, digit_to_char((f / 100) % 10));
    push_char(out, digit_to_char((f / 10) % 10));
    push_char(out, digit_to_char(f % 10));
    proof {
        assert(out@ =~= old(out)@ + seconds_text(us as nat));
    }
}

fn push_prefix(out: &mut String, id: &Option<NodeId>)
    ensures
        final(out)@ == old(out)@ + prefix_text(*id),
{
    match id {
        Some(i) => {
            push_node_id(out, i);
            push_str(out, ": ");
        },
        None => {},
    }
    proof {
        assert(out@ =~= old(out)@ + prefix_text(*id));
    }
}

fn push_paths(out: &mut String, ps: &Vec<String>)
    ensures
        final(out)@ == old(out)@ + paths_text(ps@.map_values(|p: String| p@)),
{
    let mut k: usize = 0;
    while k < ps.len()
        invariant
            k <= ps@.len(),
            out@ == old(out)@ + paths_text(ps@.subrange(0, k as int).map_values(|p: String| p@)),
        decreases ps@.len() - k,
    {
        let ghost before = ps@.subrange(0, k as int).map_values(|p: String| p@);
        let ghost after = ps@.subrange(0, k + 1).map_values(|p: String| p@);
        proof {
            assert(after.drop_last() =~= before);
            assert(after.last() == ps@[k as int]@);
        }
        if k > 0 {
            push_str(out, ", ");
        }
        push_quoted(out, ps[k].as_str());
        proof {
            if k == 0 {
                assert(after.len() == 1);
                assert(before =~= Seq::<Seq<char>>::empty());
            }
            assert(out@ =~= old(out)@ + paths_text(after));
        }
        k = k + 1;
    }
    proof {
        assert(ps@.subrange(0, k as int) =~= ps@);
    }
}

fn push_timed(out: &mut String, ps: &Vec<(String, u64)>)
    ensures
        final(out)@ == old(out)@ + timed_text(ps@.map_values(|p: (String, u64)| (p.0@, p.1 as nat))),
{
    let mut k: usize = 0;
    while k < ps.len()
        invariant
            k <= ps@.len(),
            out@ == old(out)@ + timed_text(ps@.subrange(0, k as int).map_values(|p: (String, u64)| (p.0@, p.1 as nat))),
        decreases ps@.len() - k,
    {
        let ghost before = ps@.subrange(0, k as int).map_values(|p: (String, u64)| (p.0@, p.1 as nat));
        let ghost after = ps@.subrange(0, k + 1).map_values(|p: (String, u64)| (p.0@, p.1 as nat));
        proof {
            assert(after.drop_last() =~= before);
            assert(after.last() == (ps@[k as int].0@, ps@[k as int].1 as nat));
        }
        if k > 0 {
            push_str(out, ", ");
        }
        push_str(out, "(");
        push_quoted(out, ps[k].0.as_str());
        push_str(out, ", ");
        push_seconds(out, ps[k].1);
        push_str(out, ")");
        proof {
            if k == 0 {
                assert(after.len() == 1);
                assert(before =~= Seq::<(Seq<char>, nat)>::empty());
            }
            assert(out@ =~= old(out)@ + timed_text(after));
        }
        k = k + 1;
    }
    proof {
        assert(ps@.subrange(0, k as int) =~= ps@);
    }
}

impl IndexNode {
    /// Appends the node in the node text format.
    pub fn serialize(&self, data: &mut String)
        ensures
            final(data)@ == old(data)@ + index_node_text(*self),
    {
        push_prefix(data, &self.id);
        push_str(data, "IndexNode(name: ");
        push_quoted(data, self.name.as_str());
        push_str(data, ", frames: [");
        push_paths(data, &self.frames);
        push_str(data, "], is_loop: ");
        push_bool(data, self.is_loop);
        push_str(data, ", index: ");
        push_attribute(data, &self.index);
        push_str(data, ")");
        proof {
            assert(data@ =~= old(data)@ + index_node_text(*self));
        }
    }
}

impl FPSNode {
    /// Appends the node in the node text format.
    pub fn serialize(&self, data: &mut String)
        ensures
            final(data)@ == old(data)@ + fps_node_text(*self),
    {
        push_prefix(data, &self.id);
        push_str(data, "FPSNode(name: ");
        push_quoted(data, self.name.as_str());
        push_str(data, ", fps: ");
        push_decimal(data, self.fps as u64);
        push_str(data, ", next: ");
        push_node_id(data, &self.next);
        push_str(data, ")");
        proof {
            assert(data@ =~= old(data)@ + fps_node_text(*self));
        }
    }
}

impl ScaleNode {
    /// Appends the node in the node text format.
    pub fn serialize(&self, data: &mut String)
        ensures
            final(data)@ == old(data)@ + scale_node_text(*self),
    {
        push_prefix(data, &self.id);
        push_str(data, "ScaleNode(name: ");
        push_quoted(data, self.name.as_str());
        push_str(data, ", scale: ");
        push_attribute(data, &self.scale);
        push_str(data, ", next: ");
        push_node_id(data, &self.next);
        push_str(data, ")");
        proof {
            assert(data@ =~= old(data)@ + scale_node_text(*self));
        }
    }
}

impl VariableNode {
    /// Appends the node in the node text format.
    pub fn serialize(&self, data: &mut String)
        ensures
            final(data)@ == old(data)@ + variable_node_text(*self),
    {
        push_prefix(data, &self.id);
        push_str(data, "VariableNode(name: ");
        push_quoted(data, self.name.as_str());
        push_str(data, ", frames: [");
        push_timed(data, &self.frames);
        push_str(data, "], is_loop: ");
        push_bool(data, self.is_loop);
        push_str(data, ", index: ");
        push_attribute(data, &self.index);
        push_str(data, ")");
        proof {
            assert(data@ =~= old(data)@ + variable_node_text(*self));
        }
    }
}

/// Three decimals of thousandths.
pub open spec fn three_digits(n: nat) -> Seq<char> {
    seq![digit_char((n / 100) % 10), digit_char((n / 10) % 10), digit_char(n % 10)]
}

/// The text of a script token.
pub open spec fn token_text(k: Token) -> Seq<char> {
    match k {
        Token::Int(n) => decimal(n as nat),
        Token::Permille(n) => decimal(n as nat / 1000) + seq!['.'] + three_digits(n as nat % 1000),
        Token::Equals => "=="@,
        Token::NotEquals => "!="@,
        Token::LessThen => "<"@,
        Token::LessThenEq => "<="@,
        Token::GreaterThen => ">"@,
        Token::GreaterThenEq => ">="@,
        Token::Assign => "set"@,
        Token::If => "if"@,
        Token::Else => "else"@,
        Token::Nothing => "none"@,
        Token::Attribute(a) => attribute_text(a),
        Token::Return(id) => "return "@ + node_id_text(id),
        Token::Literal(s) => "Ron("@ + s@ + ")"@,
        Token::Unknown(s) => s@,
    }
}

/// The text of a script tag.
pub open spec fn tag_text(g: Tag) -> Seq<char> {
    match g {
        Tag::Name(s) => "#name "@ + quoted(s@),
        Tag::Id(id) => "#id "@ + node_id_text(id),
    }
}

/// Tags, one to a line.
pub open spec fn tags_text(gs: Seq<Tag>) -> Seq<char>
    decreases gs.len(),
{
    if gs.len() == 0 { Seq::empty() } else { tags_text(gs.drop_last()) + tag_text(gs.last()) + seq!['\n'] }
}

/// Tokens, each followed by a blank.
pub open spec fn tokens_text(ks: Seq<Token>) -> Seq<char>
    decreases ks.len(),
{
    if ks.len() == 0 { Seq::empty() } else { tokens_text(ks.drop_last()) + token_text(ks.last()) + seq![' '] }
}

pub open spec fn script_node_text(n: ScriptNode) -> Seq<char> {
    "ScriptNode(\n"@ + tags_text(n.tags@)
        + match n.fallback { Some(f) => "#fallback "@ + node_id_text(f) + seq!['\n'], None => Seq::empty() }
        + tokens_text(n.tokens@) + ")"@
}

/// The text of a value of a match node's pair.
pub open spec fn value_text(v: Value) -> Seq<char> {
    match v {
        Value::Usize(n) => decimal(n as nat),
        Value::Micros(n) => decimal(n as nat),
        Value::Permille(n) => decimal(n as nat),
        Value::Bool(b) => bool_text(b),
    }
}

pub open spec fn kind_text(k: ValueKind) -> Seq<char> {
    match k {
        ValueKind::Usize => "Usize"@,
        ValueKind::Micros => "Micros"@,
        ValueKind::Bool => "Bool"@,
        ValueKind::Permille => "Permille"@,
    }
}

/// The items of a list of `(value, address)` pairs.
pub open spec fn pairs_text(ps: Seq<(Value, NodeId)>) -> Seq<char>
    decreases ps.len(),
{
    if ps.len() == 0 {
        Seq::empty()
    } else {
        let item = "("@ + value_text(ps.last().0) + ", "@ + node_id_text(ps.last().1) + ")"@;
        if ps.len() == 1 { item } else { pairs_text(ps.drop_last()) + ", "@ + item }
    }
}

pub open spec fn match_node_text(n: MatchNode) -> Seq<char> {
    "MatchNode(name: "@ + quoted(n.name@) + ", kind: "@ + kind_text(n.kind) + ", check: "@
        + attribute_text(n.check) + ", default: "@ + node_id_text(n.default) + ", pairs: ["@
        + pairs_text(n.pairs@) + "])"@
}

fn push_token(out: &mut String, k: &Token)
    ensures
        final(out)@ == old(out)@ + token_text(*k),
{
    match k {
        Token::Int(n) => push_decimal(out, *n as u64),
        Token::Permille(n) => {
            push_decimal(out, *n / 1000);
            push_char(out, '.');
            let f = *n % 1000;
            push_char(out, digit_to_char((f / 100) % 10));
            push_char(out, digit_to_char((f / 10) % 10));
            push_char(out, digit_to_char(f % 10));
        },
        Token::Equals => push_str(out, "=="),
        Token::NotEquals => push_str(out, "!="),
        Token::LessThen => push_str(out, "<"),
        Token::LessThenEq => push_str(out, "<="),
        Token::GreaterThen => push_str(out, ">"),
        Token::GreaterThenEq => push_str(out, ">="),
        Token::Assign => push_str(out, "set"),
        Token::If => push_str(out, "if"),
        Token::Else => push_str(out, "else"),
        Token::Nothing => push_str(out, "none"),
        Token::Attribute(a) => push_attribute(out, a),
        Token::Return(id) => {
            push_str(out, "return ");
            push_node_id(out, id);
        },
        Token::Literal(s) => {
            push_str(out, "Ron(");
            push_str(out, s.as_str());
            push_str(out, ")");
        },
        Token::Unknown(s) => push_str(out, s.as_str()),
    }
    proof {
        assert(out@ =~= old(out)@ + token_text(*k));
    }
}

fn push_tag(out: &mut String, g: &Tag)
    ensures
        final(out)@ == old(out)@ + tag_text(*g),
{
    match g {
        Tag::Name(s) => {
            push_str(out, "#name ");
            push_quoted(out, s.as_str());
        },
        Tag::Id(id) => {
            push_str(out, "#id ");
            push_node_id(out, id);
        },
    }
    proof {
        assert(out@ =~= old(out)@ + tag_text(*g));
    }
}

impl ScriptNode {
    /// Appends the script in the node text format: its tags and fallback one
    /// to a line, then its tokens.
    pub fn serialize(&self, data: &mut String)
        ensures
            final(data)@ == old(data)@ + script_node_text(*self),
    {
        push_str(data, "ScriptNode(\n");
        let ghost start = data@;
        let mut k: usize = 0;
        while k < self.tags.len()
            invariant
                k <= self.tags@.len(),
                data@ == start + tags_text(self.tags@.subrange(0, k as int)),
            decreases self.tags@.len() - k,
        {
            proof {
                assert(self.tags@.subrange(0, k + 1).drop_last() =~= self.tags@.subrange(0, k as int));
            }
            push_tag(data, &self.tags[k]);
            push_char(data, '\n');
            proof {
                assert(data@ =~= start + tags_text(self.tags@.subrange(0, k + 1)));
            }
            k = k + 1;
        }
        proof {
            assert(self.tags@.subrange(0, k as int) =~= self.tags@);
        }
        match &self.fallback {
            Some(f) => {
                push_str(data, "#fallback ");
                push_node_id(data, f);
                push_char(data, '\n');
            },
            None => {},
        }
        let ghost mid = data@;
        let mut k: usize = 0;
        while k < self.tokens.len()
            invariant
                k <= self.tokens@.len(),
                data@ == mid + tokens_text(self.tokens@.subrange(0, k as int)),
            decreases self.tokens@.len() - k,
        {
            proof {
                assert(self.tokens@.subrange(0, k + 1).drop_last() =~= self.tokens@.subrange(0, k as int));
            }
            push_token(data, &self.tokens[k]);
            push_char(data, ' ');
            proof {
                assert(data@ =~= mid + tokens_text(self.tokens@.subrange(0, k + 1)));
            }
            k = k + 1;
        }
        proof {
            assert(self.tokens@.subrange(0, k as int) =~= self.tokens@);
        }
        push_str(data, ")");
        proof {
            assert(data@ =~= old(data)@ + script_node_text(*self));
        }
    }
}

fn push_value(out: &mut String, v: &Value)
    ensures
        final(out)@ == old(out)@ + value_text(*v),
{
    match v {
        Value::Usize(n) => push_decimal(out, *n as u64),
        Value::Micros(n) => push_decimal(out, *n),
        Value::Permille(n) => push_decimal(out, *n),
        Value::Bool(b) => push_bool(out, *b),
    }
}

impl MatchNode {
    /// Appends the node in the node text format.
    pub fn serialize(&self, data: &mut String)
        ensures
            final(data)@ == old(data)@ + match_node_text(*self),
    {
        push_str(data, "MatchNode(name: ");
        push_quoted(data, self.name.as_str());
        push_str(data, ", kind: ");
        match self.kind {
            ValueKind::Usize => push_str(data, "Usize"),
            ValueKind::Micros => push_str(data, "Micros"),
            ValueKind::Bool => push_str(data, "Bool"),
            ValueKind::Permille => push_str(data, "Permille"),
        }
        push_str(data, ", check: ");
        push_attribute(data, &self.check);
        push_str(data, ", default: ");
        push_node_id(data, &self.default);
        push_str(data, ", pairs: [");
        let ghost start = data@;
        let mut k: usize = 0;
        while k < self.pairs.len()
            invariant
                k <= self.pairs@.len(),
                data@ == start + pairs_text(self.pairs@.subrange(0, k as int)),
            decreases self.pairs@.len() - k,
        {
            let ghost before = self.pairs@.subrange(0, k as int);
            let ghost after = self.pairs@.subrange(0, k + 1);
            proof {
                assert(after.drop_last() =~= before);
            }
            if k > 0 {
                push_str(data, ", ");
            }
            push_str(data, "(");
            push_value(data, &self.pairs[k].0);
            push_str(data, ", ");
            push_node_id(data, &self.pairs[k].1);
            push_str(data, ")");
            proof {
                if k == 0 {
                    assert(before =~= Seq::<(Value, NodeId)>::empty());
                }
                assert(data@ =~= start + pairs_text(after));
            }
            k = k + 1;
        }
        proof {
            assert(self.pairs@.subrange(0, k as int) =~= self.pairs@);
        }
        push_str(data, "])");
        proof {
            assert(data@ =~= old(data)@ + match_node_text(*self));
        }
    }
}

/// How a key reads to a person: a core slot by its name, a named key as
/// `Custom::name`, a hash-only key as `Index(42)`.
pub open spec fn attribute_display(a: Attribute) -> Seq<char> {
    match a {
        Attribute::Custom(_, n) => "Custom::"@ + n@,
        Attribute::Index(_, n) => "Index::"@ + n@,
        Attribute::CustomId(h) => "Custom("@ + decimal(h as nat) + ")"@,
        Attribute::IndexId(h) => "Index("@ + decimal(h as nat) + ")"@,
        _ => a.variant_name(),
    }
}

/// How an address reads to a person.
pub open spec fn node_id_display(id: NodeId) -> Seq<char> {
    match id {
        NodeId::Name(_, n) => "NodeName(\""@ + n@ + "\")"@,
        NodeId::U64(n) => "NodeId("@ + decimal(n as nat) + ")"@,
        NodeId::Hash(n) => "NodeName("@ + decimal(n as nat) + ")"@,
        NodeId::Handle(_) => "NodeHandle()"@,
    }
}

impl Attribute {
    /// The key as it reads to a person.
    pub fn to_display(&self) -> (r: String)
        ensures
            r@ == attribute_display(*self),
    {
        let mut out = String::new();
        match self {
            Attribute::Custom(_, n) => {
                push_str(&mut out, "Custom::");
                push_str(&mut out, n.as_str());
            },
            Attribute::Index(_, n) => {
                push_str(&mut out, "Index::");
                push_str(&mut out, n.as_str());
            },
            Attribute::CustomId(h) => {
                push_str(&mut out, "Custom(");
                push_decimal(&mut out, *h);
                push_str(&mut out, ")");
            },
            Attribute::IndexId(h) => {
                push_str(&mut out, "Index(");
                push_decimal(&mut out, *h);
                push_str(&mut out, ")");
            },
            _ => push_str(&mut out, self.variant_str()),
        }
        proof {
            assert(out@ =~= attribute_display(*self));
        }
        out
    }
}

impl NodeId {
    /// The address as it reads to a person.
    pub fn to_display(&self) -> (r: String)
        ensures
            r@ == node_id_display(*self),
    {
        let mut out = String::new();
        match self {
            NodeId::Name(_, n) => {
                push_str(&mut out, "NodeName(\"");
                push_str(&mut out, n.as_str());
                push_str(&mut out, "\")");
            },
            NodeId::U64(n) => {
                push_str(&mut out, "NodeId(");
                push_decimal(&mut out, *n);
                push_str(&mut out, ")");
            },
            NodeId::Hash(n) => {
                push_str(&mut out, "NodeName(");
                push_decimal(&mut out, *n);
                push_str(&mut out, ")");
            },
            NodeId::Handle(_) => push_str(&mut out, "NodeHandle()"),
        }
        proof {
            assert(out@ =~= node_id_display(*self));
        }
        out
    }
}

impl AnimationNode {
    /// Appends the node in the node text format; a reference node, which
    /// only holds the nodes of a file, has none, and nothing is written.
    /// Says whether the node was written.
    pub fn serialize(&self, data: &mut String) -> (r: bool)
        ensures
            r == !(*self is Reference),
            final(data)@ == old(data)@ + match *self {
                AnimationNode::Index(n) => index_node_text(n),
                AnimationNode::Fps(n) => fps_node_text(n),
                AnimationNode::Scale(n) => scale_node_text(n),
                AnimationNode::Variable(n) => variable_node_text(n),
                AnimationNode::Match(n) => match_node_text(n),
                AnimationNode::Script(n) => script_node_text(n),
                AnimationNode::Reference(_) => Seq::empty(),
            },
    {
        match self {
            AnimationNode::Index(n) => n.serialize(data),
            AnimationNode::Fps(n) => n.serialize(data),
            AnimationNode::Scale(n) => n.serialize(data),
            AnimationNode::Variable(n) => n.serialize(data),
            AnimationNode::Match(n) => n.serialize(data),
            AnimationNode::Script(n) => n.serialize(data),
            AnimationNode::Reference(_) => {
                assert(old(data)@ + Seq::<char>::empty() =~= old(data)@);
                return false;
            },
        }
        true
    }
}

} // verus!

//! Reading back what the printers write: string literals, numbers, keys and
//! addresses come back as they were.

use vstd::prelude::*;
use crate::attributes::Attribute;
use crate::key_text::{attr_name, id_name, spec_attribute, spec_node_id, spec_wrapped, Inner};
use crate::fields::{spec_fields, spec_scan, FieldSpan};
use crate::node_id::NodeId;
use crate::parse::{
    is_blank, is_word_char, spec_digits_end, spec_skip_blanks, spec_string, spec_string_rest,
    spec_uint, spec_word_end,
};
use crate::print::{attribute_text, escaped, escaped_char, node_id_text, quoted, fps_node_text, prefix_text};
use crate::nodes::fps_node::FPSNode;
use crate::nodes::scale_node::ScaleNode;
use crate::print::{scale_node_text, paths_text, bool_text, index_node_text, timed_text, seconds_text, six_digits, variable_node_text};
use crate::nodes::variable_node::VariableNode;
use crate::values::{spec_seconds, spec_seconds_any, spec_timed_items, spec_timed_list, pow10};
use crate::nodes::index_node::IndexNode;
use crate::values::{spec_path_items, spec_path_list, spec_path, spec_bool};
use crate::nodes::AnimationNode;
use crate::loader::{entry_head, entry_loaded, entry_end, spec_file_entries, spec_entries, EntryOutcome, describes, fps_text, scale_text, index_text, variable_text};
use crate::fields::spec_body;
use crate::node_text::{spec_field, spec_fps_fields, spec_scale_fields, spec_index_fields, spec_variable_fields};
use crate::text::{all_digits, decimal, digit_char, digit_value, digits_value, is_digit, lemma_decimal, lemma_digit_char};

verus! {

/// `w` stands in `t` at `i`.
pub open spec fn written_at(t: Seq<char>, i: int, w: Seq<char>) -> bool {
    0 <= i && i + w.len() <= t.len() && t.subrange(i, i + w.len()) == w
}

proof fn lemma_written_char(t: Seq<char>, i: int, w: Seq<char>, k: int)
    requires
        written_at(t, i, w),
        0 <= k < w.len(),
    ensures
        t[i + k] == w[k],
{
    assert(t.subrange(i, i + w.len())[k] == t[i + k]);
}

proof fn lemma_written_split(t: Seq<char>, i: int, a: Seq<char>, b: Seq<char>)
    requires
        written_at(t, i, a + b),
    ensures
        written_at(t, i, a),
        written_at(t, i + a.len(), b),
{
    assert(t.subrange(i, i + a.len()) =~= (a + b).subrange(0, a.len() as int));
    assert((a + b).subrange(0, a.len() as int) =~= a);
    assert(t.subrange(i + a.len(), i + a.len() + b.len()) =~= (a + b).subrange(a.len() as int, (a + b).len() as int));
    assert((a + b).subrange(a.len() as int, (a + b).len() as int) =~= b);
}

proof fn lemma_string_rest_reads(t: Seq<char>, k: int, acc: Seq<char>, s: Seq<char>)
    requires
        written_at(t, k, escaped(s) + seq!['"']),
    ensures
        spec_string_rest(t, k, acc) == Some((acc + s, k + escaped(s).len() + 1)),
    decreases s.len(),
{
    if s.len() == 0 {
        assert(escaped(s) =~= Seq::<char>::empty());
        lemma_written_char(t, k, escaped(s) + seq!['"'], 0);
        assert(acc + s =~= acc);
    } else {
        let c = s[0];
        let rest = s.drop_first();
        let w = escaped(s) + seq!['"'];
        assert(escaped(s) == escaped_char(c) + escaped(rest));
        assert(w =~= escaped_char(c) + (escaped(rest) + seq!['"']));
        lemma_written_split(t, k, escaped_char(c), escaped(rest) + seq!['"']);
        lemma_written_char(t, k, escaped_char(c), 0);
        assert(acc.push(c) + rest =~= acc + s);
        if c == '"' || c == '\\' {
            lemma_written_char(t, k, escaped_char(c), 1);
            lemma_string_rest_reads(t, k + 2, acc.push(c), rest);
        } else {
            lemma_string_rest_reads(t, k + 1, acc.push(c), rest);
        }
    }
}

/// A string literal as `quoted` writes it reads back as the same string.
pub proof fn lemma_quoted_reads_back(t: Seq<char>, i: int, s: Seq<char>)
    requires
        written_at(t, i, quoted(s)),
    ensures
        spec_string(t, i) == Some((s, i + quoted(s).len())),
{
    assert(quoted(s) =~= seq!['"'] + (escaped(s) + seq!['"']));
    lemma_written_split(t, i, seq!['"'], escaped(s) + seq!['"']);
    lemma_written_char(t, i, seq!['"'], 0);
    lemma_string_rest_reads(t, i + 1, Seq::empty(), s);
    assert(Seq::<char>::empty() + s =~= s);
}

proof fn lemma_digits_end_at(t: Seq<char>, i: int, d: Seq<char>)
    requires
        written_at(t, i, d),
        all_digits(d),
        i + d.len() == t.len() || !is_digit(t[i + d.len()]),
    ensures
        spec_digits_end(t, i) == i + d.len(),
    decreases d.len(),
{
    if d.len() > 0 {
        lemma_written_char(t, i, d, 0);
        let rest = d.drop_first();
        assert(d =~= seq![d[0]] + rest);
        lemma_written_split(t, i, seq![d[0]], rest);
        assert forall|k: int| 0 <= k < rest.len() implies is_digit(#[trigger] rest[k]) by {
            assert(rest[k] == d[k + 1]);
        }
        lemma_digits_end_at(t, i + 1, rest);
    }
}

/// A number as `decimal` writes it reads back as the same number, where no
/// digit follows it.
pub proof fn lemma_decimal_reads_back(t: Seq<char>, i: int, n: nat)
    requires
        written_at(t, i, decimal(n)),
        i + decimal(n).len() == t.len() || !is_digit(t[i + decimal(n).len()]),
    ensures
        spec_uint(t, i) == Some((n, i + decimal(n).len())),
{
    lemma_decimal(n);
    lemma_digits_end_at(t, i, decimal(n));
}

proof fn lemma_word_end_at(t: Seq<char>, i: int, w: Seq<char>)
    requires
        written_at(t, i, w),
        forall|k: int| 0 <= k < w.len() ==> is_word_char(#[trigger] w[k]),
        i + w.len() == t.len() || !is_word_char(t[i + w.len()]),
    ensures
        spec_word_end(t, i) == i + w.len(),
    decreases w.len(),
{
    if w.len() > 0 {
        lemma_written_char(t, i, w, 0);
        let rest = w.drop_first();
        assert(w =~= seq![w[0]] + rest);
        lemma_written_split(t, i, seq![w[0]], rest);
        assert forall|k: int| 0 <= k < rest.len() implies is_word_char(#[trigger] rest[k]) by {
            assert(rest[k] == w[k + 1]);
        }
        lemma_word_end_at(t, i + 1, rest);
    }
}

/// `( value )` as the printers write it, with a string literal or a number
/// inside, reads back as that value.
proof fn lemma_wrapped_reads_back(t: Seq<char>, e: int, v: Inner, inner: Seq<char>)
    requires
        written_at(t, e, seq!['('] + inner + seq![')']),
        match v {
            Inner::Str(s) => inner == quoted(s),
            Inner::Num(n) => inner == decimal(n) && n <= u64::MAX,
        },
    ensures
        spec_wrapped(t, e) == Some((v, e + inner.len() + 2)),
{
    let w = seq!['('] + inner + seq![')'];
    lemma_written_split(t, e, seq!['('] + inner, seq![')']);
    lemma_written_split(t, e, seq!['('], inner);
    lemma_written_char(t, e, seq!['('], 0);
    lemma_written_char(t, e + inner.len() + 1, seq![')'], 0);
    assert(spec_skip_blanks(t, e) == e);
    let m = e + 1 + inner.len();
    assert(spec_skip_blanks(t, m) == m);
    match v {
        Inner::Str(s) => {
            lemma_quoted_reads_back(t, e + 1, s);
            assert(quoted(s)[0] == '"');
            lemma_written_char(t, e + 1, inner, 0);
            assert(spec_skip_blanks(t, e + 1) == e + 1);
        },
        Inner::Num(n) => {
            lemma_decimal(n);
            lemma_decimal_reads_back(t, e + 1, n);
            lemma_written_char(t, e + 1, inner, 0);
            assert(is_digit(inner[0]));
            assert(spec_skip_blanks(t, e + 1) == e + 1);
            assert(spec_string(t, e + 1) is None);
        },
    }
}

proof fn lemma_all_word_chars(w: Seq<char>)
    requires
        w == "Custom"@ || w == "Index"@ || w == "Id"@ || w == "Name"@ || w == "Handle"@ || w == "Default"@
            || w == "Delta"@ || w == "Frames"@ || w == "TimeThisFrame"@ || w == "FlipX"@ || w == "FlipY"@
            || w == "LastFPS"@,
    ensures
        forall|k: int| 0 <= k < w.len() ==> is_word_char(#[trigger] w[k]),
{
    reveal_strlit("Custom");
    reveal_strlit("Index");
    reveal_strlit("Id");
    reveal_strlit("Name");
    reveal_strlit("Handle");
    reveal_strlit("Default");
    reveal_strlit("Delta");
    reveal_strlit("Frames");
    reveal_strlit("TimeThisFrame");
    reveal_strlit("FlipX");
    reveal_strlit("FlipY");
    reveal_strlit("LastFPS");
}

proof fn lemma_key_words()
    ensures
        crate::key_text::core_named("Custom"@) is None,
        crate::key_text::core_named("Index"@) is None,
        "Custom"@ != "Index"@,
        crate::key_text::core_named("Default"@) == Some(Attribute::Default),
        crate::key_text::core_named("Delta"@) == Some(Attribute::Delta),
        crate::key_text::core_named("Frames"@) == Some(Attribute::Frames),
        crate::key_text::core_named("TimeThisFrame"@) == Some(Attribute::TimeThisFrame),
        crate::key_text::core_named("FlipX"@) == Some(Attribute::FlipX),
        crate::key_text::core_named("FlipY"@) == Some(Attribute::FlipY),
        crate::key_text::core_named("LastFPS"@) == Some(Attribute::LastFPS),
        "Id"@ != "Handle"@ && "Id"@ != "Name"@ && "Handle"@ != "Name"@,
        "Custom("@ == "Custom"@ + seq!['('],
        "Index("@ == "Index"@ + seq!['('],
        "Id("@ == "Id"@ + seq!['('],
        "Name("@ == "Name"@ + seq!['('],
        "Handle("@ == "Handle"@ + seq!['('],
        ")"@ == seq![')'],
{
    reveal_strlit("Custom");
    reveal_strlit("Index");
    reveal_strlit("Default");
    reveal_strlit("Delta");
    reveal_strlit("Frames");
    reveal_strlit("TimeThisFrame");
    reveal_strlit("FlipX");
    reveal_strlit("FlipY");
    reveal_strlit("LastFPS");
    reveal_strlit("Id");
    reveal_strlit("Name");
    reveal_strlit("Handle");
    reveal_strlit("Custom(");
    reveal_strlit("Index(");
    reveal_strlit("Id(");
    reveal_strlit("Name(");
    reveal_strlit("Handle(");
    reveal_strlit(")");
    assert("Custom"@[0] != "Frames"@[0] && "Custom"@.len() != "Default"@.len() && "Custom"@.len() != "Delta"@.len());
    assert("Custom"@.len() != "TimeThisFrame"@.len() && "Custom"@.len() != "FlipX"@.len() && "Custom"@.len() != "LastFPS"@.len());
    assert("Index"@[0] != "Delta"@[0] && "Index"@[0] != "FlipX"@[0] && "Index"@[0] != "FlipY"@[0]);
    assert("Index"@.len() != "Default"@.len() && "Index"@.len() != "Frames"@.len());
    assert("Index"@.len() != "TimeThisFrame"@.len() && "Index"@.len() != "LastFPS"@.len());
    assert("FlipY"@[4] != "FlipX"@[4] && "FlipY"@[0] != "Delta"@[0] && "LastFPS"@[0] != "Default"@[0]);
    assert("FlipX"@[0] != "Delta"@[0]);
    assert("Custom("@ =~= "Custom"@ + seq!['(']);
    assert("Index("@ =~= "Index"@ + seq!['(']);
    assert("Id("@ =~= "Id"@ + seq!['(']);
    assert("Name("@ =~= "Name"@ + seq!['(']);
    assert("Handle("@ =~= "Handle"@ + seq!['(']);
    assert(")"@ =~= seq![')']);
}

/// A wrapped form `word(inner)` read back: the word ends before `(`, and the
/// value inside is the one written.
proof fn lemma_word_wrapped(t: Seq<char>, i: int, word: Seq<char>, v: Inner, inner: Seq<char>)
    requires
        written_at(t, i, word + seq!['('] + inner + seq![')']),
        word == "Custom"@ || word == "Index"@ || word == "Id"@ || word == "Name"@ || word == "Handle"@,
        match v {
            Inner::Str(s) => inner == quoted(s),
            Inner::Num(n) => inner == decimal(n) && n <= u64::MAX,
        },
    ensures
        spec_word_end(t, i) == i + word.len(),
        t.subrange(i, i + word.len()) == word,
        spec_wrapped(t, i + word.len()) == Some((v, i + word.len() + inner.len() + 2)),
{
    assert(word + seq!['('] + inner + seq![')'] =~= word + (seq!['('] + inner + seq![')']));
    lemma_written_split(t, i, word, seq!['('] + inner + seq![')']);
    lemma_written_char(t, i + word.len(), seq!['('] + inner + seq![')'], 0);
    lemma_all_word_chars(word);
    lemma_word_end_at(t, i, word);
    lemma_wrapped_reads_back(t, i + word.len(), v, inner);
}

/// Key text read back: a well-formed key, written as `push_attribute` writes
/// it and followed by no word character, reads back as the same key (in
/// reduced form) with the same name.
pub proof fn lemma_attribute_reads_back(t: Seq<char>, i: int, a: Attribute)
    requires
        a.well_formed(),
        written_at(t, i, attribute_text(a)),
        i + attribute_text(a).len() == t.len() || !is_word_char(t[i + attribute_text(a).len()]),
    ensures
        spec_attribute(t, i) == Some((a.reduced(), attr_name(a), i + attribute_text(a).len())),
{
    lemma_key_words();
    match a {
        Attribute::Custom(_, n) => {
            assert(attribute_text(a) =~= "Custom"@ + seq!['('] + quoted(n@) + seq![')']);
            lemma_word_wrapped(t, i, "Custom"@, Inner::Str(n@), quoted(n@));
        },
        Attribute::CustomId(h) => {
            assert(attribute_text(a) =~= "Custom"@ + seq!['('] + decimal(h as nat) + seq![')']);
            lemma_word_wrapped(t, i, "Custom"@, Inner::Num(h as nat), decimal(h as nat));
        },
        Attribute::Index(_, n) => {
            assert(attribute_text(a) =~= "Index"@ + seq!['('] + quoted(n@) + seq![')']);
            lemma_word_wrapped(t, i, "Index"@, Inner::Str(n@), quoted(n@));
        },
        Attribute::IndexId(h) => {
            assert(attribute_text(a) =~= "Index"@ + seq!['('] + decimal(h as nat) + seq![')']);
            lemma_word_wrapped(t, i, "Index"@, Inner::Num(h as nat), decimal(h as nat));
        },
        _ => {
            let w = a.variant_name();
            lemma_all_word_chars(w);
            lemma_word_end_at(t, i, w);
        },
    }
}

/// Address text read back: a well-formed address, written as
/// `push_node_id` writes it, reads back as the same address (in reduced form)
/// with the same name.
pub proof fn lemma_node_id_reads_back(t: Seq<char>, i: int, id: NodeId)
    requires
        id.well_formed(),
        written_at(t, i, node_id_text(id)),
    ensures
        spec_node_id(t, i) == Some((id.reduced(), id_name(id), i + node_id_text(id).len())),
{
    lemma_key_words();
    match id {
        NodeId::U64(n) => {
            assert(node_id_text(id) =~= "Id"@ + seq!['('] + decimal(n as nat) + seq![')']);
            lemma_word_wrapped(t, i, "Id"@, Inner::Num(n as nat), decimal(n as nat));
        },
        NodeId::Handle(n) => {
            assert(node_id_text(id) =~= "Handle"@ + seq!['('] + decimal(n as nat) + seq![')']);
            lemma_word_wrapped(t, i, "Handle"@, Inner::Num(n as nat), decimal(n as nat));
        },
        NodeId::Hash(n) => {
            assert(node_id_text(id) =~= "Name"@ + seq!['('] + decimal(n as nat) + seq![')']);
            lemma_word_wrapped(t, i, "Name"@, Inner::Num(n as nat), decimal(n as nat));
        },
        NodeId::Name(_, n) => {
            assert(node_id_text(id) =~= "Name"@ + seq!['('] + quoted(n@) + seq![')']);
            lemma_word_wrapped(t, i, "Name"@, Inner::Str(n@), quoted(n@));
        },
    }
}

/// A character that the value scanner passes over without a change of state.
pub open spec fn plain_char(c: char) -> bool {
    c != '"' && c != '(' && c != '[' && c != ')' && c != ']' && c != ','
}

proof fn lemma_scan_plain(t: Seq<char>, k: int, w: Seq<char>, depth: nat)
    requires
        written_at(t, k, w),
        forall|j: int| 0 <= j < w.len() ==> plain_char(#[trigger] w[j]),
    ensures
        spec_scan(t, k, depth, false) == spec_scan(t, k + w.len(), depth, false),
    decreases w.len(),
{
    if w.len() > 0 {
        lemma_written_char(t, k, w, 0);
        let rest = w.drop_first();
        assert(w =~= seq![w[0]] + rest);
        lemma_written_split(t, k, seq![w[0]], rest);
        assert forall|j: int| 0 <= j < rest.len() implies plain_char(#[trigger] rest[j]) by {
            assert(rest[j] == w[j + 1]);
        }
        lemma_scan_plain(t, k + 1, rest, depth);
    }
}

proof fn lemma_scan_in_string(t: Seq<char>, k: int, s: Seq<char>, depth: nat)
    requires
        written_at(t, k, escaped(s) + seq!['"']),
    ensures
        spec_scan(t, k, depth, true) == spec_scan(t, k + escaped(s).len() + 1, depth, false),
    decreases s.len(),
{
    if s.len() == 0 {
        assert(escaped(s) =~= Seq::<char>::empty());
        lemma_written_char(t, k, escaped(s) + seq!['"'], 0);
    } else {
        let c = s[0];
        let rest = s.drop_first();
        assert(escaped(s) == escaped_char(c) + escaped(rest));
        assert(escaped(s) + seq!['"'] =~= escaped_char(c) + (escaped(rest) + seq!['"']));
        lemma_written_split(t, k, escaped_char(c), escaped(rest) + seq!['"']);
        lemma_written_char(t, k, escaped_char(c), 0);
        lemma_scan_in_string(t, k + escaped_char(c).len(), rest, depth);
        if c == '"' || c == '\\' {
            lemma_written_char(t, k, escaped_char(c), 1);
        }
    }
}

/// The value scanner passes over a string literal as `quoted` writes it.
proof fn lemma_scan_quoted(t: Seq<char>, k: int, s: Seq<char>, depth: nat)
    requires
        written_at(t, k, quoted(s)),
    ensures
        spec_scan(t, k, depth, false) == spec_scan(t, k + quoted(s).len(), depth, false),
{
    assert(quoted(s) =~= seq!['"'] + (escaped(s) + seq!['"']));
    lemma_written_split(t, k, seq!['"'], escaped(s) + seq!['"']);
    lemma_written_char(t, k, seq!['"'], 0);
    lemma_scan_in_string(t, k + 1, s, depth);
}

proof fn lemma_decimal_plain(n: nat)
    ensures
        forall|j: int| 0 <= j < decimal(n).len() ==> plain_char(#[trigger] decimal(n)[j]),
{
    lemma_decimal(n);
    assert forall|j: int| 0 <= j < decimal(n).len() implies plain_char(#[trigger] decimal(n)[j]) by {
        assert(is_digit(decimal(n)[j]));
    }
}

proof fn lemma_word_plain(w: Seq<char>)
    requires
        forall|k: int| 0 <= k < w.len() ==> is_word_char(#[trigger] w[k]),
    ensures
        forall|j: int| 0 <= j < w.len() ==> plain_char(#[trigger] w[j]),
{
    assert forall|j: int| 0 <= j < w.len() implies plain_char(#[trigger] w[j]) by {
        assert(is_word_char(w[j]));
    }
}

/// The value scanner passes over a wrapped form `word(inner)`.
proof fn lemma_scan_wrapped(t: Seq<char>, k: int, word: Seq<char>, v: Inner, inner: Seq<char>)
    requires
        written_at(t, k, word + seq!['('] + inner + seq![')']),
        word == "Custom"@ || word == "Index"@ || word == "Id"@ || word == "Name"@ || word == "Handle"@,
        match v {
            Inner::Str(s) => inner == quoted(s),
            Inner::Num(n) => inner == decimal(n),
        },
    ensures
        spec_scan(t, k, 0, false) == spec_scan(t, k + word.len() + inner.len() + 2, 0, false),
{
    assert(word + seq!['('] + inner + seq![')'] =~= word + (seq!['('] + (inner + seq![')'])));
    lemma_written_split(t, k, word, seq!['('] + (inner + seq![')']));
    lemma_written_split(t, k + word.len(), seq!['('], inner + seq![')']);
    lemma_written_split(t, k + word.len() + 1, inner, seq![')']);
    lemma_written_char(t, k + word.len(), seq!['('], 0);
    lemma_written_char(t, k + word.len() + 1 + inner.len(), seq![')'], 0);
    lemma_all_word_chars(word);
    lemma_word_plain(word);
    lemma_scan_plain(t, k, word, 0);
    match v {
        Inner::Str(s) => {
            lemma_scan_quoted(t, k + word.len() + 1, s, 1);
        },
        Inner::Num(n) => {
            lemma_decimal_plain(n);
            lemma_scan_plain(t, k + word.len() + 1, inner, 1);
        },
    }
}

/// The value scanner passes over a key as `attribute_text` writes it.
pub proof fn lemma_scan_attribute(t: Seq<char>, k: int, a: Attribute)
    requires
        written_at(t, k, attribute_text(a)),
    ensures
        spec_scan(t, k, 0, false) == spec_scan(t, k + attribute_text(a).len(), 0, false),
{
    lemma_key_words();
    match a {
        Attribute::Custom(_, n) => {
            assert(attribute_text(a) =~= "Custom"@ + seq!['('] + quoted(n@) + seq![')']);
            lemma_scan_wrapped(t, k, "Custom"@, Inner::Str(n@), quoted(n@));
        },
        Attribute::CustomId(h) => {
            assert(attribute_text(a) =~= "Custom"@ + seq!['('] + decimal(h as nat) + seq![')']);
            lemma_scan_wrapped(t, k, "Custom"@, Inner::Num(h as nat), decimal(h as nat));
        },
        Attribute::Index(_, n) => {
            assert(attribute_text(a) =~= "Index"@ + seq!['('] + quoted(n@) + seq![')']);
            lemma_scan_wrapped(t, k, "Index"@, Inner::Str(n@), quoted(n@));
        },
        Attribute::IndexId(h) => {
            assert(attribute_text(a) =~= "Index"@ + seq!['('] + decimal(h as nat) + seq![')']);
            lemma_scan_wrapped(t, k, "Index"@, Inner::Num(h as nat), decimal(h as nat));
        },
        _ => {
            lemma_all_word_chars(a.variant_name());
            lemma_word_plain(a.variant_name());
            lemma_scan_plain(t, k, a.variant_name(), 0);
        },
    }
}

/// The value scanner passes over an address as `node_id_text` writes it.
pub proof fn lemma_scan_node_id(t: Seq<char>, k: int, id: NodeId)
    requires
        written_at(t, k, node_id_text(id)),
    ensures
        spec_scan(t, k, 0, false) == spec_scan(t, k + node_id_text(id).len(), 0, false),
{
    lemma_key_words();
    match id {
        NodeId::U64(n) => {
            assert(node_id_text(id) =~= "Id"@ + seq!['('] + decimal(n as nat) + seq![')']);
            lemma_scan_wrapped(t, k, "Id"@, Inner::Num(n as nat), decimal(n as nat));
        },
        NodeId::Handle(n) => {
            assert(node_id_text(id) =~= "Handle"@ + seq!['('] + decimal(n as nat) + seq![')']);
            lemma_scan_wrapped(t, k, "Handle"@, Inner::Num(n as nat), decimal(n as nat));
        },
        NodeId::Hash(n) => {
            assert(node_id_text(id) =~= "Name"@ + seq!['('] + decimal(n as nat) + seq![')']);
            lemma_scan_wrapped(t, k, "Name"@, Inner::Num(n as nat), decimal(n as nat));
        },
        NodeId::Name(_, n) => {
            assert(node_id_text(id) =~= "Name"@ + seq!['('] + quoted(n@) + seq![')']);
            lemma_scan_wrapped(t, k, "Name"@, Inner::Str(n@), quoted(n@));
        },
    }
}

/// One field `name: value` of a body, at `a` (after blanks from `p`), whose
/// value the scanner ends at `v1`, followed by `,` or `)`.
pub proof fn lemma_field_step(t: Seq<char>, p: int, a: int, name: Seq<char>, v1: int, acc: Seq<FieldSpan>)
    requires
        0 <= p <= a,
        spec_skip_blanks(t, p) == a,
        t.len() <= usize::MAX,
        name.len() > 0,
        forall|k: int| 0 <= k < name.len() ==> is_word_char(#[trigger] name[k]),
        written_at(t, a, name + ": "@),
        ": "@ == seq![':', ' '],
        a + name.len() + 2 < t.len(),
        !is_blank(t[a + name.len() + 2]),
        spec_scan(t, a + name.len() + 2, 0, false) == v1,
        a + name.len() + 2 <= v1 < t.len(),
        t[v1] == ',' || t[v1] == ')',
    ensures
        ({
            let f = FieldSpan { name_start: a as usize, name_end: (a + name.len()) as usize, start: (a + name.len() + 2) as usize, end: v1 as usize };
            &&& t[v1] == ',' ==> spec_fields(t, p, acc) == spec_fields(t, v1 + 1, acc.push(f))
            &&& t[v1] == ')' ==> spec_fields(t, p, acc) == Ok::<(Seq<FieldSpan>, int), (crate::error::ParseIssue, int)>((acc.push(f), v1 + 1))
        }),
{
    lemma_written_split(t, a, name, ": "@);
    lemma_written_char(t, a + name.len(), ": "@, 0);
    lemma_written_char(t, a + name.len(), ": "@, 1);
    lemma_written_char(t, a, name, 0);
    lemma_word_end_at(t, a, name);
    let e = a + name.len();
    assert(spec_skip_blanks(t, e) == e);
    assert(spec_skip_blanks(t, e + 2) == e + 2);
    assert(spec_skip_blanks(t, e + 1) == e + 2);
    assert(t[a] != ')') by {
        assert(is_word_char(name[0]));
    }
}

/// Where the value of each field of a printed frame-rate node (without a
/// given identity) ends: the name's, the rate's and the next address's.
pub open spec fn fps_ends(n: FPSNode) -> (int, int, int) {
    let q1 = prefix_text(n.id).len() + 14 + quoted(n.name@).len();
    let d1 = q1 + 7 + decimal(n.fps as nat).len();
    let i1 = d1 + 8 + node_id_text(n.next).len();
    (q1 as int, d1 as int, i1 as int)
}

/// The fields of a printed frame-rate node.
pub open spec fn fps_fields(n: FPSNode) -> Seq<FieldSpan> {
    let (q1, d1, i1) = fps_ends(n);
    seq![
        FieldSpan { name_start: 8, name_end: 12, start: 14, end: q1 as usize },
        FieldSpan { name_start: (q1 + 2) as usize, name_end: (q1 + 5) as usize, start: (q1 + 7) as usize, end: d1 as usize },
        FieldSpan { name_start: (d1 + 2) as usize, name_end: (d1 + 6) as usize, start: (d1 + 8) as usize, end: i1 as usize },
    ]
}

#[verifier::rlimit(100)]
proof fn lemma_fps_layout(n: FPSNode)
    requires
        fps_node_text(n).len() <= usize::MAX,
    ensures
        fps_layout(fps_node_text(n), prefix_text(n.id).len() as int, n.name@, n.fps as nat, n.next, fps_ends(n).0, fps_ends(n).1, fps_ends(n).2),
        written_at(fps_node_text(n), 0, prefix_text(n.id)),
        written_at(fps_node_text(n), prefix_text(n.id).len() as int, "FPSNode"@ + seq!['(']),
{
    reveal_strlit("FPSNode(name: ");
    reveal_strlit(", fps: ");
    reveal_strlit(", next: ");
    reveal_strlit(")");
    reveal_strlit(": ");
    reveal_strlit("FPSNode");
    reveal_strlit("name");
    reveal_strlit("fps");
    reveal_strlit("next");
    let t = fps_node_text(n);
    let q = quoted(n.name@);
    let d = decimal(n.fps as nat);
    let id = node_id_text(n.next);
    let (q1, d1, i1) = fps_ends(n);
    let o = prefix_text(n.id).len() as int;
    let s1 = "FPSNode"@ + seq!['('] + ("name"@ + ": "@);
    let s2 = seq![',', ' '] + ("fps"@ + ": "@);
    let s3 = seq![',', ' '] + ("next"@ + ": "@);
    assert("FPSNode(name: "@ =~= s1);
    assert(", fps: "@ =~= s2);
    assert(", next: "@ =~= s3);
    assert(t =~= prefix_text(n.id) + s1 + q + s2 + d + s3 + id + seq![')']);
    assert(t.subrange(o + 0, o + 7) =~= "FPSNode"@);
    assert(t.subrange(o + 8, o + 14) =~= "name"@ + ": "@);
    assert(t.subrange(o + 14, q1) =~= q);
    assert(t.subrange(q1 + 2, q1 + 7) =~= "fps"@ + ": "@);
    assert(t.subrange(q1 + 7, d1) =~= d);
    assert(t.subrange(d1 + 2, d1 + 8) =~= "next"@ + ": "@);
    assert(t.subrange(d1 + 8, i1) =~= id);
    assert(t.subrange(0, o) =~= prefix_text(n.id));
    assert(t.subrange(o, o + 8) =~= "FPSNode"@ + seq!['(']);
}


/// The identity that a written prefix gives, as an entry's head reads it.
pub open spec fn prefix_of(id: Option<NodeId>) -> Option<(NodeId, Option<Seq<char>>)> {
    match id {
        Some(i) => Some((i.reduced(), id_name(i))),
        None => None,
    }
}

/// The head of an entry that `serialize` wrote: the identity prefix, if any,
/// reads back, and the node text starts right after it.
proof fn lemma_entry_head_prefix(t: Seq<char>, id: Option<NodeId>, word: Seq<char>)
    requires
        id matches Some(i) ==> i.well_formed() && !(i is Handle),
        word == "FPSNode"@ || word == "ScaleNode"@ || word == "IndexNode"@ || word == "VariableNode"@,
        written_at(t, prefix_text(id).len() as int, word + seq!['(']),
        written_at(t, 0, prefix_text(id)),
    ensures
        crate::loader::entry_head(t, 0) == (prefix_text(id).len() as int, prefix_of(id)),
{
    reveal_strlit("FPSNode");
    reveal_strlit("ScaleNode");
    reveal_strlit("IndexNode");
    reveal_strlit("VariableNode");
    reveal_strlit("Id");
    reveal_strlit("Name");
    reveal_strlit("Handle");
    reveal_strlit(": ");
    lemma_written_split(t, prefix_text(id).len() as int, word, seq!['(']);
    lemma_written_char(t, prefix_text(id).len() as int, word, 0);
    match id {
        None => {
            assert(prefix_text(id) =~= Seq::<char>::empty());
            lemma_written_char(t, word.len() as int, seq!['('], 0);
            assert(forall|k: int| 0 <= k < word.len() ==> is_word_char(#[trigger] word[k]));
            lemma_word_end_at(t, 0, word);
            assert(word.len() != 2 && word.len() != 4 && word.len() != 6);
            assert(t.subrange(0, word.len() as int) == word);
            assert(spec_node_id(t, 0) is None);
        },
        Some(i) => {
            let it = node_id_text(i);
            assert(prefix_text(id) == it + ": "@);
            lemma_written_split(t, 0, it, ": "@);
            lemma_node_id_reads_back(t, 0, i);
            lemma_written_char(t, it.len() as int, ": "@, 0);
            lemma_written_char(t, it.len() as int, ": "@, 1);
            let m = it.len() as int;
            assert(spec_skip_blanks(t, m) == m);
            assert(spec_skip_blanks(t, m + 2) == m + 2);
            assert(spec_skip_blanks(t, m + 1) == m + 2);
        },
    }
}

/// The layout of a printed frame-rate node, over any text.
pub open spec fn fps_layout(t: Seq<char>, o: int, name: Seq<char>, fps: nat, next: NodeId, q1: int, d1: int, i1: int) -> bool {
    &&& q1 == o + 14 + quoted(name).len()
    &&& d1 == q1 + 7 + decimal(fps).len()
    &&& i1 == d1 + 8 + node_id_text(next).len()
    &&& t.len() == i1 + 1
    &&& t.len() <= usize::MAX
    &&& written_at(t, o + 0, "FPSNode"@)
    &&& t[o + 7] == '('
    &&& written_at(t, o + 8, "name"@ + ": "@)
    &&& written_at(t, o + 14, quoted(name))
    &&& t[q1] == ',' && t[q1 + 1] == ' '
    &&& written_at(t, q1 + 2, "fps"@ + ": "@)
    &&& written_at(t, q1 + 7, decimal(fps))
    &&& t[d1] == ',' && t[d1 + 1] == ' '
    &&& written_at(t, d1 + 2, "next"@ + ": "@)
    &&& written_at(t, d1 + 8, node_id_text(next))
    &&& t[i1] == ')'
}

pub open spec fn three_fields(o: int, q1: int, d1: int, i1: int) -> Seq<FieldSpan> {
    seq![
        FieldSpan { name_start: (o + 8) as usize, name_end: (o + 12) as usize, start: (o + 14) as usize, end: q1 as usize },
        FieldSpan { name_start: (q1 + 2) as usize, name_end: (q1 + 5) as usize, start: (q1 + 7) as usize, end: d1 as usize },
        FieldSpan { name_start: (d1 + 2) as usize, name_end: (d1 + 6) as usize, start: (d1 + 8) as usize, end: i1 as usize },
    ]
}

#[verifier::rlimit(100)]
proof fn lemma_fps_body_at(t: Seq<char>, o: int, name: Seq<char>, fps: nat, next: NodeId, q1: int, d1: int, i1: int)
    requires
        fps_layout(t, o, name, fps, next, q1, d1, i1),
    ensures
        spec_body(t, o + 7) == Ok::<(Seq<FieldSpan>, int), (crate::error::ParseIssue, int)>((three_fields(o, q1, d1, i1), i1 + 1)),
        spec_word_end(t, o) == o + 7,
{
    reveal_strlit(": ");
    reveal_strlit("FPSNode");
    reveal_strlit("name");
    reveal_strlit("fps");
    reveal_strlit("next");
    assert(": "@ =~= seq![':', ' ']);
    let q = quoted(name);
    let d = decimal(fps);
    let id = node_id_text(next);
    assert(forall|k: int| 0 <= k < "FPSNode"@.len() ==> is_word_char(#[trigger] "FPSNode"@[k]));
    lemma_word_end_at(t, o, "FPSNode"@);
    assert(spec_skip_blanks(t, o + 7) == o + 7);
    lemma_written_char(t, o + 14, q, 0);
    lemma_scan_quoted(t, o + 14, name, 0);
    assert(spec_scan(t, q1, 0, false) == q1);
    lemma_written_char(t, o + 8, "name"@ + ": "@, 0);
    assert(spec_skip_blanks(t, o + 8) == o + 8);
    assert(forall|k: int| 0 <= k < "name"@.len() ==> is_word_char(#[trigger] "name"@[k]));
    lemma_field_step(t, o + 8, o + 8, "name"@, q1, Seq::empty());
    let f = three_fields(o, q1, d1, i1);
    lemma_written_char(t, q1 + 2, "fps"@ + ": "@, 0);
    assert(spec_skip_blanks(t, q1 + 2) == q1 + 2);
    assert(spec_skip_blanks(t, q1 + 1) == q1 + 2);
    lemma_decimal(fps);
    lemma_written_char(t, q1 + 7, d, 0);
    lemma_decimal_plain(fps);
    lemma_scan_plain(t, q1 + 7, d, 0);
    assert(spec_scan(t, d1, 0, false) == d1);
    assert(forall|k: int| 0 <= k < "fps"@.len() ==> is_word_char(#[trigger] "fps"@[k]));
    lemma_field_step(t, q1 + 1, q1 + 2, "fps"@, d1, seq![f[0]]);
    lemma_written_char(t, d1 + 2, "next"@ + ": "@, 0);
    assert(spec_skip_blanks(t, d1 + 2) == d1 + 2);
    assert(spec_skip_blanks(t, d1 + 1) == d1 + 2);
    lemma_written_char(t, d1 + 8, id, 0);
    lemma_node_id_first(next);
    lemma_scan_node_id(t, d1 + 8, next);
    assert(spec_scan(t, i1, 0, false) == i1);
    assert(forall|k: int| 0 <= k < "next"@.len() ==> is_word_char(#[trigger] "next"@[k]));
    lemma_field_step(t, d1 + 1, d1 + 2, "next"@, i1, seq![f[0], f[1]]);
    assert(seq![f[0]].push(f[1]) =~= seq![f[0], f[1]]);
    assert(seq![f[0], f[1]].push(f[2]) =~= f);
}

proof fn lemma_node_id_first(id: NodeId)
    ensures
        !is_blank(node_id_text(id)[0]),
        node_id_text(id).len() > 0,
{
    reveal_strlit("Id(");
    reveal_strlit("Handle(");
    reveal_strlit("Name(");
}

#[verifier::rlimit(100)]
proof fn lemma_fps_fields_at(t: Seq<char>, o: int, name: Seq<char>, fps: nat, next: NodeId, q1: int, d1: int, i1: int)
    requires
        fps_layout(t, o, name, fps, next, q1, d1, i1),
        next.well_formed(),
        fps <= u32::MAX,
    ensures
        spec_fps_fields(t, three_fields(o, q1, d1, i1), i1 + 1) == Ok::<_, (crate::error::ParseIssue, int)>(
            (name, fps, next.reduced(), id_name(next))),
{
    reveal_strlit(": ");
    reveal_strlit("name");
    reveal_strlit("fps");
    reveal_strlit("next");
    let fs = three_fields(o, q1, d1, i1);
    lemma_written_split(t, o + 8, "name"@, ": "@);
    lemma_written_split(t, q1 + 2, "fps"@, ": "@);
    lemma_written_split(t, d1 + 2, "next"@, ": "@);
    assert(t.subrange(o + 8, o + 12) == "name"@);
    assert(t.subrange(q1 + 2, q1 + 5) == "fps"@);
    assert(t.subrange(d1 + 2, d1 + 6) == "next"@);
    assert(fs.drop_last() =~= seq![fs[0], fs[1]]);
    assert(fs.drop_last().drop_last() =~= seq![fs[0]]);
    assert("name"@[1] != "next"@[1] && "fps"@.len() != "name"@.len() && "fps"@.len() != "next"@.len());
    reveal_with_fuel(spec_field, 4);
    assert(spec_field(t, fs, "next"@) == Some(fs[2]));
    assert(spec_field(t, fs, "fps"@) == Some(fs[1]));
    assert(spec_field(t, fs, "name"@) == Some(fs[0]));
    lemma_quoted_reads_back(t, o + 14, name);
    lemma_decimal_reads_back(t, q1 + 7, fps);
    lemma_node_id_reads_back(t, d1 + 8, next);
    assert(spec_skip_blanks(t, q1) == q1);
    assert(spec_skip_blanks(t, d1) == d1);
    assert(spec_skip_blanks(t, i1) == i1);
}


/// Text whose type name at `i` is `FPSNode` describes such nodes only, each
/// with the fields that the body gives.
proof fn lemma_describes_fps(t: Seq<char>, i: int, node: AnimationNode, j: int)
    requires
        t.subrange(i, spec_word_end(t, i)) == "FPSNode"@,
        describes(t, i, node, j),
    ensures
        node is Fps,
        spec_body(t, spec_word_end(t, i)) is Ok,
        j == spec_body(t, spec_word_end(t, i))->Ok_0.1,
        spec_fps_fields(t, spec_body(t, spec_word_end(t, i))->Ok_0.0, j) == Ok::<_, (crate::error::ParseIssue, int)>(fps_text(node->Fps_0)),
{
    crate::loader::lemma_names_distinct();
}

/// Round trip of a frame-rate node: the text that `serialize` writes is an entry
/// whose identity prefix, if any, gives the node's identity, and whose node
/// text describes the node (without that identity); any node that it
/// describes has the same name, rate and next address.
#[verifier::rlimit(100)]
pub proof fn lemma_fps_round_trip(n: FPSNode)
    requires
        n.next.well_formed(),
        n.id matches Some(i) ==> i.well_formed() && !(i is Handle),
        fps_node_text(n).len() <= usize::MAX,
    ensures
        entry_head(fps_node_text(n), 0) == (prefix_text(n.id).len() as int, prefix_of(n.id)),
        describes(fps_node_text(n), prefix_text(n.id).len() as int, AnimationNode::Fps(FPSNode { id: None, ..n }),
            fps_node_text(n).len() as int),
        forall|node: AnimationNode, j: int| describes(fps_node_text(n), prefix_text(n.id).len() as int, node, j) ==>
            (node is Fps && fps_text(node->Fps_0) == fps_text(n) && j == fps_node_text(n).len()),
{
    lemma_fps_layout(n);
    let t = fps_node_text(n);
    let o = prefix_text(n.id).len() as int;
    let (q1, x1, i1) = fps_ends(n);
    lemma_fps_body_at(t, o, n.name@, n.fps as nat, n.next, q1, x1, i1);
    lemma_fps_fields_at(t, o, n.name@, n.fps as nat, n.next, q1, x1, i1);
    reveal_strlit("FPSNode");
    assert(t.subrange(o, o + "FPSNode"@.len()) == "FPSNode"@);
    lemma_entry_head_prefix(t, n.id, "FPSNode"@);
    assert forall|node: AnimationNode, j: int| describes(t, o, node, j) implies
        (node is Fps && fps_text(node->Fps_0) == fps_text(n) && j == t.len()) by {
        lemma_describes_fps(t, o, node, j);
    }
}

pub open spec fn scale_ends(n: ScaleNode) -> (int, int, int) {
    let q1 = prefix_text(n.id).len() + 16 + quoted(n.name@).len();
    let a1 = q1 + 9 + attribute_text(n.scale).len();
    let i1 = a1 + 8 + node_id_text(n.next).len();
    (q1 as int, a1 as int, i1 as int)
}

/// The layout of a printed scale node, over any text.
pub open spec fn scale_layout(t: Seq<char>, o: int, name: Seq<char>, scale: Attribute, next: NodeId, q1: int, a1: int, i1: int) -> bool {
    &&& q1 == o + 16 + quoted(name).len()
    &&& a1 == q1 + 9 + attribute_text(scale).len()
    &&& i1 == a1 + 8 + node_id_text(next).len()
    &&& t.len() == i1 + 1
    &&& t.len() <= usize::MAX
    &&& written_at(t, o + 0, "ScaleNode"@)
    &&& t[o + 9] == '('
    &&& written_at(t, o + 10, "name"@ + ": "@)
    &&& written_at(t, o + 16, quoted(name))
    &&& t[q1] == ',' && t[q1 + 1] == ' '
    &&& written_at(t, q1 + 2, "scale"@ + ": "@)
    &&& written_at(t, q1 + 9, attribute_text(scale))
    &&& t[a1] == ',' && t[a1 + 1] == ' '
    &&& written_at(t, a1 + 2, "next"@ + ": "@)
    &&& written_at(t, a1 + 8, node_id_text(next))
    &&& t[i1] == ')'
}

pub open spec fn scale_fields(o: int, q1: int, a1: int, i1: int) -> Seq<FieldSpan> {
    seq![
        FieldSpan { name_start: (o + 10) as usize, name_end: (o + 14) as usize, start: (o + 16) as usize, end: q1 as usize },
        FieldSpan { name_start: (q1 + 2) as usize, name_end: (q1 + 7) as usize, start: (q1 + 9) as usize, end: a1 as usize },
        FieldSpan { name_start: (a1 + 2) as usize, name_end: (a1 + 6) as usize, start: (a1 + 8) as usize, end: i1 as usize },
    ]
}

#[verifier::rlimit(100)]
proof fn lemma_scale_layout(n: ScaleNode)
    requires
        scale_node_text(n).len() <= usize::MAX,
    ensures
        scale_layout(scale_node_text(n), prefix_text(n.id).len() as int, n.name@, n.scale, n.next, scale_ends(n).0, scale_ends(n).1, scale_ends(n).2),
        written_at(scale_node_text(n), 0, prefix_text(n.id)),
        written_at(scale_node_text(n), prefix_text(n.id).len() as int, "ScaleNode"@ + seq!['(']),
{
    reveal_strlit("ScaleNode(name: ");
    reveal_strlit(", scale: ");
    reveal_strlit(", next: ");
    reveal_strlit(")");
    reveal_strlit(": ");
    reveal_strlit("ScaleNode");
    reveal_strlit("name");
    reveal_strlit("scale");
    reveal_strlit("next");
    let t = scale_node_text(n);
    let q = quoted(n.name@);
    let a = attribute_text(n.scale);
    let id = node_id_text(n.next);
    let (q1, a1, i1) = scale_ends(n);
    let o = prefix_text(n.id).len() as int;
    let s1 = "ScaleNode"@ + seq!['('] + ("name"@ + ": "@);
    let s2 = seq![',', ' '] + ("scale"@ + ": "@);
    let s3 = seq![',', ' '] + ("next"@ + ": "@);
    assert("ScaleNode(name: "@ =~= s1);
    assert(", scale: "@ =~= s2);
    assert(", next: "@ =~= s3);
    assert(t =~= prefix_text(n.id) + s1 + q + s2 + a + s3 + id + seq![')']);
    assert(t.subrange(o + 0, o + 9) =~= "ScaleNode"@);
    assert(t.subrange(o + 10, o + 16) =~= "name"@ + ": "@);
    assert(t.subrange(o + 16, q1) =~= q);
    assert(t.subrange(q1 + 2, q1 + 9) =~= "scale"@ + ": "@);
    assert(t.subrange(q1 + 9, a1) =~= a);
    assert(t.subrange(a1 + 2, a1 + 8) =~= "next"@ + ": "@);
    assert(t.subrange(a1 + 8, i1) =~= id);
    assert(t.subrange(0, o) =~= prefix_text(n.id));
    assert(t.subrange(o, o + 10) =~= "ScaleNode"@ + seq!['(']);
}

proof fn lemma_attribute_first(a: Attribute)
    ensures
        attribute_text(a).len() > 0,
        !is_blank(attribute_text(a)[0]),
{
    reveal_strlit("Custom(");
    reveal_strlit("Index(");
    reveal_strlit("Default");
    reveal_strlit("Delta");
    reveal_strlit("Frames");
    reveal_strlit("TimeThisFrame");
    reveal_strlit("FlipX");
    reveal_strlit("FlipY");
    reveal_strlit("LastFPS");
    reveal_strlit("Custom");
    reveal_strlit("Index");
}

#[verifier::rlimit(100)]
proof fn lemma_scale_body_at(t: Seq<char>, o: int, name: Seq<char>, scale: Attribute, next: NodeId, q1: int, a1: int, i1: int)
    requires
        scale_layout(t, o, name, scale, next, q1, a1, i1),
    ensures
        spec_body(t, o + 9) == Ok::<(Seq<FieldSpan>, int), (crate::error::ParseIssue, int)>((scale_fields(o, q1, a1, i1), i1 + 1)),
        spec_word_end(t, o) == o + 9,
{
    reveal_strlit(": ");
    reveal_strlit("ScaleNode");
    reveal_strlit("name");
    reveal_strlit("scale");
    reveal_strlit("next");
    assert(": "@ =~= seq![':', ' ']);
    let q = quoted(name);
    let a = attribute_text(scale);
    let id = node_id_text(next);
    assert(forall|k: int| 0 <= k < "ScaleNode"@.len() ==> is_word_char(#[trigger] "ScaleNode"@[k]));
    lemma_word_end_at(t, o, "ScaleNode"@);
    assert(spec_skip_blanks(t, o + 9) == o + 9);
    lemma_written_char(t, o + 16, q, 0);
    lemma_scan_quoted(t, o + 16, name, 0);
    assert(spec_scan(t, q1, 0, false) == q1);
    lemma_written_char(t, o + 10, "name"@ + ": "@, 0);
    assert(spec_skip_blanks(t, o + 10) == o + 10);
    assert(forall|k: int| 0 <= k < "name"@.len() ==> is_word_char(#[trigger] "name"@[k]));
    lemma_field_step(t, o + 10, o + 10, "name"@, q1, Seq::empty());
    let f = scale_fields(o, q1, a1, i1);
    lemma_written_char(t, q1 + 2, "scale"@ + ": "@, 0);
    assert(spec_skip_blanks(t, q1 + 2) == q1 + 2);
    assert(spec_skip_blanks(t, q1 + 1) == q1 + 2);
    lemma_attribute_first(scale);
    lemma_written_char(t, q1 + 9, a, 0);
    lemma_scan_attribute(t, q1 + 9, scale);
    assert(spec_scan(t, a1, 0, false) == a1);
    assert(forall|k: int| 0 <= k < "scale"@.len() ==> is_word_char(#[trigger] "scale"@[k]));
    lemma_field_step(t, q1 + 1, q1 + 2, "scale"@, a1, seq![f[0]]);
    lemma_written_char(t, a1 + 2, "next"@ + ": "@, 0);
    assert(spec_skip_blanks(t, a1 + 2) == a1 + 2);
    assert(spec_skip_blanks(t, a1 + 1) == a1 + 2);
    lemma_written_char(t, a1 + 8, id, 0);
    lemma_node_id_first(next);
    lemma_scan_node_id(t, a1 + 8, next);
    assert(spec_scan(t, i1, 0, false) == i1);
    assert(forall|k: int| 0 <= k < "next"@.len() ==> is_word_char(#[trigger] "next"@[k]));
    lemma_field_step(t, a1 + 1, a1 + 2, "next"@, i1, seq![f[0], f[1]]);
    assert(seq![f[0]].push(f[1]) =~= seq![f[0], f[1]]);
    assert(seq![f[0], f[1]].push(f[2]) =~= f);
}

#[verifier::rlimit(100)]
proof fn lemma_scale_fields_at(t: Seq<char>, o: int, name: Seq<char>, scale: Attribute, next: NodeId, q1: int, a1: int, i1: int)
    requires
        scale_layout(t, o, name, scale, next, q1, a1, i1),
        scale.well_formed(),
        next.well_formed(),
    ensures
        spec_scale_fields(t, scale_fields(o, q1, a1, i1), i1 + 1) == Ok::<_, (crate::error::ParseIssue, int)>(
            (name, (scale.reduced(), attr_name(scale)), (next.reduced(), id_name(next)))),
{
    reveal_strlit(": ");
    reveal_strlit("name");
    reveal_strlit("scale");
    reveal_strlit("next");
    let fs = scale_fields(o, q1, a1, i1);
    lemma_written_split(t, o + 10, "name"@, ": "@);
    lemma_written_split(t, q1 + 2, "scale"@, ": "@);
    lemma_written_split(t, a1 + 2, "next"@, ": "@);
    assert(t.subrange(o + 10, o + 14) == "name"@);
    assert(t.subrange(q1 + 2, q1 + 7) == "scale"@);
    assert(t.subrange(a1 + 2, a1 + 6) == "next"@);
    assert(fs.drop_last() =~= seq![fs[0], fs[1]]);
    assert(fs.drop_last().drop_last() =~= seq![fs[0]]);
    assert("name"@[1] != "next"@[1] && "scale"@.len() != "name"@.len() && "scale"@.len() != "next"@.len());
    reveal_with_fuel(spec_field, 4);
    assert(spec_field(t, fs, "next"@) == Some(fs[2]));
    assert(spec_field(t, fs, "scale"@) == Some(fs[1]));
    assert(spec_field(t, fs, "name"@) == Some(fs[0]));
    lemma_quoted_reads_back(t, o + 16, name);
    lemma_attribute_reads_back(t, q1 + 9, scale);
    lemma_node_id_reads_back(t, a1 + 8, next);
    assert(spec_skip_blanks(t, q1) == q1);
    assert(spec_skip_blanks(t, a1) == a1);
    assert(spec_skip_blanks(t, i1) == i1);
}


/// Text whose type name at `i` is `ScaleNode` describes such nodes only, each
/// with the fields that the body gives.
proof fn lemma_describes_scale(t: Seq<char>, i: int, node: AnimationNode, j: int)
    requires
        t.subrange(i, spec_word_end(t, i)) == "ScaleNode"@,
        describes(t, i, node, j),
    ensures
        node is Scale,
        spec_body(t, spec_word_end(t, i)) is Ok,
        j == spec_body(t, spec_word_end(t, i))->Ok_0.1,
        spec_scale_fields(t, spec_body(t, spec_word_end(t, i))->Ok_0.0, j) == Ok::<_, (crate::error::ParseIssue, int)>(scale_text(node->Scale_0)),
{
    crate::loader::lemma_names_distinct();
}

/// Round trip of a scale node: the text that `serialize` writes is an entry
/// whose identity prefix, if any, gives the node's identity, and whose node
/// text describes the node (without that identity); any node that it
/// describes has the same name, scale key and next address.
#[verifier::rlimit(100)]
pub proof fn lemma_scale_round_trip(n: ScaleNode)
    requires
        n.scale.well_formed(),
        n.next.well_formed(),
        n.id matches Some(i) ==> i.well_formed() && !(i is Handle),
        scale_node_text(n).len() <= usize::MAX,
    ensures
        entry_head(scale_node_text(n), 0) == (prefix_text(n.id).len() as int, prefix_of(n.id)),
        describes(scale_node_text(n), prefix_text(n.id).len() as int, AnimationNode::Scale(ScaleNode { id: None, ..n }),
            scale_node_text(n).len() as int),
        forall|node: AnimationNode, j: int| describes(scale_node_text(n), prefix_text(n.id).len() as int, node, j) ==>
            (node is Scale && scale_text(node->Scale_0) == scale_text(n) && j == scale_node_text(n).len()),
{
    lemma_scale_layout(n);
    let t = scale_node_text(n);
    let o = prefix_text(n.id).len() as int;
    let (q1, x1, i1) = scale_ends(n);
    lemma_scale_body_at(t, o, n.name@, n.scale, n.next, q1, x1, i1);
    lemma_scale_fields_at(t, o, n.name@, n.scale, n.next, q1, x1, i1);
    reveal_strlit("ScaleNode");
    assert(t.subrange(o, o + "ScaleNode"@.len()) == "ScaleNode"@);
    lemma_entry_head_prefix(t, n.id, "ScaleNode"@);
    assert forall|node: AnimationNode, j: int| describes(t, o, node, j) implies
        (node is Scale && scale_text(node->Scale_0) == scale_text(n) && j == t.len()) by {
        lemma_describes_scale(t, o, node, j);
    }
}

/// The items of a path list, built from the front.
pub open spec fn items_front(ps: Seq<Seq<char>>) -> Seq<char>
    decreases ps.len(),
{
    if ps.len() == 0 {
        Seq::empty()
    } else if ps.len() == 1 {
        quoted(ps[0])
    } else {
        quoted(ps[0]) + ", "@ + items_front(ps.drop_first())
    }
}

proof fn lemma_items_front(ps: Seq<Seq<char>>)
    ensures
        paths_text(ps) == items_front(ps),
    decreases ps.len(),
{
    if ps.len() > 2 {
        let dl = ps.drop_last();
        let df = ps.drop_first();
        lemma_items_front(dl);
        lemma_items_front(df);
        lemma_items_front(df.drop_last());
        assert(dl.drop_first() =~= df.drop_last());
        assert(df.last() == ps.last());
        assert(dl[0] == ps[0]);
        assert(paths_text(df) == paths_text(df.drop_last()) + ", "@ + quoted(df.last()));
        assert(items_front(dl) == quoted(dl[0]) + ", "@ + items_front(dl.drop_first()));
        assert(items_front(ps) == quoted(ps[0]) + ", "@ + items_front(df));
        assert(paths_text(ps) == paths_text(dl) + ", "@ + quoted(ps.last()));
        assert(items_front(ps) =~= paths_text(ps));
    } else if ps.len() == 2 {
        assert(ps.drop_last() =~= seq![ps[0]]);
        assert(ps.drop_first() =~= seq![ps[1]]);
        assert(paths_text(ps.drop_last()) == quoted(ps[0]));
        assert(items_front(ps.drop_first()) == quoted(ps[1]));
    }
}

proof fn lemma_quoted_first(s: Seq<char>)
    ensures
        quoted(s).len() >= 2,
        quoted(s)[0] == '"',
{
}

/// The value scanner passes over the items of a path list and its `]`.
proof fn lemma_scan_items(t: Seq<char>, k: int, ps: Seq<Seq<char>>)
    requires
        written_at(t, k, items_front(ps) + seq![']']),
    ensures
        spec_scan(t, k, 1, false) == spec_scan(t, k + items_front(ps).len() + 1, 0, false),
    decreases ps.len(),
{
    reveal_strlit(", ");
    if ps.len() == 0 {
        assert(items_front(ps) + seq![']'] =~= seq![']']);
        lemma_written_char(t, k, items_front(ps) + seq![']'], 0);
        assert(t[k] == ']');
    } else if ps.len() == 1 {
        assert(items_front(ps) == quoted(ps[0]));
        lemma_written_split(t, k, quoted(ps[0]), seq![']']);
        lemma_scan_quoted(t, k, ps[0], 1);
        lemma_written_char(t, k + quoted(ps[0]).len(), seq![']'], 0);
        assert(spec_scan(t, k + quoted(ps[0]).len(), 1, false) == spec_scan(t, k + quoted(ps[0]).len() + 1, 0, false));
    } else {
        let q = quoted(ps[0]);
        let rest = items_front(ps.drop_first());
        assert(items_front(ps) + seq![']'] =~= q + (seq![',', ' '] + (rest + seq![']'])));
        lemma_written_split(t, k, q, seq![',', ' '] + (rest + seq![']']));
        lemma_written_split(t, k + q.len(), seq![',', ' '], rest + seq![']']);
        lemma_scan_quoted(t, k, ps[0], 1);
        lemma_written_char(t, k + q.len(), seq![',', ' '], 0);
        lemma_written_char(t, k + q.len(), seq![',', ' '], 1);
        lemma_scan_items(t, k + q.len() + 2, ps.drop_first());
        assert(spec_scan(t, k + q.len(), 1, false) == spec_scan(t, k + q.len() + 1, 1, false));
        assert(spec_scan(t, k + q.len() + 1, 1, false) == spec_scan(t, k + q.len() + 2, 1, false));
    }
}

/// The items of a path list read back, from `k` (blanks before them allowed).
proof fn lemma_items_read(t: Seq<char>, k: int, k0: int, acc: Seq<Seq<char>>, ps: Seq<Seq<char>>)
    requires
        0 <= k <= k0,
        spec_skip_blanks(t, k) == k0,
        ps.len() > 0,
        written_at(t, k0, items_front(ps) + seq![']']),
    ensures
        spec_path_items(t, k, acc) == Some((acc + ps, k0 + items_front(ps).len() + 1)),
    decreases ps.len(),
{
    reveal_strlit(", ");
    let q = quoted(ps[0]);
    lemma_quoted_first(ps[0]);
    if ps.len() == 1 {
        lemma_written_split(t, k0, q, seq![']']);
    } else {
        assert(items_front(ps) + seq![']'] =~= q + (seq![',', ' '] + (items_front(ps.drop_first()) + seq![']'])));
        lemma_written_split(t, k0, q, seq![',', ' '] + (items_front(ps.drop_first()) + seq![']']));
    }
    lemma_written_char(t, k0, q, 0);
    lemma_quoted_reads_back(t, k0, ps[0]);
    let m = k0 + q.len();
    if ps.len() == 1 {
        lemma_written_char(t, m, seq![']'], 0);
        assert(spec_skip_blanks(t, m) == m);
        assert(acc.push(ps[0]) =~= acc + ps);
    } else {
        let rest = items_front(ps.drop_first());
        lemma_written_split(t, m, seq![',', ' '], rest + seq![']']);
        lemma_written_char(t, m, seq![',', ' '], 0);
        lemma_written_char(t, m, seq![',', ' '], 1);
        assert(spec_skip_blanks(t, m) == m);
        lemma_written_char(t, m + 2, rest + seq![']'], 0);
        assert(rest[0] == '"') by {
            lemma_quoted_first(ps.drop_first()[0]);
        }
        assert(spec_skip_blanks(t, m + 2) == m + 2);
        assert(spec_skip_blanks(t, m + 1) == m + 2);
        lemma_items_read(t, m + 1, m + 2, acc.push(ps[0]), ps.drop_first());
        assert(acc.push(ps[0]) + ps.drop_first() =~= acc + ps);
    }
}

/// A path list as `serialize` writes it reads back as the same paths, and the
/// value scanner passes over it.
pub proof fn lemma_path_list_reads_back(t: Seq<char>, i: int, ps: Seq<Seq<char>>)
    requires
        written_at(t, i, seq!['['] + paths_text(ps) + seq![']']),
    ensures
        spec_path_list(t, i) == Some((ps, i + paths_text(ps).len() + 2)),
        spec_scan(t, i, 0, false) == spec_scan(t, i + paths_text(ps).len() + 2, 0, false),
{
    lemma_items_front(ps);
    let body = items_front(ps) + seq![']'];
    assert(seq!['['] + paths_text(ps) + seq![']'] =~= seq!['['] + body);
    lemma_written_split(t, i, seq!['['], body);
    lemma_written_char(t, i, seq!['['], 0);
    lemma_scan_items(t, i + 1, ps);
    if ps.len() == 0 {
        lemma_written_char(t, i + 1, body, 0);
        assert(spec_skip_blanks(t, i + 1) == i + 1);
        assert(Seq::<Seq<char>>::empty() =~= ps);
    } else {
        lemma_written_char(t, i + 1, body, 0);
        assert(items_front(ps)[0] == '"') by {
            lemma_quoted_first(ps[0]);
        }
        assert(spec_skip_blanks(t, i + 1) == i + 1);
        lemma_items_read(t, i + 1, i + 1, Seq::empty(), ps);
        assert(Seq::<Seq<char>>::empty() + ps =~= ps);
    }
}

/// The layout of a printed index node, over any text.
pub open spec fn index_layout(t: Seq<char>, o: int, name: Seq<char>, ps: Seq<Seq<char>>, b: bool, a: Attribute, q1: int, l1: int, b1: int, a1: int) -> bool {
    &&& q1 == o + 16 + quoted(name).len()
    &&& l1 == q1 + 10 + paths_text(ps).len() + 2
    &&& b1 == l1 + 11 + bool_text(b).len()
    &&& a1 == b1 + 9 + attribute_text(a).len()
    &&& t.len() == a1 + 1
    &&& t.len() <= usize::MAX
    &&& written_at(t, o + 0, "IndexNode"@)
    &&& t[o + 9] == '('
    &&& written_at(t, o + 10, "name"@ + ": "@)
    &&& written_at(t, o + 16, quoted(name))
    &&& t[q1] == ',' && t[q1 + 1] == ' '
    &&& written_at(t, q1 + 2, "frames"@ + ": "@)
    &&& written_at(t, q1 + 10, seq!['['] + paths_text(ps) + seq![']'])
    &&& t[l1] == ',' && t[l1 + 1] == ' '
    &&& written_at(t, l1 + 2, "is_loop"@ + ": "@)
    &&& written_at(t, l1 + 11, bool_text(b))
    &&& t[b1] == ',' && t[b1 + 1] == ' '
    &&& written_at(t, b1 + 2, "index"@ + ": "@)
    &&& written_at(t, b1 + 9, attribute_text(a))
    &&& t[a1] == ')'
}

pub open spec fn index_ends(n: IndexNode) -> (int, int, int, int) {
    let q1 = prefix_text(n.id).len() + 16 + quoted(n.name@).len();
    let l1 = q1 + 10 + paths_text(n.frames@.map_values(|p: String| p@)).len() + 2;
    let b1 = l1 + 11 + bool_text(n.is_loop).len();
    let a1 = b1 + 9 + attribute_text(n.index).len();
    (q1 as int, l1 as int, b1 as int, a1 as int)
}

pub open spec fn index_fields(o: int, q1: int, l1: int, b1: int, a1: int) -> Seq<FieldSpan> {
    seq![
        FieldSpan { name_start: (o + 10) as usize, name_end: (o + 14) as usize, start: (o + 16) as usize, end: q1 as usize },
        FieldSpan { name_start: (q1 + 2) as usize, name_end: (q1 + 8) as usize, start: (q1 + 10) as usize, end: l1 as usize },
        FieldSpan { name_start: (l1 + 2) as usize, name_end: (l1 + 9) as usize, start: (l1 + 11) as usize, end: b1 as usize },
        FieldSpan { name_start: (b1 + 2) as usize, name_end: (b1 + 7) as usize, start: (b1 + 9) as usize, end: a1 as usize },
    ]
}

#[verifier::rlimit(100)]
proof fn lemma_index_layout(n: IndexNode)
    requires
        index_node_text(n).len() <= usize::MAX,
    ensures
        ({
            let (q1, l1, b1, a1) = index_ends(n);
            index_layout(index_node_text(n), prefix_text(n.id).len() as int, n.name@, n.frames@.map_values(|p: String| p@), n.is_loop, n.index, q1, l1, b1, a1)
        }),
        written_at(index_node_text(n), 0, prefix_text(n.id)),
        written_at(index_node_text(n), prefix_text(n.id).len() as int, "IndexNode"@ + seq!['(']),
{
    reveal_strlit("IndexNode(name: ");
    reveal_strlit(", frames: [");
    reveal_strlit("], is_loop: ");
    reveal_strlit(", index: ");
    reveal_strlit(")");
    reveal_strlit(": ");
    reveal_strlit("IndexNode");
    reveal_strlit("name");
    reveal_strlit("frames");
    reveal_strlit("is_loop");
    reveal_strlit("index");
    let t = index_node_text(n);
    let ps = n.frames@.map_values(|p: String| p@);
    let q = quoted(n.name@);
    let l = paths_text(ps);
    let bt = bool_text(n.is_loop);
    let at = attribute_text(n.index);
    let (q1, l1, b1, a1) = index_ends(n);
    let o = prefix_text(n.id).len() as int;
    let s1 = "IndexNode"@ + seq!['('] + ("name"@ + ": "@);
    let s2 = seq![',', ' '] + ("frames"@ + ": "@) + seq!['['];
    let s3 = seq![']'] + seq![',', ' '] + ("is_loop"@ + ": "@);
    let s4 = seq![',', ' '] + ("index"@ + ": "@);
    assert("IndexNode(name: "@ =~= s1);
    assert(", frames: ["@ =~= s2);
    assert("], is_loop: "@ =~= s3);
    assert(", index: "@ =~= s4);
    assert(t =~= prefix_text(n.id) + s1 + q + s2 + l + s3 + bt + s4 + at + seq![')']);
    assert(t.subrange(o + 0, o + 9) =~= "IndexNode"@);
    assert(t.subrange(o + 10, o + 16) =~= "name"@ + ": "@);
    assert(t.subrange(o + 16, q1) =~= q);
    assert(t.subrange(q1 + 2, q1 + 10) =~= "frames"@ + ": "@);
    assert(t.subrange(q1 + 10, l1) =~= seq!['['] + l + seq![']']);
    assert(t.subrange(l1 + 2, l1 + 11) =~= "is_loop"@ + ": "@);
    assert(t.subrange(l1 + 11, b1) =~= bt);
    assert(t.subrange(b1 + 2, b1 + 9) =~= "index"@ + ": "@);
    assert(t.subrange(b1 + 9, a1) =~= at);
    assert(t.subrange(0, o) =~= prefix_text(n.id));
    assert(t.subrange(o, o + 10) =~= "IndexNode"@ + seq!['(']);
}

proof fn lemma_bool_text(t: Seq<char>, i: int, b: bool)
    requires
        written_at(t, i, bool_text(b)),
    ensures
        spec_bool(t, i) == Some((b, i + bool_text(b).len())),
        forall|j: int| 0 <= j < bool_text(b).len() ==> plain_char(#[trigger] bool_text(b)[j]),
        bool_text(b).len() > 0,
        !is_blank(bool_text(b)[0]),
        forall|j: int| 0 <= j < bool_text(b).len() ==> is_word_char(#[trigger] bool_text(b)[j]),
{
    reveal_strlit("true");
    reveal_strlit("false");
    if !b {
        assert(t.subrange(i, i + 4) != "true"@) by {
            lemma_written_char(t, i, bool_text(b), 0);
            assert(t.subrange(i, i + 4)[0] == 'f');
        }
    }
}

#[verifier::rlimit(100)]
proof fn lemma_index_body_at(t: Seq<char>, o: int, name: Seq<char>, ps: Seq<Seq<char>>, b: bool, a: Attribute, q1: int, l1: int, b1: int, a1: int)
    requires
        index_layout(t, o, name, ps, b, a, q1, l1, b1, a1),
    ensures
        spec_body(t, o + 9) == Ok::<(Seq<FieldSpan>, int), (crate::error::ParseIssue, int)>((index_fields(o, q1, l1, b1, a1), a1 + 1)),
        spec_word_end(t, o) == o + 9,
{
    reveal_strlit(": ");
    reveal_strlit("IndexNode");
    reveal_strlit("name");
    reveal_strlit("frames");
    reveal_strlit("is_loop");
    reveal_strlit("index");
    assert(": "@ =~= seq![':', ' ']);
    let q = quoted(name);
    let at = attribute_text(a);
    assert(forall|k: int| 0 <= k < "IndexNode"@.len() ==> is_word_char(#[trigger] "IndexNode"@[k]));
    lemma_word_end_at(t, o, "IndexNode"@);
    assert(spec_skip_blanks(t, o + 9) == o + 9);
    lemma_written_char(t, o + 16, q, 0);
    lemma_scan_quoted(t, o + 16, name, 0);
    assert(spec_scan(t, q1, 0, false) == q1);
    lemma_written_char(t, o + 10, "name"@ + ": "@, 0);
    assert(spec_skip_blanks(t, o + 10) == o + 10);
    assert(forall|k: int| 0 <= k < "name"@.len() ==> is_word_char(#[trigger] "name"@[k]));
    lemma_field_step(t, o + 10, o + 10, "name"@, q1, Seq::empty());
    let f = index_fields(o, q1, l1, b1, a1);
    lemma_written_char(t, q1 + 2, "frames"@ + ": "@, 0);
    assert(spec_skip_blanks(t, q1 + 2) == q1 + 2);
    assert(spec_skip_blanks(t, q1 + 1) == q1 + 2);
    lemma_written_char(t, q1 + 10, seq!['['] + paths_text(ps) + seq![']'], 0);
    lemma_path_list_reads_back(t, q1 + 10, ps);
    assert(spec_scan(t, l1, 0, false) == l1);
    assert(forall|k: int| 0 <= k < "frames"@.len() ==> is_word_char(#[trigger] "frames"@[k]));
    lemma_field_step(t, q1 + 1, q1 + 2, "frames"@, l1, seq![f[0]]);
    lemma_written_char(t, l1 + 2, "is_loop"@ + ": "@, 0);
    assert(spec_skip_blanks(t, l1 + 2) == l1 + 2);
    assert(spec_skip_blanks(t, l1 + 1) == l1 + 2);
    lemma_bool_text(t, l1 + 11, b);
    lemma_written_char(t, l1 + 11, bool_text(b), 0);
    lemma_scan_plain(t, l1 + 11, bool_text(b), 0);
    assert(spec_scan(t, b1, 0, false) == b1);
    assert(forall|k: int| 0 <= k < "is_loop"@.len() ==> is_word_char(#[trigger] "is_loop"@[k]));
    lemma_field_step(t, l1 + 1, l1 + 2, "is_loop"@, b1, seq![f[0], f[1]]);
    lemma_written_char(t, b1 + 2, "index"@ + ": "@, 0);
    assert(spec_skip_blanks(t, b1 + 2) == b1 + 2);
    assert(spec_skip_blanks(t, b1 + 1) == b1 + 2);
    lemma_attribute_first(a);
    lemma_written_char(t, b1 + 9, at, 0);
    lemma_scan_attribute(t, b1 + 9, a);
    assert(spec_scan(t, a1, 0, false) == a1);
    assert(forall|k: int| 0 <= k < "index"@.len() ==> is_word_char(#[trigger] "index"@[k]));
    lemma_field_step(t, b1 + 1, b1 + 2, "index"@, a1, seq![f[0], f[1], f[2]]);
    assert(seq![f[0]].push(f[1]) =~= seq![f[0], f[1]]);
    assert(seq![f[0], f[1]].push(f[2]) =~= seq![f[0], f[1], f[2]]);
    assert(seq![f[0], f[1], f[2]].push(f[3]) =~= f);
}

#[verifier::rlimit(100)]
proof fn lemma_index_fields_at(t: Seq<char>, o: int, name: Seq<char>, ps: Seq<Seq<char>>, b: bool, a: Attribute, q1: int, l1: int, b1: int, a1: int)
    requires
        index_layout(t, o, name, ps, b, a, q1, l1, b1, a1),
        a.well_formed(),
    ensures
        spec_index_fields(t, index_fields(o, q1, l1, b1, a1), a1 + 1) == Ok::<_, (crate::error::ParseIssue, int)>(
            (name, ps, b, a.reduced(), attr_name(a))),
{
    reveal_strlit(": ");
    reveal_strlit("name");
    reveal_strlit("frames");
    reveal_strlit("is_loop");
    reveal_strlit("index");
    let fs = index_fields(o, q1, l1, b1, a1);
    lemma_written_split(t, o + 10, "name"@, ": "@);
    lemma_written_split(t, q1 + 2, "frames"@, ": "@);
    lemma_written_split(t, l1 + 2, "is_loop"@, ": "@);
    lemma_written_split(t, b1 + 2, "index"@, ": "@);
    assert(t.subrange(o + 10, o + 14) == "name"@);
    assert(t.subrange(q1 + 2, q1 + 8) == "frames"@);
    assert(t.subrange(l1 + 2, l1 + 9) == "is_loop"@);
    assert(t.subrange(b1 + 2, b1 + 7) == "index"@);
    assert(fs.drop_last() =~= seq![fs[0], fs[1], fs[2]]);
    assert(fs.drop_last().drop_last() =~= seq![fs[0], fs[1]]);
    assert(fs.drop_last().drop_last().drop_last() =~= seq![fs[0]]);
    reveal_with_fuel(spec_field, 5);
    assert(spec_field(t, fs, "index"@) == Some(fs[3]));
    assert(spec_field(t, fs, "is_loop"@) == Some(fs[2]));
    assert(spec_field(t, fs, "frames"@) == Some(fs[1]));
    assert(spec_field(t, fs, "name"@) == Some(fs[0]));
    lemma_quoted_reads_back(t, o + 16, name);
    lemma_path_list_reads_back(t, q1 + 10, ps);
    lemma_bool_text(t, l1 + 11, b);
    lemma_attribute_reads_back(t, b1 + 9, a);
    assert(spec_skip_blanks(t, q1) == q1);
    assert(spec_skip_blanks(t, l1) == l1);
    assert(spec_skip_blanks(t, b1) == b1);
    assert(spec_skip_blanks(t, a1) == a1);
}


/// Text whose type name at `i` is `IndexNode` describes such nodes only, each
/// with the fields that the body gives.
proof fn lemma_describes_index(t: Seq<char>, i: int, node: AnimationNode, j: int)
    requires
        t.subrange(i, spec_word_end(t, i)) == "IndexNode"@,
        describes(t, i, node, j),
    ensures
        node is Index,
        spec_body(t, spec_word_end(t, i)) is Ok,
        j == spec_body(t, spec_word_end(t, i))->Ok_0.1,
        spec_index_fields(t, spec_body(t, spec_word_end(t, i))->Ok_0.0, j) == Ok::<_, (crate::error::ParseIssue, int)>(index_text(node->Index_0)),
{
    crate::loader::lemma_names_distinct();
}

/// Round trip of a index node: the text that `serialize` writes is an entry
/// whose identity prefix, if any, gives the node's identity, and whose node
/// text describes the node (without that identity); any node that it
/// describes has the same name, frames, loop flag and index key.
#[verifier::rlimit(100)]
pub proof fn lemma_index_round_trip(n: IndexNode)
    requires
        n.index.well_formed(),
        n.id matches Some(i) ==> i.well_formed() && !(i is Handle),
        index_node_text(n).len() <= usize::MAX,
    ensures
        entry_head(index_node_text(n), 0) == (prefix_text(n.id).len() as int, prefix_of(n.id)),
        describes(index_node_text(n), prefix_text(n.id).len() as int, AnimationNode::Index(IndexNode { id: None, ..n }),
            index_node_text(n).len() as int),
        forall|node: AnimationNode, j: int| describes(index_node_text(n), prefix_text(n.id).len() as int, node, j) ==>
            (node is Index && index_text(node->Index_0) == index_text(n) && j == index_node_text(n).len()),
{
    lemma_index_layout(n);
    let t = index_node_text(n);
    let o = prefix_text(n.id).len() as int;
    let ps = n.frames@.map_values(|p: String| p@);
    let (q1, l1, b1, a1) = index_ends(n);
    lemma_index_body_at(t, o, n.name@, ps, n.is_loop, n.index, q1, l1, b1, a1);
    lemma_index_fields_at(t, o, n.name@, ps, n.is_loop, n.index, q1, l1, b1, a1);
    reveal_strlit("IndexNode");
    assert(t.subrange(o, o + "IndexNode"@.len()) == "IndexNode"@);
    lemma_entry_head_prefix(t, n.id, "IndexNode"@);
    assert forall|node: AnimationNode, j: int| describes(t, o, node, j) implies
        (node is Index && index_text(node->Index_0) == index_text(n) && j == t.len()) by {
        lemma_describes_index(t, o, node, j);
    }
}

proof fn lemma_step_digit(f: nat, big: nat)
    requires
        big == 10 || big == 100 || big == 1000 || big == 10000 || big == 100000,
    ensures
        f / (big / 10) == (f / big) * 10 + (f / (big / 10)) % 10,
{
    let small = big / 10;
    assert(small * 10 == big);
    vstd::arithmetic::div_mod::lemma_div_denominator(f as int, small as int, 10);
    vstd::arithmetic::div_mod::lemma_fundamental_div_mod((f / small) as int, 10);
}

/// Six decimals as `six_digits` writes them stand for the number.
proof fn lemma_six_digits(f: nat)
    requires
        f < 1000000,
    ensures
        digits_value(six_digits(f)) == f,
        all_digits(six_digits(f)),
        six_digits(f).len() == 6,
{
    let s = six_digits(f);
    lemma_digit_char((f / 100000) % 10);
    lemma_digit_char((f / 10000) % 10);
    lemma_digit_char((f / 1000) % 10);
    lemma_digit_char((f / 100) % 10);
    lemma_digit_char((f / 10) % 10);
    lemma_digit_char(f % 10);
    assert(s.drop_last().drop_last().drop_last().drop_last().drop_last().drop_last() =~= Seq::<char>::empty());
    reveal_with_fuel(digits_value, 7);
    assert(f / 100000 < 10);
    assert((f / 100000) % 10 == f / 100000);
    lemma_step_digit(f, 100000);
    lemma_step_digit(f, 10000);
    lemma_step_digit(f, 1000);
    lemma_step_digit(f, 100);
    lemma_step_digit(f, 10);
    assert(s.drop_last() =~= seq![s[0], s[1], s[2], s[3], s[4]]);
    assert(s.drop_last().drop_last() =~= seq![s[0], s[1], s[2], s[3]]);
    assert(s.drop_last().drop_last().drop_last() =~= seq![s[0], s[1], s[2]]);
    assert(s.drop_last().drop_last().drop_last().drop_last() =~= seq![s[0], s[1]]);
    assert(s.drop_last().drop_last().drop_last().drop_last().drop_last() =~= seq![s[0]]);
    assert(digits_value(seq![s[0]]) == f / 100000);
    assert(digits_value(seq![s[0], s[1]]) == f / 10000);
    assert(digits_value(seq![s[0], s[1], s[2]]) == f / 1000);
    assert(digits_value(seq![s[0], s[1], s[2], s[3]]) == f / 100);
    assert(digits_value(seq![s[0], s[1], s[2], s[3], s[4]]) == f / 10);
    assert(f / 1 == f);
    lemma_step_digit(f, 10);
}

/// A time as `seconds_text` writes it reads back as the same time, where no
/// digit follows it.
pub proof fn lemma_seconds_reads_back(t: Seq<char>, i: int, us: u64)
    requires
        written_at(t, i, seconds_text(us as nat)),
        i + seconds_text(us as nat).len() == t.len() || !is_digit(t[i + seconds_text(us as nat).len()]),
    ensures
        spec_seconds(t, i) == Some((us as nat, i + seconds_text(us as nat).len())),
        forall|j: int| 0 <= j < seconds_text(us as nat).len() ==> plain_char(#[trigger] seconds_text(us as nat)[j]),
        !is_blank(seconds_text(us as nat)[0]),
{
    let w = decimal(us as nat / 1000000);
    let f = us as nat % 1000000;
    let six = six_digits(f);
    lemma_six_digits(f);
    lemma_decimal(us as nat / 1000000);
    assert(seconds_text(us as nat) == w + seq!['.'] + six);
    lemma_written_split(t, i, w + seq!['.'], six);
    lemma_written_split(t, i, w, seq!['.']);
    lemma_written_char(t, i + w.len(), seq!['.'], 0);
    lemma_decimal_reads_back(t, i, us as nat / 1000000);
    let m = i + w.len();
    lemma_digits_end_at(t, m + 1, six);
    assert(t.subrange(m + 1, m + 7) == six);
    assert(pow10(0) == 1);
    assert((us as nat / 1000000) * 1000000 + f == us) by {
        vstd::arithmetic::div_mod::lemma_fundamental_div_mod(us as int, 1000000);
    }
    assert(spec_uint(t, i) == Some((us as nat / 1000000, m)));
    assert(t[m] == '.');
    assert(spec_digits_end(t, m + 1) == m + 7);
    assert(digits_value(t.subrange(m + 1, m + 7)) == f);
    let places = (m + 7) - (m + 1);
    assert(places == 6);
    assert(pow10((6 - places) as nat) == 1);
    assert(digits_value(t.subrange(m + 1, m + 7)) * pow10((6 - places) as nat) == f);
    assert((us as nat / 1000000) * 1000000 + digits_value(t.subrange(m + 1, m + 7)) * pow10((6 - places) as nat) == us);
    assert(spec_seconds_any(t, i) == Some((us as nat, m + 7)));
    lemma_decimal_plain(us as nat / 1000000);
    assert forall|j: int| 0 <= j < seconds_text(us as nat).len() implies plain_char(#[trigger] seconds_text(us as nat)[j]) by {
        if j < w.len() {
            assert(seconds_text(us as nat)[j] == w[j]);
        } else if j > w.len() {
            assert(seconds_text(us as nat)[j] == six[j - w.len() - 1]);
            assert(is_digit(six[j - w.len() - 1]));
        }
    }
    assert(is_digit(w[0]));
}

pub open spec fn timed_item(p: (Seq<char>, nat)) -> Seq<char> {
    "("@ + quoted(p.0) + ", "@ + seconds_text(p.1) + ")"@
}

/// The items of a list of timed frames, built from the front.
pub open spec fn timed_front(ps: Seq<(Seq<char>, nat)>) -> Seq<char>
    decreases ps.len(),
{
    if ps.len() == 0 {
        Seq::empty()
    } else if ps.len() == 1 {
        timed_item(ps[0])
    } else {
        timed_item(ps[0]) + ", "@ + timed_front(ps.drop_first())
    }
}

proof fn lemma_timed_front(ps: Seq<(Seq<char>, nat)>)
    ensures
        timed_text(ps) == timed_front(ps),
    decreases ps.len(),
{
    if ps.len() > 2 {
        let dl = ps.drop_last();
        let df = ps.drop_first();
        lemma_timed_front(dl);
        lemma_timed_front(df);
        lemma_timed_front(df.drop_last());
        assert(dl.drop_first() =~= df.drop_last());
        assert(df.last() == ps.last());
        assert(dl[0] == ps[0]);
        assert(timed_text(df) == timed_text(df.drop_last()) + ", "@ + timed_item(df.last()));
        assert(timed_front(dl) == timed_item(dl[0]) + ", "@ + timed_front(dl.drop_first()));
        assert(timed_front(ps) == timed_item(ps[0]) + ", "@ + timed_front(df));
        assert(timed_text(ps) == timed_text(dl) + ", "@ + timed_item(ps.last()));
        assert(timed_front(ps) =~= timed_text(ps));
    } else if ps.len() == 2 {
        assert(ps.drop_last() =~= seq![ps[0]]);
        assert(ps.drop_first() =~= seq![ps[1]]);
        assert(timed_text(ps.drop_last()) == timed_item(ps[0]));
        assert(timed_front(ps.drop_first()) == timed_item(ps[1]));
    } else if ps.len() == 1 {
        assert(timed_text(ps) == timed_item(ps[0]));
    }
}

/// Where the parts of one timed item stand, from `k` on.
proof fn lemma_timed_item_parts(t: Seq<char>, k: int, p: (Seq<char>, nat), tail: Seq<char>)
    requires
        written_at(t, k, timed_item(p) + tail),
    ensures
        t[k] == '(',
        written_at(t, k + 1, quoted(p.0)),
        t[k + 1 + quoted(p.0).len()] == ',',
        t[k + 2 + quoted(p.0).len()] == ' ',
        written_at(t, k + 3 + quoted(p.0).len(), seconds_text(p.1)),
        t[k + 3 + quoted(p.0).len() + seconds_text(p.1).len()] == ')',
        timed_item(p).len() == quoted(p.0).len() + seconds_text(p.1).len() + 4,
        written_at(t, k + timed_item(p).len(), tail),
{
    reveal_strlit("(");
    reveal_strlit(", ");
    reveal_strlit(")");
    let q = quoted(p.0);
    let sec = seconds_text(p.1);
    assert(timed_item(p) + tail =~= seq!['('] + (q + (seq![',', ' '] + (sec + (seq![')'] + tail)))));
    lemma_written_split(t, k, seq!['('], q + (seq![',', ' '] + (sec + (seq![')'] + tail))));
    lemma_written_split(t, k + 1, q, seq![',', ' '] + (sec + (seq![')'] + tail)));
    lemma_written_split(t, k + 1 + q.len(), seq![',', ' '], sec + (seq![')'] + tail));
    lemma_written_split(t, k + 3 + q.len(), sec, seq![')'] + tail);
    lemma_written_split(t, k + 3 + q.len() + sec.len(), seq![')'], tail);
    lemma_written_char(t, k, seq!['('], 0);
    lemma_written_char(t, k + 1 + q.len(), seq![',', ' '], 0);
    lemma_written_char(t, k + 1 + q.len(), seq![',', ' '], 1);
    lemma_written_char(t, k + 3 + q.len() + sec.len(), seq![')'], 0);
}

/// The value scanner passes over the items of a timed list and its `]`.
proof fn lemma_scan_timed(t: Seq<char>, k: int, ps: Seq<(Seq<char>, nat)>)
    requires
        written_at(t, k, timed_front(ps) + seq![']']),
        forall|j: int| 0 <= j < ps.len() ==> (#[trigger] ps[j]).1 <= u64::MAX,
    ensures
        spec_scan(t, k, 1, false) == spec_scan(t, k + timed_front(ps).len() + 1, 0, false),
    decreases ps.len(),
{
    reveal_strlit(", ");
    if ps.len() == 0 {
        assert(timed_front(ps) + seq![']'] =~= seq![']']);
        lemma_written_char(t, k, timed_front(ps) + seq![']'], 0);
    } else {
        let p = ps[0];
        let tail = if ps.len() == 1 { seq![']'] } else { seq![',', ' '] + (timed_front(ps.drop_first()) + seq![']']) };
        assert(timed_front(ps) + seq![']'] =~= timed_item(p) + tail);
        lemma_timed_item_parts(t, k, p, tail);
        let q = quoted(p.0);
        let sec = seconds_text(p.1);
        lemma_scan_quoted(t, k + 1, p.0, 2);
        lemma_seconds_reads_back(t, k + 3 + q.len(), p.1 as u64);
        lemma_scan_plain(t, k + 3 + q.len(), sec, 2);
        let e = k + timed_item(p).len();
        assert(spec_scan(t, k, 1, false) == spec_scan(t, k + 1, 2, false));
        assert(spec_scan(t, k + 2 + q.len(), 2, false) == spec_scan(t, k + 3 + q.len(), 2, false));
        assert(spec_scan(t, k + 1 + q.len(), 2, false) == spec_scan(t, k + 2 + q.len(), 2, false));
        assert(spec_scan(t, k + 3 + q.len() + sec.len(), 2, false) == spec_scan(t, e, 1, false));
        if ps.len() == 1 {
            lemma_written_char(t, e, tail, 0);
            assert(timed_front(ps) == timed_item(p));
            assert(spec_scan(t, e, 1, false) == spec_scan(t, e + 1, 0, false));
        } else {
            lemma_written_split(t, e, seq![',', ' '], timed_front(ps.drop_first()) + seq![']']);
            lemma_written_char(t, e, seq![',', ' '], 0);
            lemma_written_char(t, e, seq![',', ' '], 1);
            assert forall|j: int| 0 <= j < ps.drop_first().len() implies (#[trigger] ps.drop_first()[j]).1 <= u64::MAX by {
                assert(ps.drop_first()[j] == ps[j + 1]);
            }
            lemma_scan_timed(t, e + 2, ps.drop_first());
            assert(timed_front(ps) == timed_item(p) + ", "@ + timed_front(ps.drop_first()));
            assert(spec_scan(t, e, 1, false) == spec_scan(t, e + 1, 1, false));
            assert(spec_scan(t, e + 1, 1, false) == spec_scan(t, e + 2, 1, false));
        }
    }
}

/// The items of a timed list read back, from `k` (blanks before them allowed).
proof fn lemma_timed_read(t: Seq<char>, k: int, k0: int, acc: Seq<(Seq<char>, nat)>, ps: Seq<(Seq<char>, nat)>)
    requires
        0 <= k <= k0,
        spec_skip_blanks(t, k) == k0,
        ps.len() > 0,
        written_at(t, k0, timed_front(ps) + seq![']']),
        forall|j: int| 0 <= j < ps.len() ==> (#[trigger] ps[j]).1 <= u64::MAX,
    ensures
        spec_timed_items(t, k, acc) == Some((acc + ps, k0 + timed_front(ps).len() + 1)),
    decreases ps.len(),
{
    reveal_strlit(", ");
    let p = ps[0];
    let tail = if ps.len() == 1 { seq![']'] } else { seq![',', ' '] + (timed_front(ps.drop_first()) + seq![']']) };
    assert(timed_front(ps) + seq![']'] =~= timed_item(p) + tail);
    lemma_timed_item_parts(t, k0, p, tail);
    let q = quoted(p.0);
    let sec = seconds_text(p.1);
    lemma_quoted_first(p.0);
    lemma_written_char(t, k0 + 1, q, 0);
    assert(spec_skip_blanks(t, k0 + 1) == k0 + 1);
    lemma_quoted_reads_back(t, k0 + 1, p.0);
    let m = k0 + 1 + q.len();
    assert(spec_skip_blanks(t, m) == m);
    lemma_seconds_reads_back(t, m + 2, p.1 as u64);
    assert(spec_skip_blanks(t, m + 2) == m + 2);
    assert(spec_skip_blanks(t, m + 1) == m + 2);
    let n = m + 2 + sec.len();
    assert(spec_skip_blanks(t, n) == n);
    let e = k0 + timed_item(p).len();
    assert(e == n + 1);
    if ps.len() == 1 {
        lemma_written_char(t, e, tail, 0);
        assert(spec_skip_blanks(t, e) == e);
        assert(acc.push(p) =~= acc + ps);
    } else {
        let rest = timed_front(ps.drop_first());
        lemma_written_split(t, e, seq![',', ' '], rest + seq![']']);
        lemma_written_char(t, e, seq![',', ' '], 0);
        lemma_written_char(t, e, seq![',', ' '], 1);
        assert(spec_skip_blanks(t, e) == e);
        lemma_written_char(t, e + 2, rest + seq![']'], 0);
        assert(rest[0] == '(') by {
            reveal_strlit("(");
            if ps.drop_first().len() == 1 {
                assert(rest == timed_item(ps.drop_first()[0]));
            } else {
                assert(rest == timed_item(ps.drop_first()[0]) + ", "@ + timed_front(ps.drop_first().drop_first()));
            }
        }
        assert(spec_skip_blanks(t, e + 2) == e + 2);
        assert(spec_skip_blanks(t, e + 1) == e + 2);
        assert forall|j: int| 0 <= j < ps.drop_first().len() implies (#[trigger] ps.drop_first()[j]).1 <= u64::MAX by {
            assert(ps.drop_first()[j] == ps[j + 1]);
        }
        lemma_timed_read(t, e + 1, e + 2, acc.push(p), ps.drop_first());
        assert(acc.push(p) + ps.drop_first() =~= acc + ps);
    }
}

/// A timed list as `serialize` writes it reads back as the same frames and
/// times, and the value scanner passes over it.
pub proof fn lemma_timed_list_reads_back(t: Seq<char>, i: int, ps: Seq<(Seq<char>, nat)>)
    requires
        written_at(t, i, seq!['['] + timed_text(ps) + seq![']']),
        forall|j: int| 0 <= j < ps.len() ==> (#[trigger] ps[j]).1 <= u64::MAX,
    ensures
        spec_timed_list(t, i) == Some((ps, i + timed_text(ps).len() + 2)),
        spec_scan(t, i, 0, false) == spec_scan(t, i + timed_text(ps).len() + 2, 0, false),
{
    lemma_timed_front(ps);
    let body = timed_front(ps) + seq![']'];
    assert(seq!['['] + timed_text(ps) + seq![']'] =~= seq!['['] + body);
    lemma_written_split(t, i, seq!['['], body);
    lemma_written_char(t, i, seq!['['], 0);
    lemma_scan_timed(t, i + 1, ps);
    lemma_written_char(t, i + 1, body, 0);
    if ps.len() == 0 {
        assert(spec_skip_blanks(t, i + 1) == i + 1);
        assert(Seq::<(Seq<char>, nat)>::empty() =~= ps);
    } else {
        assert(timed_front(ps)[0] == '(') by {
            reveal_strlit("(");
            if ps.len() == 1 {
                assert(timed_front(ps) == timed_item(ps[0]));
            } else {
                assert(timed_front(ps) == timed_item(ps[0]) + ", "@ + timed_front(ps.drop_first()));
            }
        }
        assert(spec_skip_blanks(t, i + 1) == i + 1);
        lemma_timed_read(t, i + 1, i + 1, Seq::empty(), ps);
        assert(Seq::<(Seq<char>, nat)>::empty() + ps =~= ps);
    }
}

/// The layout of a printed variable node, over any text.
pub open spec fn variable_layout(t: Seq<char>, o: int, name: Seq<char>, ps: Seq<(Seq<char>, nat)>, b: bool, a: Attribute, q1: int, l1: int, b1: int, a1: int) -> bool {
    &&& q1 == o + 19 + quoted(name).len()
    &&& l1 == q1 + 10 + timed_text(ps).len() + 2
    &&& b1 == l1 + 11 + bool_text(b).len()
    &&& a1 == b1 + 9 + attribute_text(a).len()
    &&& t.len() == a1 + 1
    &&& t.len() <= usize::MAX
    &&& written_at(t, o + 0, "VariableNode"@)
    &&& t[o + 12] == '('
    &&& written_at(t, o + 13, "name"@ + ": "@)
    &&& written_at(t, o + 19, quoted(name))
    &&& t[q1] == ',' && t[q1 + 1] == ' '
    &&& written_at(t, q1 + 2, "frames"@ + ": "@)
    &&& written_at(t, q1 + 10, seq!['['] + timed_text(ps) + seq![']'])
    &&& t[l1] == ',' && t[l1 + 1] == ' '
    &&& written_at(t, l1 + 2, "is_loop"@ + ": "@)
    &&& written_at(t, l1 + 11, bool_text(b))
    &&& t[b1] == ',' && t[b1 + 1] == ' '
    &&& written_at(t, b1 + 2, "index"@ + ": "@)
    &&& written_at(t, b1 + 9, attribute_text(a))
    &&& t[a1] == ')'
}

pub open spec fn variable_ends(n: VariableNode) -> (int, int, int, int) {
    let q1 = prefix_text(n.id).len() + 19 + quoted(n.name@).len();
    let l1 = q1 + 10 + timed_text(n.frames@.map_values(|p: (String, u64)| (p.0@, p.1 as nat))).len() + 2;
    let b1 = l1 + 11 + bool_text(n.is_loop).len();
    let a1 = b1 + 9 + attribute_text(n.index).len();
    (q1 as int, l1 as int, b1 as int, a1 as int)
}

pub open spec fn variable_fields_spans(o: int, q1: int, l1: int, b1: int, a1: int) -> Seq<FieldSpan> {
    seq![
        FieldSpan { name_start: (o + 13) as usize, name_end: (o + 17) as usize, start: (o + 19) as usize, end: q1 as usize },
        FieldSpan { name_start: (q1 + 2) as usize, name_end: (q1 + 8) as usize, start: (q1 + 10) as usize, end: l1 as usize },
        FieldSpan { name_start: (l1 + 2) as usize, name_end: (l1 + 9) as usize, start: (l1 + 11) as usize, end: b1 as usize },
        FieldSpan { name_start: (b1 + 2) as usize, name_end: (b1 + 7) as usize, start: (b1 + 9) as usize, end: a1 as usize },
    ]
}

#[verifier::rlimit(100)]
proof fn lemma_variable_layout(n: VariableNode)
    requires
        variable_node_text(n).len() <= usize::MAX,
    ensures
        ({
            let (q1, l1, b1, a1) = variable_ends(n);
            variable_layout(variable_node_text(n), prefix_text(n.id).len() as int, n.name@, n.frames@.map_values(|p: (String, u64)| (p.0@, p.1 as nat)), n.is_loop, n.index, q1, l1, b1, a1)
        }),
        written_at(variable_node_text(n), 0, prefix_text(n.id)),
        written_at(variable_node_text(n), prefix_text(n.id).len() as int, "VariableNode"@ + seq!['(']),
{
    reveal_strlit("VariableNode(name: ");
    reveal_strlit(", frames: [");
    reveal_strlit("], is_loop: ");
    reveal_strlit(", index: ");
    reveal_strlit(")");
    reveal_strlit(": ");
    reveal_strlit("VariableNode");
    reveal_strlit("name");
    reveal_strlit("frames");
    reveal_strlit("is_loop");
    reveal_strlit("index");
    let t = variable_node_text(n);
    let ps = n.frames@.map_values(|p: (String, u64)| (p.0@, p.1 as nat));
    let q = quoted(n.name@);
    let l = timed_text(ps);
    let bt = bool_text(n.is_loop);
    let at = attribute_text(n.index);
    let (q1, l1, b1, a1) = variable_ends(n);
    let o = prefix_text(n.id).len() as int;
    let s1 = "VariableNode"@ + seq!['('] + ("name"@ + ": "@);
    let s2 = seq![',', ' '] + ("frames"@ + ": "@) + seq!['['];
    let s3 = seq![']'] + seq![',', ' '] + ("is_loop"@ + ": "@);
    let s4 = seq![',', ' '] + ("index"@ + ": "@);
    assert("VariableNode(name: "@ =~= s1);
    assert(", frames: ["@ =~= s2);
    assert("], is_loop: "@ =~= s3);
    assert(", index: "@ =~= s4);
    assert(t =~= prefix_text(n.id) + s1 + q + s2 + l + s3 + bt + s4 + at + seq![')']);
    assert(t.subrange(o + 0, o + 12) =~= "VariableNode"@);
    assert(t.subrange(o + 13, o + 19) =~= "name"@ + ": "@);
    assert(t.subrange(o + 19, q1) =~= q);
    assert(t.subrange(q1 + 2, q1 + 10) =~= "frames"@ + ": "@);
    assert(t.subrange(q1 + 10, l1) =~= seq!['['] + l + seq![']']);
    assert(t.subrange(l1 + 2, l1 + 11) =~= "is_loop"@ + ": "@);
    assert(t.subrange(l1 + 11, b1) =~= bt);
    assert(t.subrange(b1 + 2, b1 + 9) =~= "index"@ + ": "@);
    assert(t.subrange(b1 + 9, a1) =~= at);
    assert(t.subrange(0, o) =~= prefix_text(n.id));
    assert(t.subrange(o, o + 13) =~= "VariableNode"@ + seq!['(']);
}

#[verifier::rlimit(100)]
proof fn lemma_variable_body_at(t: Seq<char>, o: int, name: Seq<char>, ps: Seq<(Seq<char>, nat)>, b: bool, a: Attribute, q1: int, l1: int, b1: int, a1: int)
    requires
        variable_layout(t, o, name, ps, b, a, q1, l1, b1, a1),
        forall|j: int| 0 <= j < ps.len() ==> (#[trigger] ps[j]).1 <= u64::MAX,
    ensures
        spec_body(t, o + 12) == Ok::<(Seq<FieldSpan>, int), (crate::error::ParseIssue, int)>((variable_fields_spans(o, q1, l1, b1, a1), a1 + 1)),
        spec_word_end(t, o) == o + 12,
{
    reveal_strlit(": ");
    reveal_strlit("VariableNode");
    reveal_strlit("name");
    reveal_strlit("frames");
    reveal_strlit("is_loop");
    reveal_strlit("index");
    assert(": "@ =~= seq![':', ' ']);
    let q = quoted(name);
    let at = attribute_text(a);
    assert(forall|k: int| 0 <= k < "VariableNode"@.len() ==> is_word_char(#[trigger] "VariableNode"@[k]));
    lemma_word_end_at(t, o, "VariableNode"@);
    assert(spec_skip_blanks(t, o + 12) == o + 12);
    lemma_written_char(t, o + 19, q, 0);
    lemma_scan_quoted(t, o + 19, name, 0);
    assert(spec_scan(t, q1, 0, false) == q1);
    lemma_written_char(t, o + 13, "name"@ + ": "@, 0);
    assert(spec_skip_blanks(t, o + 13) == o + 13);
    assert(forall|k: int| 0 <= k < "name"@.len() ==> is_word_char(#[trigger] "name"@[k]));
    lemma_field_step(t, o + 13, o + 13, "name"@, q1, Seq::empty());
    let f = variable_fields_spans(o, q1, l1, b1, a1);
    lemma_written_char(t, q1 + 2, "frames"@ + ": "@, 0);
    assert(spec_skip_blanks(t, q1 + 2) == q1 + 2);
    assert(spec_skip_blanks(t, q1 + 1) == q1 + 2);
    lemma_written_char(t, q1 + 10, seq!['['] + timed_text(ps) + seq![']'], 0);
    lemma_timed_list_reads_back(t, q1 + 10, ps);
    assert(spec_scan(t, l1, 0, false) == l1);
    assert(forall|k: int| 0 <= k < "frames"@.len() ==> is_word_char(#[trigger] "frames"@[k]));
    lemma_field_step(t, q1 + 1, q1 + 2, "frames"@, l1, seq![f[0]]);
    lemma_written_char(t, l1 + 2, "is_loop"@ + ": "@, 0);
    assert(spec_skip_blanks(t, l1 + 2) == l1 + 2);
    assert(spec_skip_blanks(t, l1 + 1) == l1 + 2);
    lemma_bool_text(t, l1 + 11, b);
    lemma_written_char(t, l1 + 11, bool_text(b), 0);
    lemma_scan_plain(t, l1 + 11, bool_text(b), 0);
    assert(spec_scan(t, b1, 0, false) == b1);
    assert(forall|k: int| 0 <= k < "is_loop"@.len() ==> is_word_char(#[trigger] "is_loop"@[k]));
    lemma_field_step(t, l1 + 1, l1 + 2, "is_loop"@, b1, seq![f[0], f[1]]);
    lemma_written_char(t, b1 + 2, "index"@ + ": "@, 0);
    assert(spec_skip_blanks(t, b1 + 2) == b1 + 2);
    assert(spec_skip_blanks(t, b1 + 1) == b1 + 2);
    lemma_attribute_first(a);
    lemma_written_char(t, b1 + 9, at, 0);
    lemma_scan_attribute(t, b1 + 9, a);
    assert(spec_scan(t, a1, 0, false) == a1);
    assert(forall|k: int| 0 <= k < "index"@.len() ==> is_word_char(#[trigger] "index"@[k]));
    lemma_field_step(t, b1 + 1, b1 + 2, "index"@, a1, seq![f[0], f[1], f[2]]);
    assert(seq![f[0]].push(f[1]) =~= seq![f[0], f[1]]);
    assert(seq![f[0], f[1]].push(f[2]) =~= seq![f[0], f[1], f[2]]);
    assert(seq![f[0], f[1], f[2]].push(f[3]) =~= f);
}

#[verifier::rlimit(100)]
proof fn lemma_variable_fields_at(t: Seq<char>, o: int, name: Seq<char>, ps: Seq<(Seq<char>, nat)>, b: bool, a: Attribute, q1: int, l1: int, b1: int, a1: int)
    requires
        variable_layout(t, o, name, ps, b, a, q1, l1, b1, a1),
        a.well_formed(),
        forall|j: int| 0 <= j < ps.len() ==> (#[trigger] ps[j]).1 <= u64::MAX,
    ensures
        spec_variable_fields(t, variable_fields_spans(o, q1, l1, b1, a1), a1 + 1) == Ok::<_, (crate::error::ParseIssue, int)>(
            (name, ps, b, a.reduced(), attr_name(a))),
{
    reveal_strlit(": ");
    reveal_strlit("name");
    reveal_strlit("frames");
    reveal_strlit("is_loop");
    reveal_strlit("index");
    let fs = variable_fields_spans(o, q1, l1, b1, a1);
    lemma_written_split(t, o + 13, "name"@, ": "@);
    lemma_written_split(t, q1 + 2, "frames"@, ": "@);
    lemma_written_split(t, l1 + 2, "is_loop"@, ": "@);
    lemma_written_split(t, b1 + 2, "index"@, ": "@);
    assert(t.subrange(o + 13, o + 17) == "name"@);
    assert(t.subrange(q1 + 2, q1 + 8) == "frames"@);
    assert(t.subrange(l1 + 2, l1 + 9) == "is_loop"@);
    assert(t.subrange(b1 + 2, b1 + 7) == "index"@);
    assert(fs.drop_last() =~= seq![fs[0], fs[1], fs[2]]);
    assert(fs.drop_last().drop_last() =~= seq![fs[0], fs[1]]);
    assert(fs.drop_last().drop_last().drop_last() =~= seq![fs[0]]);
    reveal_with_fuel(spec_field, 5);
    assert(spec_field(t, fs, "index"@) == Some(fs[3]));
    assert(spec_field(t, fs, "is_loop"@) == Some(fs[2]));
    assert(spec_field(t, fs, "frames"@) == Some(fs[1]));
    assert(spec_field(t, fs, "name"@) == Some(fs[0]));
    lemma_quoted_reads_back(t, o + 19, name);
    lemma_timed_list_reads_back(t, q1 + 10, ps);
    lemma_bool_text(t, l1 + 11, b);
    lemma_attribute_reads_back(t, b1 + 9, a);
    assert(spec_skip_blanks(t, q1) == q1);
    assert(spec_skip_blanks(t, l1) == l1);
    assert(spec_skip_blanks(t, b1) == b1);
    assert(spec_skip_blanks(t, a1) == a1);
}


/// Text whose type name at `i` is `VariableNode` describes such nodes only, each
/// with the fields that the body gives.
proof fn lemma_describes_variable(t: Seq<char>, i: int, node: AnimationNode, j: int)
    requires
        t.subrange(i, spec_word_end(t, i)) == "VariableNode"@,
        describes(t, i, node, j),
    ensures
        node is Variable,
        spec_body(t, spec_word_end(t, i)) is Ok,
        j == spec_body(t, spec_word_end(t, i))->Ok_0.1,
        spec_variable_fields(t, spec_body(t, spec_word_end(t, i))->Ok_0.0, j) == Ok::<_, (crate::error::ParseIssue, int)>(variable_text(node->Variable_0)),
{
    crate::loader::lemma_names_distinct();
}

/// Round trip of a node with frames of their own lengths: the text that `serialize` writes is an entry
/// whose identity prefix, if any, gives the node's identity, and whose node
/// text describes the node (without that identity); any node that it
/// describes has the same name, frames with their lengths, loop flag and index key.
#[verifier::rlimit(100)]
pub proof fn lemma_variable_round_trip(n: VariableNode)
    requires
        n.index.well_formed(),
        n.id matches Some(i) ==> i.well_formed() && !(i is Handle),
        variable_node_text(n).len() <= usize::MAX,
    ensures
        entry_head(variable_node_text(n), 0) == (prefix_text(n.id).len() as int, prefix_of(n.id)),
        describes(variable_node_text(n), prefix_text(n.id).len() as int, AnimationNode::Variable(VariableNode { id: None, ..n }),
            variable_node_text(n).len() as int),
        forall|node: AnimationNode, j: int| describes(variable_node_text(n), prefix_text(n.id).len() as int, node, j) ==>
            (node is Variable && variable_text(node->Variable_0) == variable_text(n) && j == variable_node_text(n).len()),
{
    lemma_variable_layout(n);
    let t = variable_node_text(n);
    let o = prefix_text(n.id).len() as int;
    let ps = n.frames@.map_values(|p: (String, u64)| (p.0@, p.1 as nat));
    assert forall|j: int| 0 <= j < ps.len() implies (#[trigger] ps[j]).1 <= u64::MAX by {
        assert(ps[j] == (n.frames@[j].0@, n.frames@[j].1 as nat));
    }
    let (q1, l1, b1, a1) = variable_ends(n);
    lemma_variable_body_at(t, o, n.name@, ps, n.is_loop, n.index, q1, l1, b1, a1);
    lemma_variable_fields_at(t, o, n.name@, ps, n.is_loop, n.index, q1, l1, b1, a1);
    reveal_strlit("VariableNode");
    assert(t.subrange(o, o + "VariableNode"@.len()) == "VariableNode"@);
    lemma_entry_head_prefix(t, n.id, "VariableNode"@);
    assert forall|node: AnimationNode, j: int| describes(t, o, node, j) implies
        (node is Variable && variable_text(node->Variable_0) == variable_text(n) && j == t.len()) by {
        lemma_describes_variable(t, o, node, j);
    }
}




/// Loading back a written FPSNode: a node file that holds the text that
/// `serialize` writes has one entry, and it loads; whatever the loader gives
/// for it has the node's fields, and the node's identity where it had one.
#[verifier::rlimit(100)]
pub proof fn lemma_fps_file_round_trip(n: FPSNode)
    requires
        n.next.well_formed(),
        n.id matches Some(i) ==> i.well_formed() && !(i is Handle),
        fps_node_text(n).len() <= usize::MAX,
    ensures
        spec_file_entries(fps_node_text(n), false) == Some(seq![EntryOutcome::Loaded(0)]),
        forall|e: (NodeId, AnimationNode)| entry_loaded(fps_node_text(n), 0, e) ==> {
            &&& e.1 is Fps
            &&& fps_text(e.1->Fps_0) == fps_text(n)
            &&& match n.id {
                Some(i) => e.0.reduced() == i.reduced() && e.1->Fps_0.id == Some(e.0),
                None => e.1->Fps_0.id is None && e.0 == e.1.spec_id(),
            }
        },
{
    let t = fps_node_text(n);
    let o = prefix_text(n.id).len() as int;
    lemma_fps_round_trip(n);
    lemma_fps_layout(n);
    let bare = AnimationNode::Fps(FPSNode { id: None, ..n });
    crate::loader::lemma_entry_end(t, 0, bare, t.len() as int);
    match n.id {
        Some(i) => {
            assert(prefix_text(n.id) == node_id_text(i) + ": "@);
            lemma_node_id_first(i);
            lemma_written_split(t, 0, node_id_text(i), ": "@);
            lemma_written_char(t, 0, node_id_text(i), 0);
        },
        None => {
            assert(o == 0);
            lemma_written_char(t, 0, "FPSNode"@ + seq!['('], 0);
            reveal_strlit("FPSNode");
        },
    }
    assert(spec_skip_blanks(t, 0) == 0);
    assert(spec_skip_blanks(t, t.len() as int) == t.len());
    assert(spec_entries(t, 0, false) == Some((seq![EntryOutcome::Loaded(0)], t.len() as int)));
    assert forall|e: (NodeId, AnimationNode)| entry_loaded(t, 0, e) implies {
        &&& e.1 is Fps
        &&& fps_text(e.1->Fps_0) == fps_text(n)
        &&& match n.id {
            Some(i) => e.0.reduced() == i.reduced() && e.1->Fps_0.id == Some(e.0),
            None => e.1->Fps_0.id is None && e.0 == e.1.spec_id(),
        }
    } by {
        if n.id is Some {
            let m = choose|m: AnimationNode| describes(t, o, m, t.len() as int) && crate::nodes::id_set(m, e.1, e.0);
            assert(describes(t, o, m, t.len() as int));
        }
    }
}

/// Loading back a written ScaleNode: a node file that holds the text that
/// `serialize` writes has one entry, and it loads; whatever the loader gives
/// for it has the node's fields, and the node's identity where it had one.
#[verifier::rlimit(100)]
pub proof fn lemma_scale_file_round_trip(n: ScaleNode)
    requires
        n.scale.well_formed(),
        n.next.well_formed(),
        n.id matches Some(i) ==> i.well_formed() && !(i is Handle),
        scale_node_text(n).len() <= usize::MAX,
    ensures
        spec_file_entries(scale_node_text(n), false) == Some(seq![EntryOutcome::Loaded(0)]),
        forall|e: (NodeId, AnimationNode)| entry_loaded(scale_node_text(n), 0, e) ==> {
            &&& e.1 is Scale
            &&& scale_text(e.1->Scale_0) == scale_text(n)
            &&& match n.id {
                Some(i) => e.0.reduced() == i.reduced() && e.1->Scale_0.id == Some(e.0),
                None => e.1->Scale_0.id is None && e.0 == e.1.spec_id(),
            }
        },
{
    let t = scale_node_text(n);
    let o = prefix_text(n.id).len() as int;
    lemma_scale_round_trip(n);
    lemma_scale_layout(n);
    let bare = AnimationNode::Scale(ScaleNode { id: None, ..n });
    crate::loader::lemma_entry_end(t, 0, bare, t.len() as int);
    match n.id {
        Some(i) => {
            assert(prefix_text(n.id) == node_id_text(i) + ": "@);
            lemma_node_id_first(i);
            lemma_written_split(t, 0, node_id_text(i), ": "@);
            lemma_written_char(t, 0, node_id_text(i), 0);
        },
        None => {
            assert(o == 0);
            lemma_written_char(t, 0, "ScaleNode"@ + seq!['('], 0);
            reveal_strlit("ScaleNode");
        },
    }
    assert(spec_skip_blanks(t, 0) == 0);
    assert(spec_skip_blanks(t, t.len() as int) == t.len());
    assert(spec_entries(t, 0, false) == Some((seq![EntryOutcome::Loaded(0)], t.len() as int)));
    assert forall|e: (NodeId, AnimationNode)| entry_loaded(t, 0, e) implies {
        &&& e.1 is Scale
        &&& scale_text(e.1->Scale_0) == scale_text(n)
        &&& match n.id {
            Some(i) => e.0.reduced() == i.reduced() && e.1->Scale_0.id == Some(e.0),
            None => e.1->Scale_0.id is None && e.0 == e.1.spec_id(),
        }
    } by {
        if n.id is Some {
            let m = choose|m: AnimationNode| describes(t, o, m, t.len() as int) && crate::nodes::id_set(m, e.1, e.0);
            assert(describes(t, o, m, t.len() as int));
        }
    }
}

/// Loading back a written IndexNode: a node file that holds the text that
/// `serialize` writes has one entry, and it loads; whatever the loader gives
/// for it has the node's fields, and the node's identity where it had one.
#[verifier::rlimit(100)]
pub proof fn lemma_index_file_round_trip(n: IndexNode)
    requires
        n.index.well_formed(),
        n.id matches Some(i) ==> i.well_formed() && !(i is Handle),
        index_node_text(n).len() <= usize::MAX,
    ensures
        spec_file_entries(index_node_text(n), false) == Some(seq![EntryOutcome::Loaded(0)]),
        forall|e: (NodeId, AnimationNode)| entry_loaded(index_node_text(n), 0, e) ==> {
            &&& e.1 is Index
            &&& index_text(e.1->Index_0) == index_text(n)
            &&& match n.id {
                Some(i) => e.0.reduced() == i.reduced() && e.1->Index_0.id == Some(e.0),
                None => e.1->Index_0.id is None && e.0 == e.1.spec_id(),
            }
        },
{
    let t = index_node_text(n);
    let o = prefix_text(n.id).len() as int;
    lemma_index_round_trip(n);
    lemma_index_layout(n);
    let bare = AnimationNode::Index(IndexNode { id: None, ..n });
    crate::loader::lemma_entry_end(t, 0, bare, t.len() as int);
    match n.id {
        Some(i) => {
            assert(prefix_text(n.id) == node_id_text(i) + ": "@);
            lemma_node_id_first(i);
            lemma_written_split(t, 0, node_id_text(i), ": "@);
            lemma_written_char(t, 0, node_id_text(i), 0);
        },
        None => {
            assert(o == 0);
            lemma_written_char(t, 0, "IndexNode"@ + seq!['('], 0);
            reveal_strlit("IndexNode");
        },
    }
    assert(spec_skip_blanks(t, 0) == 0);
    assert(spec_skip_blanks(t, t.len() as int) == t.len());
    assert(spec_entries(t, 0, false) == Some((seq![EntryOutcome::Loaded(0)], t.len() as int)));
    assert forall|e: (NodeId, AnimationNode)| entry_loaded(t, 0, e) implies {
        &&& e.1 is Index
        &&& index_text(e.1->Index_0) == index_text(n)
        &&& match n.id {
            Some(i) => e.0.reduced() == i.reduced() && e.1->Index_0.id == Some(e.0),
            None => e.1->Index_0.id is None && e.0 == e.1.spec_id(),
        }
    } by {
        if n.id is Some {
            let m = choose|m: AnimationNode| describes(t, o, m, t.len() as int) && crate::nodes::id_set(m, e.1, e.0);
            assert(describes(t, o, m, t.len() as int));
        }
    }
}

/// Loading back a written VariableNode: a node file that holds the text that
/// `serialize` writes has one entry, and it loads; whatever the loader gives
/// for it has the node's fields, and the node's identity where it had one.
#[verifier::rlimit(100)]
pub proof fn lemma_variable_file_round_trip(n: VariableNode)
    requires
        n.index.well_formed(),
        n.id matches Some(i) ==> i.well_formed() && !(i is Handle),
        variable_node_text(n).len() <= usize::MAX,
    ensures
        spec_file_entries(variable_node_text(n), false) == Some(seq![EntryOutcome::Loaded(0)]),
        forall|e: (NodeId, AnimationNode)| entry_loaded(variable_node_text(n), 0, e) ==> {
            &&& e.1 is Variable
            &&& variable_text(e.1->Variable_0) == variable_text(n)
            &&& match n.id {
                Some(i) => e.0.reduced() == i.reduced() && e.1->Variable_0.id == Some(e.0),
                None => e.1->Variable_0.id is None && e.0 == e.1.spec_id(),
            }
        },
{
    let t = variable_node_text(n);
    let o = prefix_text(n.id).len() as int;
    lemma_variable_round_trip(n);
    lemma_variable_layout(n);
    let bare = AnimationNode::Variable(VariableNode { id: None, ..n });
    crate::loader::lemma_entry_end(t, 0, bare, t.len() as int);
    match n.id {
        Some(i) => {
            assert(prefix_text(n.id) == node_id_text(i) + ": "@);
            lemma_node_id_first(i);
            lemma_written_split(t, 0, node_id_text(i), ": "@);
            lemma_written_char(t, 0, node_id_text(i), 0);
        },
        None => {
            assert(o == 0);
            lemma_written_char(t, 0, "VariableNode"@ + seq!['('], 0);
            reveal_strlit("VariableNode");
        },
    }
    assert(spec_skip_blanks(t, 0) == 0);
    assert(spec_skip_blanks(t, t.len() as int) == t.len());
    assert(spec_entries(t, 0, false) == Some((seq![EntryOutcome::Loaded(0)], t.len() as int)));
    assert forall|e: (NodeId, AnimationNode)| entry_loaded(t, 0, e) implies {
        &&& e.1 is Variable
        &&& variable_text(e.1->Variable_0) == variable_text(n)
        &&& match n.id {
            Some(i) => e.0.reduced() == i.reduced() && e.1->Variable_0.id == Some(e.0),
            None => e.1->Variable_0.id is None && e.0 == e.1.spec_id(),
        }
    } by {
        if n.id is Some {
            let m = choose|m: AnimationNode| describes(t, o, m, t.len() as int) && crate::nodes::id_set(m, e.1, e.0);
            assert(describes(t, o, m, t.len() as int));
        }
    }
}

} // verus!

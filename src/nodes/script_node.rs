//! A node run by a small script of conditions, assignments and returns.

use vstd::prelude::*;
use crate::attributes::Attribute;
use crate::error::{RunError, StateError};
use crate::hashing::{get_hash, name_hash};
use crate::key_text::{
    attr_name, id_name, key_of, name_in, read_node_id, read_wrapped, spec_node_id, spec_wrapped,
    InnerValue,
};
use crate::node_id::NodeId;
use crate::node_text::{read_value, spec_value};
use crate::nodes::NodeResult;
use crate::parse::{
    has_at, read_string, read_uint, skip_blanks, spec_has_at, spec_skip_blanks, spec_string,
    spec_uint, spec_word_end, string_of, word_end,
};
use crate::state::{after_set, typed, AnimationState, StateView};
use crate::text::{digits_value, is_digit};
use crate::value::{Value, ValueKind};

verus! {

/// A token of a script.
#[derive(Debug)]
pub enum Token {
    /// A count.
    Int(usize),
    /// A number with a fraction, in thousandths.
    Permille(u64),
    Equals,
    NotEquals,
    LessThen,
    LessThenEq,
    GreaterThen,
    GreaterThenEq,
    Assign,
    If,
    Else,
    Nothing,
    Attribute(Attribute),
    Return(NodeId),
    /// The text of a `Ron(..)` literal, read by the kind of the value it sets.
    Literal(String),
    /// A word that is no token of the language.
    Unknown(String),
}

/// A token as its text gives it: keys and addresses reduced, with the name
/// they were written with.
pub enum TokenText {
    Int(nat),
    Permille(nat),
    Equals,
    NotEquals,
    LessThen,
    LessThenEq,
    GreaterThen,
    GreaterThenEq,
    Assign,
    If,
    Else,
    Nothing,
    Attribute(Attribute, Option<Seq<char>>),
    Return(NodeId, Option<Seq<char>>),
    Literal(Seq<char>),
    Unknown(Seq<char>),
}

impl Token {
    pub open spec fn text(self) -> TokenText {
        match self {
            Token::Int(n) => TokenText::Int(n as nat),
            Token::Permille(n) => TokenText::Permille(n as nat),
            Token::Equals => TokenText::Equals,
            Token::NotEquals => TokenText::NotEquals,
            Token::LessThen => TokenText::LessThen,
            Token::LessThenEq => TokenText::LessThenEq,
            Token::GreaterThen => TokenText::GreaterThen,
            Token::GreaterThenEq => TokenText::GreaterThenEq,
            Token::Assign => TokenText::Assign,
            Token::If => TokenText::If,
            Token::Else => TokenText::Else,
            Token::Nothing => TokenText::Nothing,
            Token::Attribute(a) => TokenText::Attribute(a.reduced(), attr_name(a)),
            Token::Return(id) => TokenText::Return(id.reduced(), id_name(id)),
            Token::Literal(s) => TokenText::Literal(s@),
            Token::Unknown(s) => TokenText::Unknown(s@),
        }
    }

    pub open spec fn well_formed(self) -> bool {
        match self {
            Token::Attribute(a) => a.well_formed(),
            Token::Return(id) => id.well_formed(),
            _ => true,
        }
    }
}

/// A tag at the head of a script.
#[derive(Debug)]
pub enum Tag {
    Name(String),
    Id(NodeId),
}

pub open spec fn is_letter(c: char) -> bool {
    ('a' <= c && c <= 'z') || ('A' <= c && c <= 'Z')
}

/// The end of the run of characters that are no blanks.
pub open spec fn spec_nonblank_end(t: Seq<char>, i: int) -> int
    decreases t.len() - i,
{
    if 0 <= i < t.len() && !crate::parse::is_blank(t[i]) {
        spec_nonblank_end(t, i + 1)
    } else {
        i
    }
}

/// The place of the `)` that closes the `(` at `i`, counting nested pairs.
pub open spec fn spec_closing(t: Seq<char>, k: int, depth: nat) -> Option<int>
    decreases t.len() - k,
{
    if k < 0 || k >= t.len() {
        None
    } else if t[k] == '(' {
        spec_closing(t, k + 1, depth + 1)
    } else if t[k] == ')' {
        if depth <= 1 { Some(k) } else { spec_closing(t, k + 1, (depth - 1) as nat) }
    } else {
        spec_closing(t, k + 1, depth)
    }
}

/// A number with a fraction written at `i`, in thousandths: digits, a point,
/// and one to three decimals.
pub open spec fn spec_thousandths(t: Seq<char>, i: int, whole: nat, m: int) -> Option<(nat, int)> {
    let d = crate::parse::spec_digits_end(t, m + 1);
    let places = d - (m + 1);
    if places < 1 || places > 3 {
        None
    } else {
        let v = whole * 1000 + digits_value(t.subrange(m + 1, d)) * (if places == 1 { 100nat } else if places == 2 { 10nat } else { 1nat });
        if v <= u64::MAX { Some((v, d)) } else { None }
    }
}

/// The token at `i`, which holds no blank, and the place after it; or the
/// place of what cannot be read.
pub open spec fn spec_token_at(t: Seq<char>, i: int) -> Result<(TokenText, int), int> {
    let c = t[i];
    if is_digit(c) {
        match spec_uint(t, i) {
            None => Err(i),
            Some((n, m)) => if 0 <= m < t.len() && t[m] == '.' {
                match spec_thousandths(t, i, n, m) {
                    Some((v, d)) => Ok((TokenText::Permille(v), d)),
                    None => Err(i),
                }
            } else if n <= usize::MAX {
                Ok((TokenText::Int(n), m))
            } else {
                Err(i)
            },
        }
    } else if is_letter(c) {
        let e = spec_word_end(t, i);
        let w = t.subrange(i, e);
        if w == "Attribute"@ || w == "Custom"@ || w == "Index"@ {
            match spec_wrapped(t, e) {
                Some((v, m)) => Ok((TokenText::Attribute(key_of(w == "Index"@, v), name_in(v)), m)),
                None => Err(i),
            }
        } else if w == "Ron"@ {
            if e < t.len() && t[e] == '(' {
                match spec_closing(t, e + 1, 1) {
                    Some(close) => Ok((TokenText::Literal(t.subrange(e + 1, close)), close + 1)),
                    None => Err(i),
                }
            } else {
                Err(i)
            }
        } else if w == "return"@ {
            match spec_node_id(t, spec_skip_blanks(t, e)) {
                Some((id, nm, m)) => Ok((TokenText::Return(id, nm), m)),
                None => Err(e),
            }
        } else if w == "if"@ {
            Ok((TokenText::If, e))
        } else if w == "else"@ {
            Ok((TokenText::Else, e))
        } else if w == "set"@ {
            Ok((TokenText::Assign, e))
        } else if w == "none"@ {
            Ok((TokenText::Nothing, e))
        } else {
            let b = spec_nonblank_end(t, i);
            Ok((TokenText::Unknown(t.subrange(i, b)), b))
        }
    } else if spec_has_at(t, i, "=="@) {
        Ok((TokenText::Equals, i + 2))
    } else if spec_has_at(t, i, "!="@) {
        Ok((TokenText::NotEquals, i + 2))
    } else if spec_has_at(t, i, "<="@) {
        Ok((TokenText::LessThenEq, i + 2))
    } else if spec_has_at(t, i, ">="@) {
        Ok((TokenText::GreaterThenEq, i + 2))
    } else if c == '<' {
        Ok((TokenText::LessThen, i + 1))
    } else if c == '>' {
        Ok((TokenText::GreaterThen, i + 1))
    } else {
        let b = spec_nonblank_end(t, i);
        Ok((TokenText::Unknown(t.subrange(i, b)), b))
    }
}

/// The tokens from `p` to the end, after those in `acc`.
pub open spec fn spec_tokens(t: Seq<char>, p: int, acc: Seq<TokenText>) -> Result<Seq<TokenText>, int>
    decreases t.len() - p,
{
    let a = spec_skip_blanks(t, p);
    if p < 0 || a >= t.len() {
        Ok(acc)
    } else {
        match spec_token_at(t, a) {
            Err(e) => Err(e),
            Ok((tok, e)) => if e <= p || e > t.len() { Err(a) } else { spec_tokens(t, e, acc.push(tok)) },
        }
    }
}

fn nonblank_end(t: &Vec<char>, i: usize) -> (r: usize)
    requires
        i <= t@.len(),
    ensures
        r == spec_nonblank_end(t@, i as int),
        i <= r <= t@.len(),
{
    let mut k = i;
    while k < t.len() && !(t[k] == ' ' || t[k] == '\t' || t[k] == '\n' || t[k] == '\r')
        invariant
            i <= k <= t@.len(),
            spec_nonblank_end(t@, k as int) == spec_nonblank_end(t@, i as int),
        decreases t@.len() - k,
    {
        k = k + 1;
    }
    k
}

/// The `)` that closes an open `(` before `open`.
pub fn closing(t: &Vec<char>, open: usize) -> (r: Option<usize>)
    requires
        1 <= open <= t@.len(),
    ensures
        r matches Some(k) ==> spec_closing(t@, open as int, 1) == Some(k as int) && open <= k < t@.len(),
        r is None ==> spec_closing(t@, open as int, 1) is None,
{
    let len = t.len();
    let mut k = open;
    let mut depth: usize = 1;
    while k < len
        invariant
            len == t@.len(),
            1 <= open <= k <= len,
            depth <= k - open + 1,
            spec_closing(t@, k as int, depth as nat) == spec_closing(t@, open as int, 1),
        decreases t@.len() - k,
    {
        if t[k] == '(' {
            depth = depth + 1;
        } else if t[k] == ')' {
            if depth <= 1 {
                proof {
                    lemma_closing_bounds(t@, open as int, 1);
                }
                return Some(k);
            }
            depth = depth - 1;
        }
        k = k + 1;
    }
    None
}

proof fn lemma_closing_bounds(t: Seq<char>, k: int, depth: nat)
    ensures
        spec_closing(t, k, depth) matches Some(c) ==> k <= c < t.len(),
    decreases t.len() - k,
{
    if 0 <= k < t.len() {
        if t[k] == '(' {
            lemma_closing_bounds(t, k + 1, depth + 1);
        } else if t[k] == ')' {
            if depth > 1 {
                lemma_closing_bounds(t, k + 1, (depth - 1) as nat);
            }
        } else {
            lemma_closing_bounds(t, k + 1, depth);
        }
    }
}

fn thousandths(t: &Vec<char>, whole: u64, m: usize) -> (r: Option<(u64, usize)>)
    requires
        m < t@.len(),
    ensures
        r matches Some((v, d)) ==> spec_thousandths(t@, 0, whole as nat, m as int) == Some((v as nat, d as int)) && d <= t@.len(),
        r is None ==> spec_thousandths(t@, 0, whole as nat, m as int) is None,
{
    let len = t.len();
    let mut d = m + 1;
    let mut frac: u64 = 0;
    proof {
        reveal_with_fuel(pow10_of_len, 4);
    }
    while d < len && '0' <= t[d] && t[d] <= '9' && d - (m + 1) < 3
        invariant
            len == t@.len(),
            m + 1 <= d <= len,
            d - (m + 1) <= 3,
            crate::parse::spec_digits_end(t@, d as int) == crate::parse::spec_digits_end(t@, m + 1),
            frac as nat == digits_value(t@.subrange(m + 1, d as int)),
            frac < pow10_of_len((d - (m + 1)) as nat),
            pow10_of_len(3) == 1000,
            forall|k: int| m + 1 <= k < d ==> is_digit(#[trigger] t@[k]),
        decreases len - d,
    {
        let dv = (t[d] as u32 - '0' as u32) as u64;
        proof {
            let s = t@.subrange(m + 1, d as int);
            assert(t@.subrange(m + 1, d + 1) =~= s.push(t@[d as int]));
            assert(s.push(t@[d as int]).drop_last() =~= s);
            let p = pow10_of_len((d - (m + 1)) as nat);
            assert(pow10_of_len((d + 1 - (m + 1)) as nat) == 10 * p);
            assert(p <= 100) by {
                reveal_with_fuel(pow10_of_len, 4);
            }
            assert(frac * 10 + dv < 10 * p) by (nonlinear_arith)
                requires frac < p, dv < 10;
        }
        frac = frac * 10 + dv;
        d = d + 1;
    }
    if d < len && '0' <= t[d] && t[d] <= '9' {
        proof {
            crate::key_text::lemma_digits_bounds(t@, d + 1);
        }
        return None;
    }
    let places = d - (m + 1);
    if places < 1 {
        return None;
    }
    let scale: u64 = if places == 1 { 100 } else if places == 2 { 10 } else { 1 };
    proof {
        assert(frac * scale < 1000) by (nonlinear_arith)
            requires
                (places == 1 && scale == 100 && frac < 10) || (places == 2 && scale == 10 && frac < 100)
                || (places == 3 && scale == 1 && frac < 1000);
    }
    if whole > u64::MAX / 1000 {
        return None;
    }
    let base = whole * 1000;
    if frac * scale > u64::MAX - base {
        return None;
    }
    Some((base + frac * scale, d))
}

pub open spec fn pow10_of_len(n: nat) -> nat
    decreases n,
{
    if n == 0 { 1 } else { 10 * pow10_of_len((n - 1) as nat) }
}

fn word_is(t: &Vec<char>, i: usize, e: usize, w: &str) -> (r: bool)
    requires
        i <= e <= t@.len(),
    ensures
        r == (t@.subrange(i as int, e as int) == w@),
{
    let n = w.unicode_len();
    if e - i != n {
        return false;
    }
    has_at(t, i, w)
}

/// The token at `i`, which holds no blank.
fn token_at(t: &Vec<char>, i: usize) -> (r: Result<(Token, usize), usize>)
    requires
        i < t@.len(),
    ensures
        r matches Ok((tok, e)) ==> spec_token_at(t@, i as int) == Ok::<(TokenText, int), int>((tok.text(), e as int))
            && tok.well_formed() && e <= t@.len(),
        r matches Err(p) ==> spec_token_at(t@, i as int) == Err::<(TokenText, int), int>(p as int),
{
    proof {
        reveal_strlit("Attribute");
        reveal_strlit("Custom");
        reveal_strlit("Index");
        reveal_strlit("Ron");
        reveal_strlit("return");
        reveal_strlit("if");
        reveal_strlit("else");
        reveal_strlit("set");
        reveal_strlit("none");
        reveal_strlit("==");
        reveal_strlit("!=");
        reveal_strlit("<=");
        reveal_strlit(">=");
    }
    let c = t[i];
    if '0' <= c && c <= '9' {
        match read_uint(t, i) {
            None => Err(i),
            Some((n, m)) => {
                if m < t.len() && t[m] == '.' {
                    match thousandths(t, n, m) {
                        Some((v, d)) => Ok((Token::Permille(v), d)),
                        None => Err(i),
                    }
                } else if n <= usize::MAX as u64 {
                    Ok((Token::Int(n as usize), m))
                } else {
                    Err(i)
                }
            },
        }
    } else if ('a' <= c && c <= 'z') || ('A' <= c && c <= 'Z') {
        let e = word_end(t, i);
        let is_attr = word_is(t, i, e, "Attribute") || word_is(t, i, e, "Custom");
        let is_index = word_is(t, i, e, "Index");
        if is_attr || is_index {
            match read_wrapped(t, e) {
                Some((InnerValue::Num(n), m)) => {
                    let a = if is_index { Attribute::IndexId(n) } else { Attribute::CustomId(n) };
                    Ok((Token::Attribute(a), m))
                },
                Some((InnerValue::Str(name), m)) => {
                    let h = get_hash(name.as_str());
                    let a = if is_index { Attribute::Index(h, name) } else { Attribute::Custom(h, name) };
                    Ok((Token::Attribute(a), m))
                },
                None => Err(i),
            }
        } else if word_is(t, i, e, "Ron") {
            if e < t.len() && t[e] == '(' {
                match closing(t, e + 1) {
                    Some(close) => Ok((Token::Literal(string_of(t, e + 1, close)), close + 1)),
                    None => Err(i),
                }
            } else {
                Err(i)
            }
        } else if word_is(t, i, e, "return") {
            let b = skip_blanks(t, e);
            match read_node_id(t, b) {
                Some((id, m)) => Ok((Token::Return(id), m)),
                None => Err(e),
            }
        } else if word_is(t, i, e, "if") {
            Ok((Token::If, e))
        } else if word_is(t, i, e, "else") {
            Ok((Token::Else, e))
        } else if word_is(t, i, e, "set") {
            Ok((Token::Assign, e))
        } else if word_is(t, i, e, "none") {
            Ok((Token::Nothing, e))
        } else {
            let b = nonblank_end(t, i);
            Ok((Token::Unknown(string_of(t, i, b)), b))
        }
    } else if t.len() - i >= 2 && has_at(t, i, "==") {
        Ok((Token::Equals, i + 2))
    } else if t.len() - i >= 2 && has_at(t, i, "!=") {
        Ok((Token::NotEquals, i + 2))
    } else if t.len() - i >= 2 && has_at(t, i, "<=") {
        Ok((Token::LessThenEq, i + 2))
    } else if t.len() - i >= 2 && has_at(t, i, ">=") {
        Ok((Token::GreaterThenEq, i + 2))
    } else if c == '<' {
        Ok((Token::LessThen, i + 1))
    } else if c == '>' {
        Ok((Token::GreaterThen, i + 1))
    } else {
        let b = nonblank_end(t, i);
        Ok((Token::Unknown(string_of(t, i, b)), b))
    }
}

/// The tokens of `t` from `p` on.
fn tokenize(t: &Vec<char>, p: usize) -> (r: Result<Vec<Token>, usize>)
    requires
        p <= t@.len(),
    ensures
        r matches Ok(ts) ==> spec_tokens(t@, p as int, Seq::empty()) == Ok::<Seq<TokenText>, int>(ts@.map_values(|k: Token| k.text()))
            && forall|k: int| 0 <= k < ts@.len() ==> (#[trigger] ts@[k]).well_formed(),
        r matches Err(e) ==> spec_tokens(t@, p as int, Seq::empty()) == Err::<Seq<TokenText>, int>(e as int),
{
    let mut tokens: Vec<Token> = Vec::new();
    let mut q = p;
    let ghost goal = spec_tokens(t@, p as int, Seq::empty());
    assert(tokens@.map_values(|k: Token| k.text()) =~= Seq::<TokenText>::empty());
    let mut out: Option<Result<(), usize>> = None;
    while out.is_none()
        invariant
            q <= t@.len(),
            forall|k: int| 0 <= k < tokens@.len() ==> (#[trigger] tokens@[k]).well_formed(),
            out is None ==> spec_tokens(t@, q as int, tokens@.map_values(|k: Token| k.text())) == goal,
            out matches Some(Ok(())) ==> goal == Ok::<Seq<TokenText>, int>(tokens@.map_values(|k: Token| k.text())),
            out matches Some(Err(e)) ==> goal == Err::<Seq<TokenText>, int>(e as int),
        decreases t@.len() - q, if out is None { 1int } else { 0int },
    {
        let a = skip_blanks(t, q);
        if a >= t.len() {
            out = Some(Ok(()));
        } else {
            match token_at(t, a) {
                Err(e) => {
                    out = Some(Err(e));
                },
                Ok((tok, e)) => {
                    if e <= q {
                        out = Some(Err(a));
                    } else {
                        let ghost before = tokens@;
                        let ghost tt = tok.text();
                        tokens.push(tok);
                        proof {
                            assert(tokens@.map_values(|k: Token| k.text()) =~= before.map_values(|k: Token| k.text()).push(tt));
                        }
                        q = e;
                    }
                },
            }
        }
    }
    match out {
        Some(Ok(())) => Ok(tokens),
        Some(Err(e)) => Err(e),
        None => Err(q),
    }
}

/// A tag as its text gives it.
pub enum TagText {
    Name(Seq<char>),
    Id(NodeId, Option<Seq<char>>),
}

impl Tag {
    pub open spec fn text(self) -> TagText {
        match self {
            Tag::Name(s) => TagText::Name(s@),
            Tag::Id(id) => TagText::Id(id.reduced(), id_name(id)),
        }
    }
}

/// The value of a `#name` tag at `b`: a string literal or a bare word.
pub open spec fn spec_tag_name(t: Seq<char>, b: int) -> Option<(Seq<char>, int)> {
    if 0 <= b < t.len() && t[b] == '"' {
        spec_string(t, b)
    } else {
        let e = spec_nonblank_end(t, b);
        if e == b { None } else { Some((t.subrange(b, e), e)) }
    }
}

/// The tags at the head of a script from `p` on, after `tags` and the
/// fallback found so far: the tags, the fallback, and where the tokens start;
/// or the place of what cannot be read. A later `#fallback` counts over an
/// earlier one, and an unknown tag is passed over.
pub open spec fn spec_tags(t: Seq<char>, p: int, tags: Seq<TagText>, fallback: Option<(NodeId, Option<Seq<char>>)>)
    -> Result<(Seq<TagText>, Option<(NodeId, Option<Seq<char>>)>, int), int>
    decreases t.len() - p,
{
    let a = spec_skip_blanks(t, p);
    if p < 0 || a >= t.len() || t[a] != '#' {
        Ok((tags, fallback, a))
    } else {
        let e = spec_word_end(t, a + 1);
        let w = t.subrange(a + 1, e);
        let b = spec_skip_blanks(t, e);
        if w == "name"@ {
            match spec_tag_name(t, b) {
                None => Err(b),
                Some((n, m)) => if m <= p || m > t.len() { Err(b) } else { spec_tags(t, m, tags.push(TagText::Name(n)), fallback) },
            }
        } else if w == "id"@ || w == "fallback"@ {
            match spec_node_id(t, b) {
                None => Err(b),
                Some((id, nm, m)) => if m <= p || m > t.len() {
                    Err(b)
                } else if w == "id"@ {
                    spec_tags(t, m, tags.push(TagText::Id(id, nm)), fallback)
                } else {
                    spec_tags(t, m, tags, Some((id, nm)))
                },
            }
        } else if e <= p || e > t.len() {
            Err(a)
        } else {
            spec_tags(t, e, tags, fallback)
        }
    }
}

fn tag_name(t: &Vec<char>, b: usize) -> (r: Option<(String, usize)>)
    requires
        b <= t@.len(),
    ensures
        r matches Some((n, m)) ==> spec_tag_name(t@, b as int) == Some((n@, m as int)) && m <= t@.len(),
        r is None ==> spec_tag_name(t@, b as int) is None,
{
    if b < t.len() && t[b] == '"' {
        read_string(t, b)
    } else {
        let e = nonblank_end(t, b);
        if e == b {
            None
        } else {
            Some((string_of(t, b, e), e))
        }
    }
}

/// Reads the tags at the head of a script.
fn read_tags(t: &Vec<char>) -> (r: Result<(Vec<Tag>, Option<NodeId>, usize), usize>)
    ensures
        r matches Ok((tags, fb, p)) ==> spec_tags(t@, 0, Seq::empty(), None) == Ok::<_, int>((
            tags@.map_values(|g: Tag| g.text()),
            match fb { Some(f) => Some((f.reduced(), id_name(f))), None => None },
            p as int,
        )) && p <= t@.len() && (fb matches Some(f) ==> f.well_formed()),
        r matches Err(e) ==> spec_tags(t@, 0, Seq::empty(), None) == Err::<(Seq<TagText>, Option<(NodeId, Option<Seq<char>>)>, int), int>(e as int),
{
    proof {
        reveal_strlit("name");
        reveal_strlit("id");
        reveal_strlit("fallback");
    }
    let mut tags: Vec<Tag> = Vec::new();
    let mut fallback: Option<NodeId> = None;
    let mut p: usize = 0;
    let ghost goal = spec_tags(t@, 0, Seq::empty(), None);
    assert(tags@.map_values(|g: Tag| g.text()) =~= Seq::<TagText>::empty());
    let mut out: Option<Result<usize, usize>> = None;
    while out.is_none()
        invariant
            p <= t@.len(),
            fallback matches Some(f) ==> f.well_formed(),
            out is None ==> spec_tags(t@, p as int, tags@.map_values(|g: Tag| g.text()),
                match fallback { Some(f) => Some((f.reduced(), id_name(f))), None => None }) == goal,
            out matches Some(Ok(q)) ==> q <= t@.len() && goal == Ok::<_, int>((tags@.map_values(|g: Tag| g.text()),
                match fallback { Some(f) => Some((f.reduced(), id_name(f))), None => None }, q as int)),
            out matches Some(Err(e)) ==> goal == Err::<(Seq<TagText>, Option<(NodeId, Option<Seq<char>>)>, int), int>(e as int),
        decreases t@.len() - p, if out is None { 1int } else { 0int },
    {
        let a = skip_blanks(t, p);
        if a >= t.len() || t[a] != '#' {
            out = Some(Ok(a));
        } else {
            let e = word_end(t, a + 1);
            let b = skip_blanks(t, e);
            if word_is(t, a + 1, e, "name") {
                match tag_name(t, b) {
                    None => {
                        out = Some(Err(b));
                    },
                    Some((n, m)) => {
                        if m <= p {
                            out = Some(Err(b));
                        } else {
                            let ghost before = tags@;
                            let ghost nt = TagText::Name(n@);
                            tags.push(Tag::Name(n));
                            proof {
                                assert(tags@.map_values(|g: Tag| g.text()) =~= before.map_values(|g: Tag| g.text()).push(nt));
                            }
                            p = m;
                        }
                    },
                }
            } else if word_is(t, a + 1, e, "id") || word_is(t, a + 1, e, "fallback") {
                match read_node_id(t, b) {
                    None => {
                        out = Some(Err(b));
                    },
                    Some((id, m)) => {
                        if m <= p {
                            out = Some(Err(b));
                        } else if word_is(t, a + 1, e, "id") {
                            let ghost before = tags@;
                            let ghost nt = TagText::Id(id.reduced(), id_name(id));
                            tags.push(Tag::Id(id));
                            proof {
                                assert(tags@.map_values(|g: Tag| g.text()) =~= before.map_values(|g: Tag| g.text()).push(nt));
                            }
                            p = m;
                        } else {
                            fallback = Some(id);
                            p = m;
                        }
                    },
                }
            } else if e <= p {
                out = Some(Err(a));
            } else {
                p = e;
            }
        }
    }
    match out {
        Some(Ok(q)) => Ok((tags, fallback, q)),
        Some(Err(e)) => Err(e),
        None => Err(p),
    }
}

/// The end of `t[..k]` without its trailing blanks.
pub open spec fn spec_trim_end(t: Seq<char>, k: int) -> int
    decreases k,
{
    if 0 < k <= t.len() && crate::parse::is_blank(t[k - 1]) {
        spec_trim_end(t, k - 1)
    } else {
        k
    }
}

/// The script proper: a text that starts with `(` (after blanks) loses that
/// and its last character that is no blank.
pub open spec fn spec_inner(t: Seq<char>) -> Seq<char> {
    let a = spec_skip_blanks(t, 0);
    if a < t.len() && t[a] == '(' {
        let b = spec_trim_end(t, t.len() as int);
        if b - 1 >= a + 1 { t.subrange(a + 1, b - 1) } else { Seq::empty() }
    } else {
        t
    }
}

/// What a script's text gives: its tags, fallback and tokens; or the place
/// (in the script proper) of what cannot be read.
pub open spec fn spec_script(t: Seq<char>) -> Result<(Seq<TagText>, Option<(NodeId, Option<Seq<char>>)>, Seq<TokenText>), int> {
    let u = spec_inner(t);
    match spec_tags(u, 0, Seq::empty(), None) {
        Err(e) => Err(e),
        Ok((tags, fb, p)) => match spec_tokens(u, p, Seq::empty()) {
            Err(e) => Err(e),
            Ok(toks) => Ok((tags, fb, toks)),
        },
    }
}

fn trim_end(t: &Vec<char>) -> (r: usize)
    ensures
        r == spec_trim_end(t@, t@.len() as int),
        r <= t@.len(),
{
    let mut k = t.len();
    while k > 0 && (t[k - 1] == ' ' || t[k - 1] == '\t' || t[k - 1] == '\n' || t[k - 1] == '\r')
        invariant
            k <= t@.len(),
            spec_trim_end(t@, k as int) == spec_trim_end(t@, t@.len() as int),
        decreases k,
    {
        k = k - 1;
    }
    k
}

fn sub_chars(t: &Vec<char>, from: usize, to: usize) -> (r: Vec<char>)
    requires
        from <= to <= t@.len(),
    ensures
        r@ == t@.subrange(from as int, to as int),
{
    let mut out: Vec<char> = Vec::new();
    let mut k = from;
    while k < to
        invariant
            from <= k <= to <= t@.len(),
            out@ == t@.subrange(from as int, k as int),
        decreases to - k,
    {
        out.push(t[k]);
        assert(out@ =~= t@.subrange(from as int, k + 1));
        k = k + 1;
    }
    out
}

/// A node run by a script: tags that name it, a fallback address, and the
/// tokens of its statements.
///
/// The statements are `if <key> <op> <number | key | none>` (when false, the
/// next seven tokens are passed over), `set <key> <number | Ron(literal)>`,
/// and `return <address>`. A script that ends without returning goes on to
/// its fallback.
#[derive(Debug)]
pub struct ScriptNode {
    pub tokens: Vec<Token>,
    pub tags: Vec<Tag>,
    pub fallback: Option<NodeId>,
}

impl ScriptNode {
    /// Reads a script; the error is the place, in the script proper, of what
    /// cannot be read.
    pub fn new(script: &str) -> (r: Result<ScriptNode, usize>)
        ensures
            r matches Ok(n) ==> n.well_formed() && spec_script(script@) == Ok::<_, int>((
                n.tags@.map_values(|g: Tag| g.text()),
                match n.fallback { Some(f) => Some((f.reduced(), id_name(f))), None => None },
                n.tokens@.map_values(|k: Token| k.text()),
            )),
            r matches Err(e) ==> spec_script(script@) == Err::<(Seq<TagText>, Option<(NodeId, Option<Seq<char>>)>, Seq<TokenText>), int>(e as int),
    {
        let t = crate::parse::chars_of(script);
        let a = skip_blanks(&t, 0);
        let u = if a < t.len() && t[a] == '(' {
            let b = trim_end(&t);
            if b >= 1 && b - 1 >= a + 1 {
                sub_chars(&t, a + 1, b - 1)
            } else {
                Vec::new()
            }
        } else {
            t
        };
        let (tags, fallback, p) = match read_tags(&u) {
            Ok(x) => x,
            Err(e) => return Err(e),
        };
        match tokenize(&u, p) {
            Ok(tokens) => Ok(ScriptNode { tokens, tags, fallback }),
            Err(e) => Err(e),
        }
    }

    pub open spec fn well_formed(self) -> bool {
        &&& forall|k: int| 0 <= k < self.tokens@.len() ==> (#[trigger] self.tokens@[k]).well_formed()
        &&& self.fallback matches Some(f) ==> f.well_formed()
    }
}

/// The count stored under `key`, if one is.
pub open spec fn count_at(s: StateView, key: Attribute) -> Option<usize> {
    match typed(s, key, ValueKind::Usize) {
        Ok(Value::Usize(n)) => Some(n),
        _ => None,
    }
}

/// `x <op> y`, for a comparing token.
pub open spec fn compare(op: Token, x: usize, y: usize) -> Result<bool, RunError> {
    match op {
        Token::Equals => Ok(x == y),
        Token::NotEquals => Ok(x != y),
        Token::LessThenEq => Ok(x <= y),
        Token::GreaterThenEq => Ok(x >= y),
        Token::LessThen => Ok(x < y),
        Token::GreaterThen => Ok(x > y),
        _ => Err(RunError::BadScript),
    }
}

/// The condition of an `if`: a stored count against a number or another
/// stored count (false where a count is missing), or whether a count is
/// stored at all (`== none`, `!= none`).
pub open spec fn condition(s: StateView, lhs: Token, op: Token, rhs: Token) -> Result<bool, RunError> {
    match lhs {
        Token::Attribute(a) => match rhs {
            Token::Int(n) => match count_at(s, a) {
                None => Ok(false),
                Some(x) => compare(op, x, n),
            },
            Token::Attribute(b) => match (count_at(s, a), count_at(s, b)) {
                (Some(x), Some(y)) => compare(op, x, y),
                _ => Ok(false),
            },
            Token::Nothing => match op {
                Token::Equals => Ok(count_at(s, a) is None),
                Token::NotEquals => Ok(count_at(s, a) is Some),
                _ => Err(RunError::BadScript),
            },
            _ => Err(RunError::BadScript),
        },
        _ => Err(RunError::BadScript),
    }
}

/// The value that a literal gives for a slot holding a value of `kind`.
pub open spec fn literal_value(text: Seq<char>, kind: ValueKind) -> Option<Value> {
    match spec_value(text, spec_skip_blanks(text, 0), kind) {
        Some((v, j)) => if spec_skip_blanks(text, j) == text.len() { Some(v) } else { None },
        None => None,
    }
}

/// Running the statements from token `i` on.
pub open spec fn run_from(tokens: Seq<Token>, i: int, s: StateView, fallback: Option<NodeId>) -> (Result<NodeResult, RunError>, StateView)
    decreases tokens.len() - i,
{
    if i < 0 || i >= tokens.len() {
        match fallback {
            Some(f) => (Ok(NodeResult::Next(f.static_of())), s),
            None => (Err(RunError::NoReturn), s),
        }
    } else {
        match tokens[i] {
            Token::If => if i + 3 >= tokens.len() {
                (Err(RunError::BadScript), s)
            } else {
                match condition(s, tokens[i + 1], tokens[i + 2], tokens[i + 3]) {
                    Err(e) => (Err(e), s),
                    Ok(true) => run_from(tokens, i + 4, s, fallback),
                    Ok(false) => if i + 7 >= tokens.len() {
                        run_from(tokens, tokens.len() as int, s, fallback)
                    } else {
                        run_from(tokens, i + 7, s, fallback)
                    },
                }
            },
            Token::Assign => if i + 2 >= tokens.len() {
                (Err(RunError::BadScript), s)
            } else {
                match tokens[i + 1] {
                    Token::Attribute(k) => match tokens[i + 2] {
                        Token::Int(v) => if k.spec_is_index() {
                            run_from(tokens, i + 3, after_set(s, k, Value::Usize(v)), fallback)
                        } else {
                            (Err(RunError::BadScript), s)
                        },
                        Token::Literal(text) => if !s.data.dom().contains(k.reduced()) {
                            (Err(RunError::StateError(StateError::NotFound)), s)
                        } else {
                            match literal_value(text@, s.data[k.reduced()].spec_kind()) {
                                Some(v) => run_from(tokens, i + 3, after_set(s, k, v), fallback),
                                None => (Err(RunError::BadScript), s),
                            }
                        },
                        _ => (Err(RunError::BadScript), s),
                    },
                    _ => (Err(RunError::BadScript), s),
                }
            },
            Token::Return(id) => (Ok(NodeResult::Next(id.static_of())), s),
            _ => (Err(RunError::BadScript), s),
        }
    }
}

fn compare_exec(op: &Token, x: usize, y: usize) -> (r: Result<bool, RunError>)
    ensures
        r == compare(*op, x, y),
{
    match op {
        Token::Equals => Ok(x == y),
        Token::NotEquals => Ok(x != y),
        Token::LessThenEq => Ok(x <= y),
        Token::GreaterThenEq => Ok(x >= y),
        Token::LessThen => Ok(x < y),
        Token::GreaterThen => Ok(x > y),
        _ => Err(RunError::BadScript),
    }
}

fn count_exec(state: &AnimationState, key: &Attribute) -> (r: Option<usize>)
    requires
        state.well_formed(),
    ensures
        r == count_at(state@, *key),
{
    match state.get_usize(key) {
        Ok(n) => Some(n),
        Err(_) => None,
    }
}

fn condition_exec(state: &AnimationState, lhs: &Token, op: &Token, rhs: &Token) -> (r: Result<bool, RunError>)
    requires
        state.well_formed(),
    ensures
        r == condition(state@, *lhs, *op, *rhs),
{
    match lhs {
        Token::Attribute(a) => match rhs {
            Token::Int(n) => match count_exec(state, a) {
                None => Ok(false),
                Some(x) => compare_exec(op, x, *n),
            },
            Token::Attribute(b) => match (count_exec(state, a), count_exec(state, b)) {
                (Some(x), Some(y)) => compare_exec(op, x, y),
                _ => Ok(false),
            },
            Token::Nothing => match op {
                Token::Equals => Ok(count_exec(state, a).is_none()),
                Token::NotEquals => Ok(count_exec(state, a).is_some()),
                _ => Err(RunError::BadScript),
            },
            _ => Err(RunError::BadScript),
        },
        _ => Err(RunError::BadScript),
    }
}

fn literal_exec(text: &String, kind: ValueKind) -> (r: Option<Value>)
    ensures
        r == literal_value(text@, kind),
{
    let t = crate::parse::chars_of(text.as_str());
    let a = skip_blanks(&t, 0);
    match read_value(&t, a, kind) {
        Some((v, j)) => if skip_blanks(&t, j) == t.len() { Some(v) } else { None },
        None => None,
    }
}

impl ScriptNode {
    /// What running the script on `s` gives, and the store after it.
    pub open spec fn spec_run(self, s: StateView) -> (Result<NodeResult, RunError>, StateView) {
        run_from(self.tokens@, 0, s, self.fallback)
    }

    /// Runs the statements in order until one returns.
    pub fn run(&self, state: &mut AnimationState) -> (r: Result<NodeResult, RunError>)
        requires
            old(state).well_formed(),
        ensures
            final(state).well_formed(),
            (r, final(state)@) == self.spec_run(old(state)@),
    {
        let n = self.tokens.len();
        let mut i: usize = 0;
        let ghost goal = self.spec_run(old(state)@);
        let mut out: Option<Result<NodeResult, RunError>> = None;
        while out.is_none() && i < n
            invariant
                n == self.tokens@.len(),
                state.well_formed(),
                out is None ==> run_from(self.tokens@, i as int, state@, self.fallback) == goal,
                out matches Some(o) ==> (o, state@) == goal,
            decreases n - i, if out is None { 1int } else { 0int },
        {
            match &self.tokens[i] {
                Token::If => {
                    if n - i <= 3 {
                        out = Some(Err(RunError::BadScript));
                    } else {
                        match condition_exec(state, &self.tokens[i + 1], &self.tokens[i + 2], &self.tokens[i + 3]) {
                            Err(e) => {
                                out = Some(Err(e));
                            },
                            Ok(true) => {
                                i = i + 4;
                            },
                            Ok(false) => {
                                if n - i <= 7 {
                                    i = n;
                                } else {
                                    i = i + 7;
                                }
                            },
                        }
                    }
                },
                Token::Assign => {
                    if n - i <= 2 {
                        out = Some(Err(RunError::BadScript));
                    } else {
                        match &self.tokens[i + 1] {
                            Token::Attribute(k) => match &self.tokens[i + 2] {
                                Token::Int(v) => {
                                    if k.is_index() {
                                        state.set_attribute(k.clone(), Value::Usize(*v));
                                        i = i + 3;
                                    } else {
                                        out = Some(Err(RunError::BadScript));
                                    }
                                },
                                Token::Literal(text) => match state.get_attribute(k) {
                                    Err(_) => {
                                        out = Some(Err(RunError::StateError(StateError::NotFound)));
                                    },
                                    Ok(old_value) => match literal_exec(text, old_value.kind()) {
                                        Some(v) => {
                                            state.set_attribute(k.clone(), v);
                                            i = i + 3;
                                        },
                                        None => {
                                            out = Some(Err(RunError::BadScript));
                                        },
                                    },
                                },
                                _ => {
                                    out = Some(Err(RunError::BadScript));
                                },
                            },
                            _ => {
                                out = Some(Err(RunError::BadScript));
                            },
                        }
                    }
                },
                Token::Return(id) => {
                    out = Some(Ok(NodeResult::Next(id.to_static())));
                },
                _ => {
                    out = Some(Err(RunError::BadScript));
                },
            }
        }
        match out {
            Some(o) => o,
            None => match &self.fallback {
                Some(f) => Ok(NodeResult::Next(f.to_static())),
                None => Err(RunError::NoReturn),
            },
        }
    }

    /// The script's name: that of its first `#name` tag.
    pub fn name(&self) -> (r: Option<&String>)
        ensures
            r matches Some(n) ==> exists|k: int| 0 <= k < self.tags@.len() && self.tags@[k] == Tag::Name(*n),
            r is None ==> forall|k: int| 0 <= k < self.tags@.len() ==> !(self.tags@[k] is Name),
    {
        let mut k: usize = 0;
        while k < self.tags.len()
            invariant
                k <= self.tags@.len(),
                forall|j: int| 0 <= j < k ==> !(self.tags@[j] is Name),
            decreases self.tags@.len() - k,
        {
            if let Tag::Name(n) = &self.tags[k] {
                return Some(n);
            }
            k = k + 1;
        }
        None
    }
}

/// The identity that tags give: the first `#id`, else the last `#name`, else
/// the default address.
pub open spec fn tags_identity(tags: Seq<Tag>, k: int, name: Option<Seq<char>>) -> NodeId
    decreases tags.len() - k,
{
    if k < 0 || k >= tags.len() {
        match name {
            Some(n) => NodeId::Hash(name_hash(n)),
            None => NodeId::U64(0),
        }
    } else {
        match tags[k] {
            Tag::Id(id) => id.static_of(),
            Tag::Name(n) => tags_identity(tags, k + 1, Some(n@)),
        }
    }
}

impl ScriptNode {
    /// The script's identity: its first `#id` tag, else the last `#name`
    /// tag, else the default address.
    pub fn id(&self) -> (r: NodeId)
        ensures
            r == tags_identity(self.tags@, 0, None),
    {
        let mut name: Option<&String> = None;
        let mut k: usize = 0;
        while k < self.tags.len()
            invariant
                k <= self.tags@.len(),
                tags_identity(self.tags@, k as int, match name { Some(n) => Some(n@), None => None })
                    == tags_identity(self.tags@, 0, None),
            decreases self.tags@.len() - k,
        {
            match &self.tags[k] {
                Tag::Id(id) => {
                    return id.to_static();
                },
                Tag::Name(n) => {
                    name = Some(n);
                },
            }
            k = k + 1;
        }
        match name {
            Some(n) => NodeId::Hash(get_hash(n.as_str())),
            None => NodeId::U64(0),
        }
    }

    /// Gives the script the identity `id`, in place of its first `#id` tag.
    pub fn set_id(&mut self, id: NodeId)
        ensures
            final(self).tokens == old(self).tokens,
            final(self).fallback == old(self).fallback,
            final(self).tags@ == tags_with_id(old(self).tags@, id, 0),
    {
        let mut k: usize = 0;
        while k < self.tags.len()
            invariant
                k <= self.tags@.len(),
                self.tags@ == old(self).tags@,
                self.tokens == old(self).tokens,
                self.fallback == old(self).fallback,
                tags_with_id(old(self).tags@, id, k as int) == tags_with_id(old(self).tags@, id, 0),
            decreases self.tags@.len() - k,
        {
            if let Tag::Id(_) = &self.tags[k] {
                self.tags.set(k, Tag::Id(id));
                return;
            }
            k = k + 1;
        }
        self.tags.push(Tag::Id(id));
    }
}

/// The tags with the first `#id` tag from `k` on set to `id`, or with one
/// added at the end where there is none.
pub open spec fn tags_with_id(tags: Seq<Tag>, id: NodeId, k: int) -> Seq<Tag>
    decreases tags.len() - k,
{
    if k < 0 || k >= tags.len() {
        tags.push(Tag::Id(id))
    } else if tags[k] is Id {
        tags.update(k, Tag::Id(id))
    } else {
        tags_with_id(tags, id, k + 1)
    }
}

proof fn lemma_tags_with_id_keeps(tags: Seq<Tag>, id: NodeId, k: int, m: int)
    requires
        0 <= m < k,
        m < tags.len(),
    ensures
        tags_with_id(tags, id, k).len() >= tags.len(),
        tags_with_id(tags, id, k)[m] == tags[m],
    decreases tags.len() - k,
{
    if k < tags.len() && !(tags[k] is Id) {
        lemma_tags_with_id_keeps(tags, id, k + 1, m);
    }
}

proof fn lemma_tags_with_id_identity(tags: Seq<Tag>, id: NodeId, j: int, name: Option<Seq<char>>)
    requires
        0 <= j <= tags.len(),
    ensures
        tags_identity(tags_with_id(tags, id, j), j, name) == id.static_of(),
    decreases tags.len() - j,
{
    if j < tags.len() && !(tags[j] is Id) {
        lemma_tags_with_id_identity(tags, id, j + 1, Some(tags[j]->Name_0@));
        lemma_tags_with_id_keeps(tags, id, j + 1, j);
    }
}

/// A script given the identity `id` has that identity.
pub proof fn lemma_set_id_identity(tags: Seq<Tag>, id: NodeId)
    ensures
        tags_identity(tags_with_id(tags, id, 0), 0, None) == id.static_of(),
{
    lemma_tags_with_id_identity(tags, id, 0, None);
}

} // verus!

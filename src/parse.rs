//! The pieces of the node text format: blanks, words, numbers, strings, and
//! where in a text a character stands.
//!
//! Every reader takes the text and a place in it, and gives what it read with
//! the place after it. Each is stated by a spec function of the same name
//! over the text's characters.

use vstd::prelude::*;
use crate::error::Position;
use crate::text::{digit_value, digits_value, is_digit};

verus! {

pub open spec fn is_blank(c: char) -> bool {
    c == ' ' || c == '\t' || c == '\n' || c == '\r'
}

pub open spec fn is_word_char(c: char) -> bool {
    ('a' <= c && c <= 'z') || ('A' <= c && c <= 'Z') || ('0' <= c && c <= '9') || c == '_'
}

/// The first place from `i` on that holds no blank.
pub open spec fn spec_skip_blanks(t: Seq<char>, i: int) -> int
    decreases t.len() - i,
{
    if 0 <= i < t.len() && is_blank(t[i]) {
        spec_skip_blanks(t, i + 1)
    } else {
        i
    }
}

/// The end of the run of word characters that starts at `i`.
pub open spec fn spec_word_end(t: Seq<char>, i: int) -> int
    decreases t.len() - i,
{
    if 0 <= i < t.len() && is_word_char(t[i]) {
        spec_word_end(t, i + 1)
    } else {
        i
    }
}

/// The end of the run of decimal digits that starts at `i`.
pub open spec fn spec_digits_end(t: Seq<char>, i: int) -> int
    decreases t.len() - i,
{
    if 0 <= i < t.len() && is_digit(t[i]) {
        spec_digits_end(t, i + 1)
    } else {
        i
    }
}

/// The unsigned number written at `i`, and the place after it.
pub open spec fn spec_uint(t: Seq<char>, i: int) -> Option<(nat, int)> {
    let j = spec_digits_end(t, i);
    if j == i {
        None
    } else {
        Some((digits_value(t.subrange(i, j)), j))
    }
}

/// The rest of a string literal from `k` on, after `acc` was read: a `\`
/// takes the next character as it is, and a `"` ends the literal.
pub open spec fn spec_string_rest(t: Seq<char>, k: int, acc: Seq<char>) -> Option<(Seq<char>, int)>
    decreases t.len() - k,
{
    if k < 0 || k >= t.len() {
        None
    } else if t[k] == '"' {
        Some((acc, k + 1))
    } else if t[k] == '\\' {
        if k + 1 < t.len() {
            spec_string_rest(t, k + 2, acc.push(t[k + 1]))
        } else {
            None
        }
    } else {
        spec_string_rest(t, k + 1, acc.push(t[k]))
    }
}

/// The string literal at `i`, and the place after its closing quote.
pub open spec fn spec_string(t: Seq<char>, i: int) -> Option<(Seq<char>, int)> {
    if 0 <= i < t.len() && t[i] == '"' {
        spec_string_rest(t, i + 1, Seq::empty())
    } else {
        None
    }
}

/// Whether `w` is written at `i`.
pub open spec fn spec_has_at(t: Seq<char>, i: int, w: Seq<char>) -> bool {
    0 <= i && i + w.len() <= t.len() && t.subrange(i, i + w.len()) == w
}

/// The line of place `i`: the line breaks before it.
pub open spec fn spec_line(t: Seq<char>, i: int) -> nat
    decreases i,
{
    if i <= 0 || i > t.len() {
        0
    } else if t[i - 1] == '\n' {
        spec_line(t, i - 1) + 1
    } else {
        spec_line(t, i - 1)
    }
}

/// The column of place `i`: the characters between the last line break
/// before it and it.
pub open spec fn spec_col(t: Seq<char>, i: int) -> nat
    decreases i,
{
    if i <= 0 || i > t.len() {
        0
    } else if t[i - 1] == '\n' {
        0
    } else {
        spec_col(t, i - 1) + 1
    }
}

/// The characters of `s`.
pub fn chars_of(s: &str) -> (r: Vec<char>)
    ensures
        r@ == s@,
{
    let n = s.unicode_len();
    let mut out: Vec<char> = Vec::new();
    let mut i: usize = 0;
    while i < n
        invariant
            n == s@.len(),
            i <= n,
            out@ == s@.subrange(0, i as int),
        decreases n - i,
    {
        out.push(s.get_char(i));
        assert(out@ =~= s@.subrange(0, i + 1));
        i = i + 1;
    }
    assert(out@ =~= s@);
    out
}

/// The `String` of the characters `t[from..to]`.
pub fn string_of(t: &Vec<char>, from: usize, to: usize) -> (r: String)
    requires
        from <= to <= t@.len(),
    ensures
        r@ == t@.subrange(from as int, to as int),
{
    let mut out = String::new();
    let mut i = from;
    while i < to
        invariant
            from <= i <= to <= t@.len(),
            out@ == t@.subrange(from as int, i as int),
        decreases to - i,
    {
        crate::text::push_char(&mut out, t[i]);
        assert(out@ =~= t@.subrange(from as int, i + 1));
        i = i + 1;
    }
    out
}

/// The `String` of the characters `s`.
pub fn string_from(s: &Vec<char>) -> (r: String)
    ensures
        r@ == s@,
{
    let r = string_of(s, 0, s.len());
    assert(s@.subrange(0, s@.len() as int) =~= s@);
    r
}

/// The line and column of place `i`, counted from one.
pub fn file_position(t: &Vec<char>, i: usize) -> (r: Position)
    requires
        i <= t@.len(),
    ensures
        r.line == one_based(spec_line(t@, i as int)),
        r.col == one_based(spec_col(t@, i as int)),
{
    let mut line: usize = 0;
    let mut col: usize = 0;
    let mut k: usize = 0;
    while k < i
        invariant
            k <= i <= t@.len(),
            line == spec_line(t@, k as int),
            col == spec_col(t@, k as int),
            line <= k,
            col <= k,
        decreases i - k,
    {
        if t[k] == '\n' {
            line = line + 1;
            col = 0;
        } else {
            col = col + 1;
        }
        k = k + 1;
    }
    Position {
        line: if line < usize::MAX { line + 1 } else { line },
        col: if col < usize::MAX { col + 1 } else { col },
    }
}

/// A count from zero as a count from one (no further than the largest
/// `usize`).
pub open spec fn one_based(n: nat) -> usize {
    if n < usize::MAX { (n + 1) as usize } else { usize::MAX }
}

pub fn skip_blanks(t: &Vec<char>, i: usize) -> (r: usize)
    requires
        i <= t@.len(),
    ensures
        r == spec_skip_blanks(t@, i as int),
        i <= r <= t@.len(),
{
    let mut k = i;
    while k < t.len() && (t[k] == ' ' || t[k] == '\t' || t[k] == '\n' || t[k] == '\r')
        invariant
            i <= k <= t@.len(),
            spec_skip_blanks(t@, k as int) == spec_skip_blanks(t@, i as int),
        decreases t@.len() - k,
    {
        k = k + 1;
    }
    k
}

pub fn word_char(c: char) -> (r: bool)
    ensures
        r == is_word_char(c),
{
    ('a' <= c && c <= 'z') || ('A' <= c && c <= 'Z') || ('0' <= c && c <= '9') || c == '_'
}

pub fn word_end(t: &Vec<char>, i: usize) -> (r: usize)
    requires
        i <= t@.len(),
    ensures
        r == spec_word_end(t@, i as int),
        i <= r <= t@.len(),
{
    let mut k = i;
    while k < t.len() && word_char(t[k])
        invariant
            i <= k <= t@.len(),
            spec_word_end(t@, k as int) == spec_word_end(t@, i as int),
        decreases t@.len() - k,
    {
        k = k + 1;
    }
    k
}

proof fn lemma_digits_value_push(s: Seq<char>, c: char)
    ensures
        digits_value(s.push(c)) == digits_value(s) * 10 + digit_value(c),
{
    assert(s.push(c).drop_last() =~= s);
}

/// The unsigned number written at `i`; none where no digit stands there or
/// the number does not fit in 64 bits.
pub fn read_uint(t: &Vec<char>, i: usize) -> (r: Option<(u64, usize)>)
    requires
        i <= t@.len(),
    ensures
        r matches Some((n, j)) ==> spec_uint(t@, i as int) == Some((n as nat, j as int)) && j <= t@.len(),
        r is None ==> (spec_uint(t@, i as int) is None || spec_uint(t@, i as int).unwrap().0 > u64::MAX),
{
    let mut k = i;
    let mut value: u64 = 0;
    let mut overflow = false;
    while k < t.len() && '0' <= t[k] && t[k] <= '9'
        invariant
            i <= k <= t@.len(),
            spec_digits_end(t@, k as int) == spec_digits_end(t@, i as int),
            !overflow ==> value as nat == digits_value(t@.subrange(i as int, k as int)),
            overflow ==> digits_value(t@.subrange(i as int, k as int)) > u64::MAX,
        decreases t@.len() - k,
    {
        let d = (t[k] as u32 - '0' as u32) as u64;
        proof {
            lemma_digits_value_push(t@.subrange(i as int, k as int), t@[k as int]);
            assert(t@.subrange(i as int, k + 1) =~= t@.subrange(i as int, k as int).push(t@[k as int]));
        }
        if !overflow && value <= (u64::MAX - d) / 10 {
            value = value * 10 + d;
        } else {
            overflow = true;
        }
        k = k + 1;
    }
    if k == i || overflow {
        None
    } else {
        Some((value, k))
    }
}

/// The string literal at `i`.
pub fn read_string(t: &Vec<char>, i: usize) -> (r: Option<(String, usize)>)
    requires
        i <= t@.len(),
    ensures
        r matches Some((s, j)) ==> spec_string(t@, i as int) == Some((s@, j as int)) && j <= t@.len(),
        r is None ==> spec_string(t@, i as int) is None,
{
    if i >= t.len() || t[i] != '"' {
        return None;
    }
    let mut acc: Vec<char> = Vec::new();
    let mut k = i + 1;
    while k < t.len()
        invariant
            i < k <= t@.len(),
            spec_string_rest(t@, k as int, acc@) == spec_string(t@, i as int),
        decreases t@.len() - k,
    {
        if t[k] == '"' {
            return Some((string_from(&acc), k + 1));
        } else if t[k] == '\\' {
            if k + 1 < t.len() {
                acc.push(t[k + 1]);
                k = k + 2;
            } else {
                return None;
            }
        } else {
            acc.push(t[k]);
            k = k + 1;
        }
    }
    None
}

/// Whether `w` is written at `i`.
pub fn has_at(t: &Vec<char>, i: usize, w: &str) -> (r: bool)
    requires
        i <= t@.len(),
    ensures
        r == spec_has_at(t@, i as int, w@),
{
    let n = w.unicode_len();
    if n > t.len() - i {
        return false;
    }
    let mut k: usize = 0;
    while k < n
        invariant
            n == w@.len(),
            i + n <= t@.len(),
            t@.len() <= usize::MAX,
            k <= n,
            t@.subrange(i as int, i + k) == w@.subrange(0, k as int),
        decreases n - k,
    {
        if t[i + k] != w.get_char(k) {
            assert(t@.subrange(i as int, i + n)[k as int] != w@[k as int]);
            return false;
        }
        assert(t@.subrange(i as int, i + k + 1) =~= t@.subrange(i as int, i + k).push(t@[i + k]));
        assert(w@.subrange(0, k + 1) =~= w@.subrange(0, k as int).push(w@[k as int]));
        k = k + 1;
    }
    assert(w@.subrange(0, n as int) =~= w@);
    true
}

pub open spec fn is_hex_digit(c: char) -> bool {
    ('0' <= c && c <= '9') || ('a' <= c && c <= 'f') || ('A' <= c && c <= 'F')
}

/// The value of a hexadecimal digit character.
pub open spec fn hex_digit_value(c: char) -> nat {
    if '0' <= c && c <= '9' {
        (c as u32 - '0' as u32) as nat
    } else if 'a' <= c && c <= 'f' {
        (c as u32 - 'a' as u32 + 10) as nat
    } else {
        (c as u32 - 'A' as u32 + 10) as nat
    }
}

/// The number that a run of hexadecimal digits stands for.
pub open spec fn hex_value(s: Seq<char>) -> nat
    decreases s.len(),
{
    if s.len() == 0 { 0 } else { hex_value(s.drop_last()) * 16 + hex_digit_value(s.last()) }
}

/// The end of the run of hexadecimal digits that starts at `i`.
pub open spec fn spec_hex_end(t: Seq<char>, i: int) -> int
    decreases t.len() - i,
{
    if 0 <= i < t.len() && is_hex_digit(t[i]) {
        spec_hex_end(t, i + 1)
    } else {
        i
    }
}

/// The number written at `i` in hexadecimal after `0x`, and the place after
/// it; none where it does not fit in 64 bits.
pub open spec fn spec_hex(t: Seq<char>, i: int) -> Option<(nat, int)> {
    if spec_has_at(t, i, "0x"@) {
        let e = spec_hex_end(t, i + 2);
        if e == i + 2 || hex_value(t.subrange(i + 2, e)) > u64::MAX {
            None
        } else {
            Some((hex_value(t.subrange(i + 2, e)), e))
        }
    } else {
        None
    }
}

/// The number written at `i` in hexadecimal after `0x`.
pub fn read_hex(t: &Vec<char>, i: usize) -> (r: Option<(u64, usize)>)
    requires
        i <= t@.len(),
    ensures
        r matches Some((n, j)) ==> spec_hex(t@, i as int) == Some((n as nat, j as int)) && j <= t@.len(),
        r is None ==> spec_hex(t@, i as int) is None,
{
    proof {
        reveal_strlit("0x");
    }
    if !(t.len() - i >= 2 && has_at(t, i, "0x")) {
        return None;
    }
    let start = i + 2;
    let mut k = start;
    let mut value: u64 = 0;
    let mut overflow = false;
    while k < t.len() && (('0' <= t[k] && t[k] <= '9') || ('a' <= t[k] && t[k] <= 'f') || ('A' <= t[k] && t[k] <= 'F'))
        invariant
            start <= k <= t@.len(),
            spec_hex_end(t@, k as int) == spec_hex_end(t@, start as int),
            !overflow ==> value as nat == hex_value(t@.subrange(start as int, k as int)),
            overflow ==> hex_value(t@.subrange(start as int, k as int)) > u64::MAX,
        decreases t@.len() - k,
    {
        let c = t[k];
        let d: u64 = if '0' <= c && c <= '9' {
            (c as u32 - '0' as u32) as u64
        } else if 'a' <= c && c <= 'f' {
            (c as u32 - 'a' as u32 + 10) as u64
        } else {
            (c as u32 - 'A' as u32 + 10) as u64
        };
        proof {
            let pre = t@.subrange(start as int, k as int);
            assert(t@.subrange(start as int, k + 1) =~= pre.push(c));
            assert(pre.push(c).drop_last() =~= pre);
            assert(d as nat == hex_digit_value(c));
        }
        if !overflow && value <= (u64::MAX - d) / 16 {
            value = value * 16 + d;
        } else {
            overflow = true;
        }
        k = k + 1;
    }
    if k == start || overflow {
        None
    } else {
        Some((value, k))
    }
}

} // verus!

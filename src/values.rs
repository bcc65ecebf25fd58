//! Readers for the values of node fields: flags, paths, lists of paths, and
//! times written in seconds.

use vstd::prelude::*;
use crate::parse::{
    has_at, read_string, read_uint, skip_blanks, spec_digits_end, spec_has_at, spec_skip_blanks,
    spec_string, spec_uint, string_of,
};
use crate::text::{digits_value, is_digit};
use crate::key_text::lemma_string_end;

verus! {

/// The flag written at `i`.
pub open spec fn spec_bool(t: Seq<char>, i: int) -> Option<(bool, int)> {
    if spec_has_at(t, i, "true"@) {
        Some((true, i + 4))
    } else if spec_has_at(t, i, "false"@) {
        Some((false, i + 5))
    } else {
        None
    }
}

pub open spec fn is_bare_char(c: char) -> bool {
    !(c == ' ' || c == '\t' || c == '\n' || c == '\r' || c == ',' || c == ']' || c == '[' || c == ')'
        || c == '(' || c == '"')
}

/// The end of the unquoted path that starts at `i`.
pub open spec fn spec_bare_end(t: Seq<char>, i: int) -> int
    decreases t.len() - i,
{
    if 0 <= i < t.len() && is_bare_char(t[i]) {
        spec_bare_end(t, i + 1)
    } else {
        i
    }
}

/// The path written at `i`: a string literal, or a run of characters that
/// are no blank, bracket, comma or quote.
pub open spec fn spec_path(t: Seq<char>, i: int) -> Option<(Seq<char>, int)> {
    match spec_string(t, i) {
        Some(r) => Some(r),
        None => {
            let e = spec_bare_end(t, i);
            if e == i {
                None
            } else {
                Some((t.subrange(i, e), e))
            }
        },
    }
}

/// The items of a path list from `i` on, after those in `acc`, up to `]`.
pub open spec fn spec_path_items(t: Seq<char>, i: int, acc: Seq<Seq<char>>) -> Option<(Seq<Seq<char>>, int)>
    decreases t.len() - i,
{
    let a = spec_skip_blanks(t, i);
    if i < 0 || a >= t.len() {
        None
    } else if t[a] == ']' {
        Some((acc, a + 1))
    } else {
        match spec_path(t, a) {
            None => None,
            Some((p, m)) => {
                let b = spec_skip_blanks(t, m);
                if b + 1 <= i || b >= t.len() {
                    None
                } else if t[b] == ',' {
                    spec_path_items(t, b + 1, acc.push(p))
                } else if t[b] == ']' {
                    Some((acc.push(p), b + 1))
                } else {
                    None
                }
            },
        }
    }
}

/// The list of paths `[a, b, ...]` written at `i`.
pub open spec fn spec_path_list(t: Seq<char>, i: int) -> Option<(Seq<Seq<char>>, int)> {
    if 0 <= i < t.len() && t[i] == '[' {
        spec_path_items(t, i + 1, Seq::empty())
    } else {
        None
    }
}

pub open spec fn pow10(n: nat) -> nat
    decreases n,
{
    if n == 0 { 1 } else { 10 * pow10((n - 1) as nat) }
}

/// A time in seconds written at `i`, as whole microseconds: digits, then at
/// most six decimals after a point; none where it does not fit in 64 bits.
pub open spec fn spec_seconds(t: Seq<char>, i: int) -> Option<(nat, int)> {
    match spec_seconds_any(t, i) {
        Some((us, j)) => if us <= u64::MAX { Some((us, j)) } else { None },
        None => None,
    }
}

pub open spec fn spec_seconds_any(t: Seq<char>, i: int) -> Option<(nat, int)> {
    match spec_uint(t, i) {
        None => None,
        Some((whole, m)) => {
            if 0 <= m < t.len() && t[m] == '.' {
                let d = spec_digits_end(t, m + 1);
                let places = d - (m + 1);
                if places < 1 || places > 6 {
                    None
                } else {
                    Some((whole * 1000000 + digits_value(t.subrange(m + 1, d)) * pow10((6 - places) as nat), d))
                }
            } else {
                Some((whole * 1000000, m))
            }
        },
    }
}

/// The items of a list of `(path, seconds)` pairs from `i` on.
pub open spec fn spec_timed_items(t: Seq<char>, i: int, acc: Seq<(Seq<char>, nat)>) -> Option<(Seq<(Seq<char>, nat)>, int)>
    decreases t.len() - i,
{
    let a = spec_skip_blanks(t, i);
    if i < 0 || a >= t.len() {
        None
    } else if t[a] == ']' {
        Some((acc, a + 1))
    } else if t[a] != '(' {
        None
    } else {
        match spec_path(t, spec_skip_blanks(t, a + 1)) {
            None => None,
            Some((p, m)) => {
                let c = spec_skip_blanks(t, m);
                if !(c < t.len() && t[c] == ',') {
                    None
                } else {
                    match spec_seconds(t, spec_skip_blanks(t, c + 1)) {
                        None => None,
                        Some((us, n)) => {
                            let q = spec_skip_blanks(t, n);
                            if !(q < t.len() && t[q] == ')') {
                                None
                            } else {
                                let b = spec_skip_blanks(t, q + 1);
                                if b >= t.len() || b + 1 <= i {
                                    None
                                } else if t[b] == ',' {
                                    spec_timed_items(t, b + 1, acc.push((p, us)))
                                } else if t[b] == ']' {
                                    Some((acc.push((p, us)), b + 1))
                                } else {
                                    None
                                }
                            }
                        },
                    }
                }
            },
        }
    }
}

/// The list of `(path, seconds)` pairs written at `i`.
pub open spec fn spec_timed_list(t: Seq<char>, i: int) -> Option<(Seq<(Seq<char>, nat)>, int)> {
    if 0 <= i < t.len() && t[i] == '[' {
        spec_timed_items(t, i + 1, Seq::empty())
    } else {
        None
    }
}

pub fn read_bool(t: &Vec<char>, i: usize) -> (r: Option<(bool, usize)>)
    requires
        i <= t@.len(),
    ensures
        r matches Some((b, j)) ==> spec_bool(t@, i as int) == Some((b, j as int)) && j <= t@.len(),
        r is None ==> spec_bool(t@, i as int) is None,
{
    proof {
        reveal_strlit("true");
        reveal_strlit("false");
    }
    if t.len() - i >= 4 && has_at(t, i, "true") {
        assert("true"@.len() == 4);
        Some((true, i + 4))
    } else if t.len() - i >= 5 && has_at(t, i, "false") {
        assert("false"@.len() == 5);
        Some((false, i + 5))
    } else {
        None
    }
}

fn bare_char(c: char) -> (r: bool)
    ensures
        r == is_bare_char(c),
{
    !(c == ' ' || c == '\t' || c == '\n' || c == '\r' || c == ',' || c == ']' || c == '[' || c == ')'
        || c == '(' || c == '"')
}

pub fn read_path(t: &Vec<char>, i: usize) -> (r: Option<(String, usize)>)
    requires
        i <= t@.len(),
    ensures
        r matches Some((p, j)) ==> spec_path(t@, i as int) == Some((p@, j as int)) && i < j <= t@.len(),
        r is None ==> spec_path(t@, i as int) is None,
{
    proof {
        lemma_string_end(t@, i as int);
    }
    if let Some(r) = read_string(t, i) {
        return Some(r);
    }
    let mut e = i;
    while e < t.len() && bare_char(t[e])
        invariant
            i <= e <= t@.len(),
            spec_bare_end(t@, e as int) == spec_bare_end(t@, i as int),
        decreases t@.len() - e,
    {
        e = e + 1;
    }
    if e == i {
        None
    } else {
        Some((string_of(t, i, e), e))
    }
}

pub fn read_path_list(t: &Vec<char>, i: usize) -> (r: Option<(Vec<String>, usize)>)
    requires
        i <= t@.len(),
    ensures
        r matches Some((ps, j)) ==> spec_path_list(t@, i as int) == Some((ps@.map_values(|p: String| p@), j as int)) && j <= t@.len(),
        r is None ==> spec_path_list(t@, i as int) is None,
{
    if !(i < t.len() && t[i] == '[') {
        return None;
    }
    let mut items: Vec<String> = Vec::new();
    let mut p = i + 1;
    let ghost goal = spec_path_list(t@, i as int);
    assert(items@.map_values(|s: String| s@) =~= Seq::<Seq<char>>::empty());
    let mut out: Option<Option<usize>> = None;
    while out.is_none()
        invariant
            i < p <= t@.len(),
            out is None ==> spec_path_items(t@, p as int, items@.map_values(|s: String| s@)) == goal,
            out matches Some(Some(j)) ==> goal == Some((items@.map_values(|s: String| s@), j as int)) && j <= t@.len(),
            out matches Some(None) ==> goal is None,
        decreases t@.len() - p, if out is None { 1int } else { 0int },
    {
        let a = skip_blanks(t, p);
        if a >= t.len() {
            out = Some(None);
        } else if t[a] == ']' {
            out = Some(Some(a + 1));
        } else {
            match read_path(t, a) {
                None => {
                    out = Some(None);
                },
                Some((s, m)) => {
                    let b = skip_blanks(t, m);
                    let ghost before = items@;
                    if b >= t.len() || b + 1 <= p {
                        out = Some(None);
                    } else if t[b] == ',' {
                        items.push(s);
                        proof {
                            assert(items@.map_values(|s: String| s@) =~= before.map_values(|s: String| s@).push(s@));
                        }
                        p = b + 1;
                    } else if t[b] == ']' {
                        items.push(s);
                        proof {
                            assert(items@.map_values(|s: String| s@) =~= before.map_values(|s: String| s@).push(s@));
                        }
                        out = Some(Some(b + 1));
                    } else {
                        out = Some(None);
                    }
                },
            }
        }
    }
    match out {
        Some(Some(j)) => Some((items, j)),
        _ => None,
    }
}

fn read_fraction(t: &Vec<char>, from: usize, to: usize) -> (r: u64)
    requires
        from <= to <= t@.len(),
        to - from <= 6,
        forall|k: int| from <= k < to ==> is_digit(#[trigger] t@[k]),
    ensures
        r as nat == digits_value(t@.subrange(from as int, to as int)) * pow10((6 - (to - from)) as nat),
{
    let mut v: u64 = 0;
    let mut k = from;
    while k < to
        invariant
            from <= k <= to,
            to <= t@.len(),
            to - from <= 6,
            v as nat == digits_value(t@.subrange(from as int, k as int)),
            v < pow10((k - from) as nat),
            forall|q: int| from <= q < to ==> is_digit(#[trigger] t@[q]),
        decreases to - k,
    {
        let d = (t[k] as u32 - '0' as u32) as u64;
        proof {
            let s = t@.subrange(from as int, k as int);
            assert(t@.subrange(from as int, k + 1) =~= s.push(t@[k as int]));
            assert(s.push(t@[k as int]).drop_last() =~= s);
            assert(pow10((k + 1 - from) as nat) == 10 * pow10((k - from) as nat));
            lemma_pow10_small((k - from) as nat);
            assert(v * 10 + d < 10 * pow10((k - from) as nat)) by (nonlinear_arith)
                requires v < pow10((k - from) as nat), d < 10;
        }
        v = v * 10 + d;
        k = k + 1;
    }
    let places = to - from;
    proof {
        reveal_with_fuel(pow10, 7);
        lemma_pow10_small(places as nat);
    }
    let scale: u64 = if places == 0 {
        1000000
    } else if places == 1 {
        100000
    } else if places == 2 {
        10000
    } else if places == 3 {
        1000
    } else if places == 4 {
        100
    } else if places == 5 {
        10
    } else {
        1
    };
    proof {
        assert(v as nat * scale as nat <= 1000000 * 1000000) by (nonlinear_arith)
            requires v <= 1000000, scale <= 1000000;
    }
    v * scale
}

proof fn lemma_pow10_small(n: nat)
    requires
        n <= 6,
    ensures
        pow10(n) <= 1000000,
        pow10(n) >= 1,
{
    reveal_with_fuel(pow10, 7);
}

/// A time in seconds written at `i`, as whole microseconds; none where it
/// is not written so or does not fit in 64 bits.
pub fn read_seconds(t: &Vec<char>, i: usize) -> (r: Option<(u64, usize)>)
    requires
        i <= t@.len(),
    ensures
        r matches Some((us, j)) ==> spec_seconds(t@, i as int) == Some((us as nat, j as int)) && j <= t@.len(),
        r is None ==> spec_seconds(t@, i as int) is None,
{
    let (whole, m) = match read_uint(t, i) {
        Some(x) => x,
        None => {
            return None;
        },
    };
    if whole > u64::MAX / 1000000 {
        return None;
    }
    let base = whole * 1000000;
    if m < t.len() && t[m] == '.' {
        let mut d = m + 1;
        while d < t.len() && '0' <= t[d] && t[d] <= '9'
            invariant
                m + 1 <= d <= t@.len(),
                spec_digits_end(t@, d as int) == spec_digits_end(t@, m + 1),
                forall|k: int| m + 1 <= k < d ==> is_digit(#[trigger] t@[k]),
            decreases t@.len() - d,
        {
            d = d + 1;
        }
        let places = d - (m + 1);
        if places < 1 || places > 6 {
            return None;
        }
        let frac = read_fraction(t, m + 1, d);
        if frac > u64::MAX - base {
            return None;
        }
        Some((base + frac, d))
    } else {
        Some((base, m))
    }
}

pub fn read_timed_list(t: &Vec<char>, i: usize) -> (r: Option<(Vec<(String, u64)>, usize)>)
    requires
        i <= t@.len(),
    ensures
        r matches Some((ps, j)) ==> spec_timed_list(t@, i as int) == Some((ps@.map_values(|p: (String, u64)| (p.0@, p.1 as nat)), j as int)) && j <= t@.len(),
        r is None ==> spec_timed_list(t@, i as int) is None,
{
    if !(i < t.len() && t[i] == '[') {
        return None;
    }
    let mut items: Vec<(String, u64)> = Vec::new();
    let mut p = i + 1;
    let ghost goal = spec_timed_list(t@, i as int);
    assert(items@.map_values(|p: (String, u64)| (p.0@, p.1 as nat)) =~= Seq::<(Seq<char>, nat)>::empty());
    let mut out: Option<Option<usize>> = None;
    while out.is_none()
        invariant
            i < p <= t@.len(),
            out is None ==> spec_timed_items(t@, p as int, items@.map_values(|p: (String, u64)| (p.0@, p.1 as nat))) == goal,
            out matches Some(Some(j)) ==> goal == Some((items@.map_values(|p: (String, u64)| (p.0@, p.1 as nat)), j as int)) && j <= t@.len(),
            out matches Some(None) ==> goal is None,
        decreases t@.len() - p, if out is None { 1int } else { 0int },
    {
        let a = skip_blanks(t, p);
        if a >= t.len() {
            out = Some(None);
        } else if t[a] == ']' {
            out = Some(Some(a + 1));
        } else if t[a] != '(' {
            out = Some(None);
        } else {
            let a1 = skip_blanks(t, a + 1);
            match read_path(t, a1) {
                None => {
                    out = Some(None);
                },
                Some((s, m)) => {
                    let c = skip_blanks(t, m);
                    if !(c < t.len() && t[c] == ',') {
                        out = Some(None);
                    } else {
                        let c1 = skip_blanks(t, c + 1);
                        match read_seconds(t, c1) {
                            None => {
                                out = Some(None);
                            },
                            Some((us, n)) => {
                                let q = skip_blanks(t, n);
                                if !(q < t.len() && t[q] == ')') {
                                    out = Some(None);
                                } else {
                                    let b = skip_blanks(t, q + 1);
                                    let ghost before = items@;
                                    if b >= t.len() || b + 1 <= p {
                                        out = Some(None);
                                    } else if t[b] == ',' {
                                        items.push((s, us));
                                        proof {
                                            assert(items@.map_values(|p: (String, u64)| (p.0@, p.1 as nat)) =~= before.map_values(|p: (String, u64)| (p.0@, p.1 as nat)).push((s@, us as nat)));
                                        }
                                        p = b + 1;
                                    } else if t[b] == ']' {
                                        items.push((s, us));
                                        proof {
                                            assert(items@.map_values(|p: (String, u64)| (p.0@, p.1 as nat)) =~= before.map_values(|p: (String, u64)| (p.0@, p.1 as nat)).push((s@, us as nat)));
                                        }
                                        out = Some(Some(b + 1));
                                    } else {
                                        out = Some(None);
                                    }
                                }
                            },
                        }
                    }
                },
            }
        }
    }
    match out {
        Some(Some(j)) => Some((items, j)),
        _ => None,
    }
}

} // verus!

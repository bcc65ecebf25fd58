//! The field list of a node body: `(name: value, name: value, ...)`.
//!
//! A value runs to the next `,` or closing bracket that is not nested inside
//! brackets or a string literal, so a value may itself hold lists and pairs.

use vstd::prelude::*;
use crate::error::ParseIssue;
use crate::parse::{is_blank, skip_blanks, spec_skip_blanks, spec_word_end, word_end};

verus! {

/// Where the value that starts at `k` ends, at bracket depth `depth`, inside
/// a string literal or not.
pub open spec fn spec_scan(t: Seq<char>, k: int, depth: nat, in_str: bool) -> int
    decreases t.len() - k,
{
    if k < 0 || k >= t.len() {
        t.len() as int
    } else if in_str {
        if t[k] == '\\' {
            if k + 1 >= t.len() { t.len() as int } else { spec_scan(t, k + 2, depth, true) }
        } else if t[k] == '"' {
            spec_scan(t, k + 1, depth, false)
        } else {
            spec_scan(t, k + 1, depth, true)
        }
    } else if t[k] == '"' {
        spec_scan(t, k + 1, depth, true)
    } else if t[k] == '(' || t[k] == '[' {
        spec_scan(t, k + 1, depth + 1, false)
    } else if t[k] == ')' || t[k] == ']' {
        if depth == 0 { k } else { spec_scan(t, k + 1, (depth - 1) as nat, false) }
    } else if t[k] == ',' && depth == 0 {
        k
    } else {
        spec_scan(t, k + 1, depth, false)
    }
}

pub proof fn lemma_scan_bounds(t: Seq<char>, k: int, depth: nat, in_str: bool)
    requires
        0 <= k,
    ensures
        k <= spec_scan(t, k, depth, in_str) <= t.len() || (k > t.len() && spec_scan(t, k, depth, in_str) == t.len()),
    decreases t.len() - k,
{
    if k < t.len() {
        if in_str {
            if t[k] == '\\' {
                if k + 1 < t.len() {
                    lemma_scan_bounds(t, k + 2, depth, true);
                }
            } else if t[k] == '"' {
                lemma_scan_bounds(t, k + 1, depth, false);
            } else {
                lemma_scan_bounds(t, k + 1, depth, true);
            }
        } else if t[k] == '"' {
            lemma_scan_bounds(t, k + 1, depth, true);
        } else if t[k] == '(' || t[k] == '[' {
            lemma_scan_bounds(t, k + 1, depth + 1, false);
        } else if t[k] == ')' || t[k] == ']' {
            if depth > 0 {
                lemma_scan_bounds(t, k + 1, (depth - 1) as nat, false);
            }
        } else if !(t[k] == ',' && depth == 0) {
            lemma_scan_bounds(t, k + 1, depth, false);
        }
    }
}

/// One field: its name, and where its value starts and ends.
#[derive(Debug)]
pub struct FieldSpan {
    pub name_start: usize,
    pub name_end: usize,
    pub start: usize,
    pub end: usize,
}

/// The fields from place `i` on, after those in `acc`, up to the closing `)`:
/// the fields and the place after the `)`, or what was wrong and where.
pub open spec fn spec_fields(t: Seq<char>, i: int, acc: Seq<FieldSpan>) -> Result<(Seq<FieldSpan>, int), (ParseIssue, int)>
    decreases t.len() - i,
{
    let a = spec_skip_blanks(t, i);
    if i < 0 || a >= t.len() {
        Err((ParseIssue::Expected(')'), a))
    } else if t[a] == ')' {
        Ok((acc, a + 1))
    } else {
        let e = spec_word_end(t, a);
        let c = spec_skip_blanks(t, e);
        if e == a {
            Err((ParseIssue::UnknownField, a))
        } else if c >= t.len() || t[c] != ':' {
            Err((ParseIssue::Expected(':'), c))
        } else {
            let v0 = spec_skip_blanks(t, c + 1);
            let v1 = spec_scan(t, v0, 0, false);
            let f = FieldSpan { name_start: a as usize, name_end: e as usize, start: v0 as usize, end: v1 as usize };
            if v1 >= t.len() {
                Err((ParseIssue::Expected(')'), v1))
            } else if t[v1] == ',' {
                if v1 + 1 <= i { Err((ParseIssue::Expected(')'), v1)) } else { spec_fields(t, v1 + 1, acc.push(f)) }
            } else if t[v1] == ')' {
                Ok((acc.push(f), v1 + 1))
            } else {
                Err((ParseIssue::Expected(')'), v1))
            }
        }
    }
}

proof fn lemma_push_span(t: Seq<char>, fs: Seq<FieldSpan>, f: FieldSpan)
    requires
        crate::node_text::spans_ok(t, fs),
        f.name_start <= f.name_end <= f.start <= f.end <= t.len(),
    ensures
        crate::node_text::spans_ok(t, fs.push(f)),
{
    assert forall|k: int| 0 <= k < fs.push(f).len() implies {
        let g = #[trigger] fs.push(f)[k];
        g.name_start <= g.name_end <= g.start <= g.end <= t.len()
    } by {
        if k < fs.len() {
            assert(fs.push(f)[k] == fs[k]);
        }
    }
}

/// The field list of a body that starts at `i` with `(`.
pub open spec fn spec_body(t: Seq<char>, i: int) -> Result<(Seq<FieldSpan>, int), (ParseIssue, int)> {
    let a = spec_skip_blanks(t, i);
    if 0 <= a < t.len() && t[a] == '(' {
        spec_fields(t, a + 1, Seq::empty())
    } else {
        Err((ParseIssue::Expected('('), a))
    }
}

/// Where the value from `k` on ends.
pub fn scan(t: &Vec<char>, k: usize) -> (r: usize)
    requires
        k <= t@.len(),
    ensures
        r == spec_scan(t@, k as int, 0, false),
        k <= r <= t@.len(),
{
    proof {
        lemma_scan_bounds(t@, k as int, 0, false);
    }
    let mut p = k;
    let mut depth: usize = 0;
    let mut in_str = false;
    while p < t.len()
        invariant
            k <= p <= t@.len(),
            depth <= p,
            spec_scan(t@, p as int, depth as nat, in_str) == spec_scan(t@, k as int, 0, false),
        decreases t@.len() - p,
    {
        let c = t[p];
        if in_str {
            if c == '\\' {
                if p + 1 >= t.len() {
                    return t.len();
                }
                p = p + 2;
            } else if c == '"' {
                in_str = false;
                p = p + 1;
            } else {
                p = p + 1;
            }
        } else if c == '"' {
            in_str = true;
            p = p + 1;
        } else if c == '(' || c == '[' {
            depth = depth + 1;
            p = p + 1;
        } else if c == ')' || c == ']' {
            if depth == 0 {
                return p;
            }
            depth = depth - 1;
            p = p + 1;
        } else if c == ',' && depth == 0 {
            return p;
        } else {
            p = p + 1;
        }
    }
    t.len()
}

/// The fields of the body that starts at `i`, or what was wrong and where.
pub fn read_body(t: &Vec<char>, i: usize) -> (r: Result<(Vec<FieldSpan>, usize), (ParseIssue, usize)>)
    requires
        i <= t@.len(),
    ensures
        r matches Ok((fs, j)) ==> spec_body(t@, i as int) == Ok::<(Seq<FieldSpan>, int), (ParseIssue, int)>((fs@, j as int))
            && crate::node_text::spans_ok(t@, fs@) && j <= t@.len(),
        r matches Err((issue, pos)) ==> spec_body(t@, i as int) == Err::<(Seq<FieldSpan>, int), (ParseIssue, int)>((issue, pos as int)),
{
    let a = skip_blanks(t, i);
    if !(a < t.len() && t[a] == '(') {
        return Err((ParseIssue::Expected('('), a));
    }
    let mut fields: Vec<FieldSpan> = Vec::new();
    let mut p = a + 1;
    let ghost goal = spec_body(t@, i as int);
    let mut out: Option<Result<usize, (ParseIssue, usize)>> = None;
    while out.is_none()
        invariant
            a < p <= t@.len(),
            crate::node_text::spans_ok(t@, fields@),
            out is None ==> spec_fields(t@, p as int, fields@) == goal,
            out matches Some(Ok(j)) ==> goal == Ok::<(Seq<FieldSpan>, int), (ParseIssue, int)>((fields@, j as int)) && j <= t@.len(),
            out matches Some(Err((issue, pos))) ==> goal == Err::<(Seq<FieldSpan>, int), (ParseIssue, int)>((issue, pos as int)),
        decreases t@.len() - p, if out is None { 1int } else { 0int },
    {
        let a2 = skip_blanks(t, p);
        if a2 >= t.len() {
            out = Some(Err((ParseIssue::Expected(')'), a2)));
        } else if t[a2] == ')' {
            out = Some(Ok(a2 + 1));
        } else {
            let e = word_end(t, a2);
            let c = skip_blanks(t, e);
            if e == a2 {
                out = Some(Err((ParseIssue::UnknownField, a2)));
            } else if c >= t.len() || t[c] != ':' {
                out = Some(Err((ParseIssue::Expected(':'), c)));
            } else {
                let v0 = skip_blanks(t, c + 1);
                let v1 = scan(t, v0);
                let f = FieldSpan { name_start: a2, name_end: e, start: v0, end: v1 };
                let ghost before = fields@;
                if v1 >= t.len() {
                    out = Some(Err((ParseIssue::Expected(')'), v1)));
                } else if t[v1] == ',' {
                    fields.push(f);
                    proof {
                        lemma_push_span(t@, before, f);
                    }
                    p = v1 + 1;
                } else if t[v1] == ')' {
                    fields.push(f);
                    proof {
                        lemma_push_span(t@, before, f);
                    }
                    out = Some(Ok(v1 + 1));
                } else {
                    out = Some(Err((ParseIssue::Expected(')'), v1)));
                }
            }
        }
    }
    match out {
        Some(Ok(j)) => Ok((fields, j)),
        Some(Err(e)) => Err(e),
        None => Err((ParseIssue::Expected(')'), p)),
    }
}

} // verus!

//! The extraction-rule parser. Each line of the rule text may hold
//! `name -> /pointer`: an identifier, an arrow with optional surrounding
//! whitespace, and a JSON pointer running to the end of the line. Lines
//! without such a rule are skipped silently; extraction is best-effort.

use vstd::prelude::*;

use crate::text::{find_char, find_in, from_chars, is_space, lemma_find_char_bounds, space_char};

verus! {

/// The characters a rule identifier may hold: ASCII letters, `_`, `.`, `-`.
pub open spec fn is_rule_ident(c: char) -> bool {
    ('a' <= c && c <= 'z') || ('A' <= c && c <= 'Z') || c == '_' || c == '.' || c == '-'
}

pub fn rule_ident_char(c: char) -> (r: bool)
    ensures
        r == is_rule_ident(c),
{
    ('a' <= c && c <= 'z') || ('A' <= c && c <= 'Z') || c == '_' || c == '.' || c == '-'
}

/// The first position at or after `from` holding a rule-identifier
/// character, or the length when there is none.
pub open spec fn next_ident(s: Seq<char>, from: int) -> int
    decreases s.len() - from,
{
    if 0 <= from < s.len() {
        if is_rule_ident(s[from]) {
            from
        } else {
            next_ident(s, from + 1)
        }
    } else {
        s.len() as int
    }
}

pub proof fn lemma_next_ident_bounds(s: Seq<char>, from: int)
    requires
        0 <= from <= s.len(),
    ensures
        from <= next_ident(s, from) <= s.len(),
        next_ident(s, from) < s.len() ==> is_rule_ident(s[next_ident(s, from)]),
    decreases s.len() - from,
{
    if from < s.len() && !is_rule_ident(s[from]) {
        lemma_next_ident_bounds(s, from + 1);
    }
}

/// The first position at or after `i` that does not hold a rule-identifier
/// character (or the end of the text).
pub open spec fn ident_run_end(s: Seq<char>, i: int) -> int
    decreases s.len() - i,
{
    if 0 <= i < s.len() && is_rule_ident(s[i]) {
        ident_run_end(s, i + 1)
    } else {
        i
    }
}

pub proof fn lemma_ident_run_end_bounds(s: Seq<char>, i: int)
    requires
        0 <= i <= s.len(),
    ensures
        i <= ident_run_end(s, i) <= s.len(),
        i < s.len() && is_rule_ident(s[i]) ==> ident_run_end(s, i) > i,
    decreases s.len() - i,
{
    if i < s.len() && is_rule_ident(s[i]) {
        lemma_ident_run_end_bounds(s, i + 1);
    }
}

/// The first position at or after `i` that does not hold whitespace.
pub open spec fn space_run_end(s: Seq<char>, i: int) -> int
    decreases s.len() - i,
{
    if 0 <= i < s.len() && is_space(s[i]) {
        space_run_end(s, i + 1)
    } else {
        i
    }
}

pub proof fn lemma_space_run_end_bounds(s: Seq<char>, i: int)
    requires
        0 <= i <= s.len(),
    ensures
        i <= space_run_end(s, i) <= s.len(),
    decreases s.len() - i,
{
    if i < s.len() && is_space(s[i]) {
        lemma_space_run_end_bounds(s, i + 1);
    }
}

/// The rule taken once the arrow is passed: optional whitespace, then a
/// pointer starting with `/` and running to the end of the line. The name
/// is `line[p..q]`.
pub open spec fn arrow_rest(line: Seq<char>, p: int, q: int, a: int) -> Option<
    (Seq<char>, Seq<char>),
> {
    let u = space_run_end(line, a);
    if u < line.len() && line[u] == '/' {
        Some((line.subrange(p, q), line.subrange(u, line.len() as int)))
    } else {
        None
    }
}

/// The rule an identifier run `line[p..e]` yields, if the arrow and pointer
/// follow it. With whitespace after the run the whole run is the name; with
/// none, the run itself must end in the arrow's `-`.
pub open spec fn run_match(line: Seq<char>, p: int, e: int) -> Option<(Seq<char>, Seq<char>)> {
    let f = space_run_end(line, e);
    if f > e {
        if f + 1 < line.len() && line[f] == '-' && line[f + 1] == '>' {
            arrow_rest(line, p, e, f + 2)
        } else {
            None
        }
    } else {
        if e < line.len() && line[e] == '>' && p < e - 1 && line[e - 1] == '-' {
            arrow_rest(line, p, e - 1, e + 1)
        } else {
            None
        }
    }
}

/// The first rule found in the line at or after `from`, scanning one
/// identifier run at a time.
pub open spec fn rule_match_from(line: Seq<char>, from: int) -> Option<(Seq<char>, Seq<char>)>
    decreases line.len() - from,
    when 0 <= from <= line.len()
    via rule_match_from_dec
{
    let p = next_ident(line, from);
    if p == line.len() {
        None
    } else {
        let e = ident_run_end(line, p);
        if run_match(line, p, e) is Some {
            run_match(line, p, e)
        } else {
            rule_match_from(line, e)
        }
    }
}

#[via_fn]
proof fn rule_match_from_dec(line: Seq<char>, from: int) {
    lemma_next_ident_bounds(line, from);
    if next_ident(line, from) < line.len() {
        lemma_ident_run_end_bounds(line, next_ident(line, from));
    }
}

/// The rules of all lines from `from` on, in line order, one per line that
/// holds one.
pub open spec fn spec_parse_rules(s: Seq<char>, from: int) -> Seq<(Seq<char>, Seq<char>)>
    decreases s.len() - from,
    when 0 <= from <= s.len()
    via spec_parse_rules_dec
{
    let j = find_char(s, '\n', from);
    let here = match rule_match_from(s.subrange(from, j), 0) {
        Some(r) => seq![r],
        None => Seq::<(Seq<char>, Seq<char>)>::empty(),
    };
    if j == s.len() {
        here
    } else {
        here + spec_parse_rules(s, j + 1)
    }
}

#[via_fn]
proof fn spec_parse_rules_dec(s: Seq<char>, from: int) {
    lemma_find_char_bounds(s, '\n', from);
}

/// The first position at or after `from` holding a rule-identifier
/// character.
fn next_ident_in(s: &[char], from: usize) -> (r: usize)
    requires
        from <= s@.len(),
    ensures
        r == next_ident(s@, from as int),
        from <= r <= s@.len(),
    decreases s@.len() - from,
{
    proof {
        lemma_next_ident_bounds(s@, from as int);
    }
    if from < s.len() {
        if rule_ident_char(s[from]) {
            from
        } else {
            next_ident_in(s, from + 1)
        }
    } else {
        s.len()
    }
}

/// The end of the identifier run starting at `i`.
fn ident_run_end_in(s: &[char], i: usize) -> (r: usize)
    requires
        i <= s@.len(),
    ensures
        r == ident_run_end(s@, i as int),
        i <= r <= s@.len(),
    decreases s@.len() - i,
{
    proof {
        lemma_ident_run_end_bounds(s@, i as int);
    }
    if i < s.len() && rule_ident_char(s[i]) {
        ident_run_end_in(s, i + 1)
    } else {
        i
    }
}

/// The end of the whitespace run starting at `i`.
fn space_run_end_in(s: &[char], i: usize) -> (r: usize)
    requires
        i <= s@.len(),
    ensures
        r == space_run_end(s@, i as int),
        i <= r <= s@.len(),
    decreases s@.len() - i,
{
    proof {
        lemma_space_run_end_bounds(s@, i as int);
    }
    if i < s.len() && space_char(s[i]) {
        space_run_end_in(s, i + 1)
    } else {
        i
    }
}

/// The name and pointer once an arrow candidate is fixed, or nothing when
/// no pointer follows.
fn arrow_rest_in(line: &[char], p: usize, q: usize, a: usize) -> (r: Option<(String, String)>)
    requires
        p <= q <= line@.len(),
        a <= line@.len(),
    ensures
        match r {
            Some(nv) => arrow_rest(line@, p as int, q as int, a as int) == Some((nv.0@, nv.1@)),
            None => arrow_rest(line@, p as int, q as int, a as int) is None,
        },
{
    let u = space_run_end_in(line, a);
    if u < line.len() && line[u] == '/' {
        let name = from_chars(vstd::slice::slice_subrange(line, p, q));
        let ptr = from_chars(vstd::slice::slice_subrange(line, u, line.len()));
        Some((name, ptr))
    } else {
        None
    }
}

/// The first rule in the line, if any.
fn match_rule_line(line: &[char]) -> (r: Option<(String, String)>)
    ensures
        match r {
            Some(nv) => rule_match_from(line@, 0) == Some((nv.0@, nv.1@)),
            None => rule_match_from(line@, 0) is None,
        },
{
    let n = line.len();
    let mut from: usize = 0;
    loop
        invariant
            from <= n,
            n == line@.len(),
            rule_match_from(line@, 0) == rule_match_from(line@, from as int),
        decreases n - from,
    {
        let p = next_ident_in(line, from);
        if p == n {
            return None;
        }
        let e = ident_run_end_in(line, p);
        proof {
            lemma_next_ident_bounds(line@, from as int);
            lemma_ident_run_end_bounds(line@, p as int);
        }
        let f = space_run_end_in(line, e);
        let mut attempt: Option<(String, String)> = None;
        let mut tried = false;
        if f > e {
            if f < n && line[f] == '-' && f + 1 < n && line[f + 1] == '>' {
                attempt = arrow_rest_in(line, p, e, f + 2);
                tried = true;
            }
        } else {
            if e < n && line[e] == '>' && p + 1 < e && line[e - 1] == '-' {
                attempt = arrow_rest_in(line, p, e - 1, e + 1);
                tried = true;
            }
        }
        proof {
            if !tried {
                assert(run_match(line@, p as int, e as int) is None);
            }
        }
        match attempt {
            Some(nv) => {
                return Some(nv);
            },
            None => {},
        }
        from = e;
    }
}

/// Parses the rule text: every line that holds a `name -> /pointer` rule
/// yields one name/pointer pair, in line order; other lines yield nothing.
pub fn parse_rules(rules: &str) -> (r: Vec<(String, String)>)
    ensures
        r@.map_values(|p: (String, String)| (p.0@, p.1@)) == spec_parse_rules(rules@, 0),
{
    let chars = crate::text::to_chars(rules);
    let t = chars.as_slice();
    let ghost gt = t@;
    let n = t.len();
    let mut out: Vec<(String, String)> = Vec::new();
    let mut p: usize = 0;
    let mut done = false;
    while !done
        invariant
            n == gt.len(),
            gt == t@,
            gt == rules@,
            p <= n,
            !done ==> spec_parse_rules(gt, 0) == out@.map_values(
                |q: (String, String)| (q.0@, q.1@),
            ) + spec_parse_rules(gt, p as int),
            done ==> spec_parse_rules(gt, 0) == out@.map_values(
                |q: (String, String)| (q.0@, q.1@),
            ),
        decreases n - p + (if done {
            0int
        } else {
            1int
        }),
    {
        let ghost out0 = out@.map_values(|q: (String, String)| (q.0@, q.1@));
        let j = find_in(t, '\n', p);
        let line = vstd::slice::slice_subrange(t, p, j);
        let m = match_rule_line(line);
        let ghost here = match rule_match_from(line@, 0) {
            Some(r) => seq![r],
            None => Seq::<(Seq<char>, Seq<char>)>::empty(),
        };
        match m {
            Some(nv) => {
                out.push(nv);
            },
            None => {},
        }
        proof {
            assert(out@.map_values(|q: (String, String)| (q.0@, q.1@)) =~= out0 + here);
        }
        if j == n {
            done = true;
            proof {
                assert(spec_parse_rules(gt, p as int) == here);
                assert(spec_parse_rules(gt, 0) =~= out@.map_values(
                    |q: (String, String)| (q.0@, q.1@),
                ));
            }
        } else {
            p = j + 1;
            proof {
                assert(spec_parse_rules(gt, 0) =~= out@.map_values(
                    |q: (String, String)| (q.0@, q.1@),
                ) + spec_parse_rules(gt, p as int));
            }
        }
    }
    out
}

} // verus!

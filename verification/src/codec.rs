//! The field codecs: the query-string codec turns the raw multi-line query
//! text into a single query string, and the header codec turns the raw
//! header text, after template expansion, into a header map. Both validate
//! the whole text line by line and reject it as a unit.

use vstd::prelude::*;

use crate::strmap::StrMap;
use crate::template::{spec_expand, expand};
use crate::text::{
    find_char, find_in, from_chars, is_space, lemma_find_char_bounds, space_char, spec_trim,
    strip_end, strip_trailing_nl, to_chars, trim_bounds,
};

verus! {

/// A grammar violation in a structured text field. The malformed text is
/// left untouched for correction; no partial result is applied.
#[derive(Copy, Clone, PartialEq, Eq, Structural, Debug)]
pub enum ValidationError {
    /// The query text does not match `key "=" value` on every line.
    QueryFormat,
    /// The header text does not match `key [":"] value` on every line.
    HeaderFormat,
}

/// One query line is `key "=" value`: a nonempty key without whitespace or
/// `=`, one `=`, and a nonempty value without `=`.
pub open spec fn query_line_ok(line: Seq<char>) -> bool {
    let j = find_char(line, '=', 0);
    &&& 0 < j
    &&& j + 1 < line.len()
    &&& find_char(line, '=', j + 1) == line.len()
    &&& forall|t: int| 0 <= t < j ==> !is_space(#[trigger] line[t])
}

/// Every line of the text from `from` on is a valid query line.
pub open spec fn query_lines_ok(s: Seq<char>, from: int) -> bool
    decreases s.len() - from,
    when 0 <= from <= s.len()
    via query_lines_ok_dec
{
    let j = find_char(s, '\n', from);
    if j == s.len() {
        query_line_ok(s.subrange(from, j))
    } else {
        query_line_ok(s.subrange(from, j)) && query_lines_ok(s, j + 1)
    }
}

#[via_fn]
proof fn query_lines_ok_dec(s: Seq<char>, from: int) {
    lemma_find_char_bounds(s, '\n', from);
}

/// The joined query: internal newlines become `&`.
pub open spec fn join_amp(s: Seq<char>) -> Seq<char> {
    s.map_values(
        |c: char|
            if c == '\n' {
                '&'
            } else {
                c
            },
    )
}

/// What the query codec returns: the joined text on success, nothing when
/// the text breaks the grammar.
pub open spec fn spec_encode_query(raw: Seq<char>) -> Option<Seq<char>> {
    if raw.len() == 0 {
        Some(Seq::<char>::empty())
    } else {
        let t = strip_trailing_nl(raw);
        if query_lines_ok(t, 0) {
            Some(join_amp(t))
        } else {
            None
        }
    }
}

/// No whitespace stands in `s[0..upto]`.
fn no_space_before(s: &[char], upto: usize) -> (r: bool)
    requires
        upto <= s@.len(),
    ensures
        r == forall|t: int| 0 <= t < upto ==> !is_space(#[trigger] s@[t]),
{
    let mut i: usize = 0;
    while i < upto
        invariant
            i <= upto <= s@.len(),
            forall|t: int| 0 <= t < i ==> !is_space(#[trigger] s@[t]),
        decreases upto - i,
    {
        if space_char(s[i]) {
            return false;
        }
        i = i + 1;
    }
    true
}

/// Whether one line matches the query grammar.
fn check_query_line(line: &[char]) -> (r: bool)
    ensures
        r == query_line_ok(line@),
{
    let n = line.len();
    let j = find_in(line, '=', 0);
    if j == 0 || j >= n || j + 1 >= n {
        proof {
            lemma_find_char_bounds(line@, '=', 0);
        }
        return false;
    }
    if find_in(line, '=', j + 1) != n {
        return false;
    }
    no_space_before(line, j)
}

/// Validates the raw query text and joins it into one query string.
///
/// The empty text encodes to the empty query. Otherwise trailing newlines
/// are stripped and every remaining line must be `key "=" value` (no
/// whitespace or `=` in the key, no `=` in the value, both nonempty); any
/// deviation returns the query-format error and no partial query. On
/// success the lines are joined with `&`.
pub fn encode_query(raw: &str) -> (r: Result<String, ValidationError>)
    ensures
        match r {
            Ok(s) => spec_encode_query(raw@) == Some(s@),
            Err(e) => spec_encode_query(raw@) is None && e == ValidationError::QueryFormat,
        },
{
    let chars = to_chars(raw);
    if chars.len() == 0 {
        proof {
            assert(raw@.len() == 0);
        }
        return Ok(String::new());
    }
    let end = strip_end(chars.as_slice());
    let t = vstd::slice::slice_subrange(chars.as_slice(), 0, end);
    let ghost gt = t@;
    proof {
        assert(gt == strip_trailing_nl(raw@));
    }
    let n = t.len();
    let mut p: usize = 0;
    let mut done = false;
    while !done
        invariant
            n == gt.len(),
            gt == strip_trailing_nl(raw@),
            raw@.len() > 0,
            gt == t@,
            p <= n,
            !done ==> (query_lines_ok(gt, 0) <==> query_lines_ok(gt, p as int)),
            done ==> query_lines_ok(gt, 0),
        decreases n - p + (if done {
            0int
        } else {
            1int
        }),
    {
        let j = find_in(t, '\n', p);
        let line = vstd::slice::slice_subrange(t, p, j);
        if !check_query_line(line) {
            return Err(ValidationError::QueryFormat);
        }
        if j == n {
            done = true;
        } else {
            p = j + 1;
        }
    }
    let mut out = String::new();
    let mut i: usize = 0;
    while i < n
        invariant
            n == gt.len(),
            gt == t@,
            i <= n,
            out@ == join_amp(gt.take(i as int)),
        decreases n - i,
    {
        let c = t[i];
        if c == '\n' {
            crate::text::string_push(&mut out, '&');
        } else {
            crate::text::string_push(&mut out, c);
        }
        i = i + 1;
        proof {
            assert(gt.take(i as int).drop_last() =~= gt.take(i as int - 1));
            assert(out@ =~= join_amp(gt.take(i as int)));
        }
    }
    proof {
        assert(gt.take(n as int) =~= gt);
    }
    Ok(out)
}

/// One header line is `key [one whitespace] ":" value`: a nonempty key
/// without whitespace, at most one whitespace before the single `:`, and a
/// nonempty value without `:`.
pub open spec fn header_line_ok(line: Seq<char>) -> bool {
    let j = find_char(line, ':', 0);
    &&& 1 <= j
    &&& j + 1 < line.len()
    &&& find_char(line, ':', j + 1) == line.len()
    &&& forall|t: int| 0 <= t < j - 1 ==> !is_space(#[trigger] line[t])
    &&& (is_space(line[j - 1]) ==> j >= 2)
}

/// Every line of the text from `from` on is a valid header line.
pub open spec fn header_lines_ok(s: Seq<char>, from: int) -> bool
    decreases s.len() - from,
    when 0 <= from <= s.len()
    via header_lines_ok_dec
{
    let j = find_char(s, '\n', from);
    if j == s.len() {
        header_line_ok(s.subrange(from, j))
    } else {
        header_line_ok(s.subrange(from, j)) && header_lines_ok(s, j + 1)
    }
}

#[via_fn]
proof fn header_lines_ok_dec(s: Seq<char>, from: int) {
    lemma_find_char_bounds(s, '\n', from);
}

/// The name/value pair a header line carries: both sides of the first `:`,
/// trimmed of surrounding whitespace.
pub open spec fn header_pair(line: Seq<char>) -> (Seq<char>, Seq<char>) {
    let j = find_char(line, ':', 0);
    if j < line.len() {
        (spec_trim(line.subrange(0, j)), spec_trim(line.subrange(j + 1, line.len() as int)))
    } else {
        (Seq::<char>::empty(), Seq::<char>::empty())
    }
}

/// The pairs of all lines from `from` on, in line order.
pub open spec fn header_pairs(s: Seq<char>, from: int) -> Seq<(Seq<char>, Seq<char>)>
    decreases s.len() - from,
    when 0 <= from <= s.len()
    via header_pairs_dec
{
    let j = find_char(s, '\n', from);
    if j == s.len() {
        seq![header_pair(s.subrange(from, j))]
    } else {
        seq![header_pair(s.subrange(from, j))] + header_pairs(s, j + 1)
    }
}

#[via_fn]
proof fn header_pairs_dec(s: Seq<char>, from: int) {
    lemma_find_char_bounds(s, '\n', from);
}

/// The last value bound to a key in a pair list: later lines win.
pub open spec fn lookup_last(ps: Seq<(Seq<char>, Seq<char>)>, k: Seq<char>) -> Option<Seq<char>>
    decreases ps.len(),
{
    if ps.len() == 0 {
        None
    } else if ps.last().0 == k {
        Some(ps.last().1)
    } else {
        lookup_last(ps.drop_last(), k)
    }
}

/// The first option, or the second when the first is empty.
pub open spec fn or_else(a: Option<Seq<char>>, b: Option<Seq<char>>) -> Option<Seq<char>> {
    match a {
        Some(v) => Some(v),
        None => b,
    }
}

proof fn lemma_lookup_last_cons(
    a: (Seq<char>, Seq<char>),
    ps: Seq<(Seq<char>, Seq<char>)>,
    k: Seq<char>,
)
    ensures
        lookup_last(seq![a] + ps, k) == or_else(
            lookup_last(ps, k),
            if a.0 == k {
                Some(a.1)
            } else {
                None
            },
        ),
    decreases ps.len(),
{
    if ps.len() == 0 {
        assert(seq![a] + ps =~= seq![a]);
        assert((seq![a]).last() == a);
        assert((seq![a]).drop_last() =~= Seq::<(Seq<char>, Seq<char>)>::empty());
    } else {
        assert((seq![a] + ps).last() == ps.last());
        assert((seq![a] + ps).drop_last() =~= seq![a] + ps.drop_last());
        lemma_lookup_last_cons(a, ps.drop_last(), k);
    }
}

/// The header text once templates are expanded and trailing newlines are
/// stripped: the text the grammar is checked against.
pub open spec fn spec_headers_text(raw: Seq<char>, env: StrMap) -> Seq<char> {
    strip_trailing_nl(spec_expand(raw, env))
}

/// Whether the header text is accepted: the empty text always is, any other
/// must match the grammar line by line after expansion.
pub open spec fn spec_headers_ok(raw: Seq<char>, env: StrMap) -> bool {
    raw.len() == 0 || header_lines_ok(spec_headers_text(raw, env), 0)
}

/// The pairs the accepted header text carries, in line order.
pub open spec fn spec_header_pairs(raw: Seq<char>, env: StrMap) -> Seq<(Seq<char>, Seq<char>)> {
    if raw.len() == 0 {
        Seq::<(Seq<char>, Seq<char>)>::empty()
    } else {
        header_pairs(spec_headers_text(raw, env), 0)
    }
}

/// Whether one line matches the header grammar.
fn check_header_line(line: &[char]) -> (r: bool)
    ensures
        r == header_line_ok(line@),
{
    let n = line.len();
    let j = find_in(line, ':', 0);
    if j == 0 || j >= n || j + 1 >= n {
        proof {
            lemma_find_char_bounds(line@, ':', 0);
        }
        return false;
    }
    if find_in(line, ':', j + 1) != n {
        return false;
    }
    if !no_space_before(line, j - 1) {
        return false;
    }
    if space_char(line[j - 1]) && j < 2 {
        return false;
    }
    true
}

/// Expands templates in the raw header text and encodes it into a header
/// map.
///
/// The empty text encodes to the empty map. Otherwise the text is first
/// expanded against the environment, trailing newlines are stripped, and
/// every remaining line must be `key [":"] value` with exactly one `:`; any
/// deviation returns the header-format error and no partial map. Each valid
/// line is split on its `:`, both sides are trimmed, and inserted in line
/// order, so a repeated name keeps its last value.
pub fn encode_headers(raw: &str, env: &StrMap) -> (r: Result<StrMap, ValidationError>)
    ensures
        match r {
            Ok(m) => {
                &&& spec_headers_ok(raw@, *env)
                &&& m.wf()
                &&& forall|k: Seq<char>|
                    #[trigger] m.spec_get(k) == lookup_last(spec_header_pairs(raw@, *env), k)
            },
            Err(e) => !spec_headers_ok(raw@, *env) && e == ValidationError::HeaderFormat,
        },
{
    let mut m = StrMap::new();
    if raw.unicode_len() == 0 {
        return Ok(m);
    }
    let expanded = expand(raw, env);
    let chars = to_chars(expanded.as_str());
    let end = strip_end(chars.as_slice());
    let t = vstd::slice::slice_subrange(chars.as_slice(), 0, end);
    let ghost gt = t@;
    proof {
        assert(gt == spec_headers_text(raw@, *env));
    }
    let n = t.len();
    let mut p: usize = 0;
    let mut done = false;
    while !done
        invariant
            n == gt.len(),
            gt == spec_headers_text(raw@, *env),
            raw@.len() > 0,
            gt == t@,
            p <= n,
            m.wf(),
            !done ==> (header_lines_ok(gt, 0) <==> header_lines_ok(gt, p as int)),
            done ==> header_lines_ok(gt, 0),
            !done ==> forall|k: Seq<char>|
                lookup_last(header_pairs(gt, 0), k) == or_else(
                    lookup_last(header_pairs(gt, p as int), k),
                    #[trigger] m.spec_get(k),
                ),
            done ==> forall|k: Seq<char>|
                #[trigger] m.spec_get(k) == lookup_last(header_pairs(gt, 0), k),
        decreases n - p + (if done {
            0int
        } else {
            1int
        }),
    {
        let ghost gp = p as int;
        let j = find_in(t, '\n', p);
        let line = vstd::slice::slice_subrange(t, p, j);
        if !check_header_line(line) {
            return Err(ValidationError::HeaderFormat);
        }
        let jc = find_in(line, ':', 0);
        proof {
            lemma_find_char_bounds(line@, ':', 0);
        }
        let keypart = vstd::slice::slice_subrange(line, 0, jc);
        let valpart = vstd::slice::slice_subrange(line, jc + 1, line.len());
        let (ka, kb) = trim_bounds(keypart);
        let (va, vb) = trim_bounds(valpart);
        let key = from_chars(vstd::slice::slice_subrange(keypart, ka, kb));
        let value = from_chars(vstd::slice::slice_subrange(valpart, va, vb));
        let ghost pair = header_pair(line@);
        proof {
            assert(key@ == pair.0);
            assert(value@ == pair.1);
        }
        m.insert(key, value);
        proof {
            if j < n {
                assert(header_pairs(gt, gp) == seq![header_pair(line@)] + header_pairs(
                    gt,
                    j + 1,
                ));
                assert forall|k: Seq<char>|
                    lookup_last(header_pairs(gt, 0), k) == or_else(
                        lookup_last(header_pairs(gt, j + 1), k),
                        #[trigger] m.spec_get(k),
                    ) by {
                    lemma_lookup_last_cons(pair, header_pairs(gt, j + 1), k);
                }
            } else {
                assert(header_pairs(gt, gp) == seq![header_pair(line@)]);
                assert forall|k: Seq<char>|
                    #[trigger] m.spec_get(k) == lookup_last(header_pairs(gt, 0), k) by {
                    lemma_lookup_last_cons(
                        pair,
                        Seq::<(Seq<char>, Seq<char>)>::empty(),
                        k,
                    );
                    assert(seq![pair] + Seq::<(Seq<char>, Seq<char>)>::empty() =~= seq![pair]);
                    assert(lookup_last(header_pairs(gt, gp), k) == if pair.0 == k {
                        Some(pair.1)
                    } else {
                        None
                    });
                }
            }
        }
        if j == n {
            done = true;
        } else {
            p = j + 1;
        }
    }
    Ok(m)
}

} // verus!

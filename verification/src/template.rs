//! Expansion of `{{name}}` template tokens against the environment. Each
//! occurrence is replaced by the environment's value for `name`, or by the
//! empty string when the name is absent; the inserted text is not rescanned.

use vstd::prelude::*;

use crate::strmap::StrMap;
use crate::text::to_chars;

verus! {

/// The characters a template identifier may hold: ASCII letters, `_` and `-`.
pub open spec fn is_ident_char(c: char) -> bool {
    ('a' <= c && c <= 'z') || ('A' <= c && c <= 'Z') || c == '_' || c == '-'
}

pub fn ident_char(c: char) -> (r: bool)
    ensures
        r == is_ident_char(c),
{
    ('a' <= c && c <= 'z') || ('A' <= c && c <= 'Z') || c == '_' || c == '-'
}

/// The first position at or after `i` that does not hold an identifier
/// character (or the end of the text).
pub open spec fn ident_end(s: Seq<char>, i: int) -> int
    decreases s.len() - i,
{
    if 0 <= i < s.len() && is_ident_char(s[i]) {
        ident_end(s, i + 1)
    } else {
        i
    }
}

pub proof fn lemma_ident_end_bounds(s: Seq<char>, i: int)
    requires
        0 <= i <= s.len(),
    ensures
        i <= ident_end(s, i) <= s.len(),
    decreases s.len() - i,
{
    if i < s.len() && is_ident_char(s[i]) {
        lemma_ident_end_bounds(s, i + 1);
    }
}

/// A template token `{{name}}` with a nonempty identifier starts at `i`.
pub open spec fn has_token_at(s: Seq<char>, i: int) -> bool {
    &&& 0 <= i
    &&& i + 1 < s.len()
    &&& s[i] == '{'
    &&& s[i + 1] == '{'
    &&& ident_end(s, i + 2) > i + 2
    &&& ident_end(s, i + 2) + 1 < s.len()
    &&& s[ident_end(s, i + 2)] == '}'
    &&& s[ident_end(s, i + 2) + 1] == '}'
}

/// The identifier of the token starting at `i`.
pub open spec fn token_name(s: Seq<char>, i: int) -> Seq<char> {
    s.subrange(i + 2, ident_end(s, i + 2))
}

/// The position right after the token starting at `i`.
pub open spec fn token_end(s: Seq<char>, i: int) -> int {
    ident_end(s, i + 2) + 2
}

/// The replacement for a token: the environment's value, or empty when the
/// name is unknown.
pub open spec fn env_val(env: StrMap, name: Seq<char>) -> Seq<char> {
    match env.spec_get(name) {
        Some(v) => v,
        None => Seq::<char>::empty(),
    }
}

/// The expansion of the text from position `i` on: tokens are replaced as
/// they are met, all other characters pass through unchanged.
pub open spec fn spec_expand_from(s: Seq<char>, i: int, env: StrMap) -> Seq<char>
    decreases s.len() - i,
{
    if i < 0 || i >= s.len() {
        Seq::<char>::empty()
    } else if has_token_at(s, i) {
        env_val(env, token_name(s, i)) + spec_expand_from(s, token_end(s, i), env)
    } else {
        seq![s[i]] + spec_expand_from(s, i + 1, env)
    }
}

/// The full expansion of a text against an environment.
pub open spec fn spec_expand(s: Seq<char>, env: StrMap) -> Seq<char> {
    spec_expand_from(s, 0, env)
}

proof fn lemma_ident_end_run(s: Seq<char>, i: int, e: int)
    requires
        0 <= i <= e <= s.len(),
        forall|t: int| i <= t < e ==> is_ident_char(#[trigger] s[t]),
        e == s.len() || !is_ident_char(s[e]),
    ensures
        ident_end(s, i) == e,
    decreases e - i,
{
    if i < e {
        lemma_ident_end_run(s, i + 1, e);
    }
}

/// The law of one token: a template holding exactly `{{name}}` expands to
/// the environment's value for `name`, and so to the empty string whenever
/// the name is unknown.
pub proof fn lemma_expand_token(name: Seq<char>, env: StrMap)
    requires
        name.len() > 0,
        forall|t: int| 0 <= t < name.len() ==> is_ident_char(#[trigger] name[t]),
    ensures
        spec_expand(seq!['{', '{'] + name + seq!['}', '}'], env) == env_val(env, name),
{
    let t = seq!['{', '{'] + name + seq!['}', '}'];
    let e = 2 + name.len() as int;
    assert(t.len() == name.len() + 4);
    assert(t[0] == '{');
    assert(t[1] == '{');
    assert forall|k: int| 2 <= k < e implies is_ident_char(#[trigger] t[k]) by {
        assert(t[k] == name[k - 2]);
    }
    assert(t[e] == '}');
    assert(t[e + 1] == '}');
    lemma_ident_end_run(t, 2, e);
    assert(has_token_at(t, 0));
    assert(token_name(t, 0) =~= name);
    assert(token_end(t, 0) == t.len());
    assert(spec_expand_from(t, t.len() as int, env) == Seq::<char>::empty());
    assert(spec_expand(t, env) =~= env_val(env, name));
}

proof fn lemma_expand_from_no_tokens(s: Seq<char>, i: int, env: StrMap)
    requires
        0 <= i <= s.len(),
        forall|j: int| !has_token_at(s, j),
    ensures
        spec_expand_from(s, i, env) == s.skip(i),
    decreases s.len() - i,
{
    if i < s.len() {
        lemma_expand_from_no_tokens(s, i + 1, env);
        assert(seq![s[i]] + s.skip(i + 1) =~= s.skip(i));
    } else {
        assert(s.skip(i) =~= Seq::<char>::empty());
    }
}

/// A text without template tokens expands to itself.
pub proof fn lemma_expand_without_tokens(s: Seq<char>, env: StrMap)
    requires
        forall|j: int| !has_token_at(s, j),
    ensures
        spec_expand(s, env) == s,
{
    lemma_expand_from_no_tokens(s, 0, env);
    assert(s.skip(0) =~= s);
}

/// Expansion is idempotent whenever the expanded text holds no further
/// tokens: expanding it again changes nothing.
pub proof fn lemma_expand_idempotent(s: Seq<char>, env: StrMap)
    requires
        forall|j: int| !has_token_at(spec_expand(s, env), j),
    ensures
        spec_expand(spec_expand(s, env), env) == spec_expand(s, env),
{
    lemma_expand_without_tokens(spec_expand(s, env), env);
}

/// The end of the identifier run starting at `from`.
fn scan_ident(chars: &Vec<char>, from: usize) -> (e: usize)
    requires
        from <= chars@.len(),
    ensures
        e == ident_end(chars@, from as int),
        from <= e <= chars@.len(),
    decreases chars@.len() - from,
{
    proof {
        lemma_ident_end_bounds(chars@, from as int);
    }
    if from < chars.len() && ident_char(chars[from]) {
        scan_ident(chars, from + 1)
    } else {
        from
    }
}

/// Replaces every `{{name}}` token in `text` by the environment's value for
/// `name`, absent names by the empty string, in one left-to-right pass.
pub fn expand(text: &str, env: &StrMap) -> (r: String)
    ensures
        r@ == spec_expand(text@, *env),
{
    let chars = to_chars(text);
    let n = chars.len();
    let mut out = String::new();
    let mut i: usize = 0;
    while i < n
        invariant
            n == chars@.len(),
            chars@ == text@,
            i <= n,
            out@ + spec_expand_from(chars@, i as int, *env) == spec_expand(text@, *env),
        decreases n - i,
    {
        let ghost gi = i as int;
        let mut is_token = false;
        let mut e: usize = i;
        if i + 1 < n && chars[i] == '{' && chars[i + 1] == '{' {
            e = scan_ident(&chars, i + 2);
            if e > i + 2 && e < n && chars[e] == '}' && e + 1 < n && chars[e + 1] == '}' {
                is_token = true;
            }
        }
        if is_token {
            proof {
                assert(has_token_at(chars@, gi));
            }
            let name = crate::text::from_chars(vstd::slice::slice_subrange(
                chars.as_slice(),
                i + 2,
                e,
            ));
            proof {
                assert(name@ == token_name(chars@, gi));
            }
            match env.get(&name) {
                Some(v) => {
                    out.append(v.as_str());
                },
                None => {},
            }
            i = e + 2;
            proof {
                assert(spec_expand_from(chars@, gi, *env) == env_val(*env, token_name(chars@, gi))
                    + spec_expand_from(chars@, i as int, *env));
                assert(out@ + spec_expand_from(chars@, i as int, *env) =~= spec_expand(
                    text@,
                    *env,
                ));
            }
        } else {
            proof {
                assert(!has_token_at(chars@, gi)) by {
                    if has_token_at(chars@, gi) {
                        lemma_ident_end_bounds(chars@, gi + 2);
                    }
                }
            }
            crate::text::string_push(&mut out, chars[i]);
            i = i + 1;
            proof {
                assert(spec_expand_from(chars@, gi, *env) == seq![chars@[gi]]
                    + spec_expand_from(chars@, gi + 1, *env));
                assert(out@ + spec_expand_from(chars@, i as int, *env) =~= spec_expand(
                    text@,
                    *env,
                ));
            }
        }
    }
    proof {
        assert(spec_expand_from(chars@, n as int, *env) == Seq::<char>::empty());
        assert(out@ =~= spec_expand(text@, *env));
    }
    out
}

} // verus!

//! The persistence codec: the workspace document as pretty-printed JSON
//! text. The serializer writes the document with two-space indentation; the
//! parser reads the document schema itself — whitespace between tokens, the
//! standard JSON string escapes, and a missing rule-text field defaulting to
//! empty — so documents written by earlier tools load as well. Text that
//! does not match the schema reads as nothing, and the caller falls back to
//! the bootstrap default.

use vstd::prelude::*;

use crate::method::HttpMethod;
use crate::repository::LocalStorageRepository;
use crate::request::RequestInput;

verus! {

/// The mathematical content of one stored request.
pub ghost struct ReqModel {
    pub method: HttpMethod,
    pub server: Seq<char>,
    pub path: Seq<char>,
    pub query: Seq<char>,
    pub payload: Seq<char>,
    pub headers: Seq<char>,
    pub parsing_rules: Seq<char>,
}

/// The mathematical content of the whole document.
pub ghost struct RepoModel {
    pub env: Seq<(Seq<char>, Seq<char>)>,
    pub server_urls: Seq<Seq<char>>,
    pub server_active: nat,
    pub reqs: Seq<ReqModel>,
    pub req_active: nat,
}

impl RequestInput {
    /// The request's content.
    pub open spec fn model(self) -> ReqModel {
        ReqModel {
            method: self.method,
            server: self.server@,
            path: self.path@,
            query: self.query@,
            payload: self.payload@,
            headers: self.headers@,
            parsing_rules: self.parsing_rules@,
        }
    }
}

impl LocalStorageRepository {
    /// The repository's content.
    pub open spec fn model(self) -> RepoModel {
        RepoModel {
            env: self.env.spec_pairs(),
            server_urls: self.servers.value@.map_values(|s: String| s@),
            server_active: self.servers.active as nat,
            reqs: self.requests.value@.map_values(|r: RequestInput| r.model()),
            req_active: self.requests.active as nat,
        }
    }
}

/// The models the codec round-trips: active indices inside their lists
/// (zero on an empty list), environment keys unique.
pub open spec fn model_wf(m: RepoModel) -> bool {
    &&& if m.server_urls.len() == 0 {
        m.server_active == 0
    } else {
        m.server_active < m.server_urls.len()
    }
    &&& if m.reqs.len() == 0 {
        m.req_active == 0
    } else {
        m.req_active < m.reqs.len()
    }
    &&& forall|i: int, j: int|
        0 <= i < j < m.env.len() ==> (#[trigger] m.env[i]).0 != (#[trigger] m.env[j]).0
}

// ---------------------------------------------------------------------
// Serialization, at the level of character sequences.
// ---------------------------------------------------------------------
/// The hexadecimal digit character for one digit value.
pub open spec fn hex_digit_char(d: nat) -> char {
    if d == 0 {
        '0'
    } else if d == 1 {
        '1'
    } else if d == 2 {
        '2'
    } else if d == 3 {
        '3'
    } else if d == 4 {
        '4'
    } else if d == 5 {
        '5'
    } else if d == 6 {
        '6'
    } else if d == 7 {
        '7'
    } else if d == 8 {
        '8'
    } else if d == 9 {
        '9'
    } else if d == 10 {
        'a'
    } else if d == 11 {
        'b'
    } else if d == 12 {
        'c'
    } else if d == 13 {
        'd'
    } else if d == 14 {
        'e'
    } else {
        'f'
    }
}

/// The escape a character takes inside a JSON string: quote, backslash and
/// the named control characters take their short escapes, every other
/// control character a `\u00..` escape, all else passes through.
pub open spec fn esc_char(c: char) -> Seq<char> {
    if c == '"' {
        seq!['\\', '"']
    } else if c == '\\' {
        seq!['\\', '\\']
    } else if c == '\u{8}' {
        seq!['\\', 'b']
    } else if c == '\u{c}' {
        seq!['\\', 'f']
    } else if c == '\n' {
        seq!['\\', 'n']
    } else if c == '\r' {
        seq!['\\', 'r']
    } else if c == '\t' {
        seq!['\\', 't']
    } else if (c as u32) < 32 {
        seq!['\\', 'u', '0', '0', hex_digit_char((c as u32) as nat / 16), hex_digit_char(
            (c as u32) as nat % 16,
        )]
    } else {
        seq![c]
    }
}

/// A string body, escaped character by character.
pub open spec fn ser_escape(s: Seq<char>) -> Seq<char>
    decreases s.len(),
{
    if s.len() == 0 {
        Seq::<char>::empty()
    } else {
        esc_char(s.first()) + ser_escape(s.drop_first())
    }
}

/// A JSON string: the escaped body in quotes.
pub open spec fn ser_string(s: Seq<char>) -> Seq<char> {
    seq!['"'] + ser_escape(s) + seq!['"']
}

/// The decimal digit character for one digit value.
pub open spec fn digit_char(d: nat) -> char {
    hex_digit_char(if d < 10 {
        d
    } else {
        0
    })
}

/// A number in decimal.
pub open spec fn ser_uint(n: nat) -> Seq<char>
    decreases n,
{
    if n < 10 {
        seq![digit_char(n)]
    } else {
        ser_uint(n / 10) + seq![digit_char(n % 10)]
    }
}

/// One environment entry, `"key": "value"`.
pub open spec fn ser_env_pair(p: (Seq<char>, Seq<char>)) -> Seq<char> {
    ser_string(p.0) + (": "@ + ser_string(p.1))
}

/// The environment entries, one per line, indented one level.
pub open spec fn ser_env_items(ps: Seq<(Seq<char>, Seq<char>)>) -> Seq<char>
    decreases ps.len(),
{
    if ps.len() <= 1 {
        "\n    "@ + ser_env_pair(ps.first())
    } else {
        "\n    "@ + (ser_env_pair(ps.first()) + (","@ + ser_env_items(ps.drop_first())))
    }
}

/// The environment object.
#[verifier::opaque]
pub open spec fn ser_env(ps: Seq<(Seq<char>, Seq<char>)>) -> Seq<char> {
    if ps.len() == 0 {
        "{}"@
    } else {
        "{"@ + (ser_env_items(ps) + "\n  }"@)
    }
}

/// The server URLs, one per line, indented.
pub open spec fn ser_str_items(l: Seq<Seq<char>>) -> Seq<char>
    decreases l.len(),
{
    if l.len() <= 1 {
        "\n      "@ + ser_string(l.first())
    } else {
        "\n      "@ + (ser_string(l.first()) + (","@ + ser_str_items(l.drop_first())))
    }
}

/// A list of strings.
#[verifier::opaque]
pub open spec fn ser_str_list(l: Seq<Seq<char>>) -> Seq<char> {
    if l.len() == 0 {
        "[]"@
    } else {
        "["@ + (ser_str_items(l) + "\n    ]"@)
    }
}

/// One field of a request object, on its own indented line.
pub open spec fn ser_field(name: Seq<char>, v: Seq<char>) -> Seq<char> {
    "\n        "@ + (name + (": "@ + ser_string(v)))
}

/// One stored request as a JSON object, its fields one per line.
#[verifier::opaque]
pub open spec fn ser_request(r: ReqModel) -> Seq<char> {
    "{"@ + (ser_field("\"method\""@, r.method.spec_name()) + (","@ + (ser_field(
        "\"server\""@,
        r.server,
    ) + (","@ + (ser_field("\"path\""@, r.path) + (","@ + (ser_field("\"query\""@, r.query) + (
    ","@ + (ser_field("\"payload\""@, r.payload) + (","@ + (ser_field(
        "\"headers\""@,
        r.headers,
    ) + (","@ + (ser_field("\"parsing_rules\""@, r.parsing_rules) + "\n      }"@)))))))))))))
}

/// The stored requests, one object per list entry.
pub open spec fn ser_req_items(l: Seq<ReqModel>) -> Seq<char>
    decreases l.len(),
{
    if l.len() <= 1 {
        "\n      "@ + ser_request(l.first())
    } else {
        "\n      "@ + (ser_request(l.first()) + (","@ + ser_req_items(l.drop_first())))
    }
}

/// A list of requests.
#[verifier::opaque]
pub open spec fn ser_req_list(l: Seq<ReqModel>) -> Seq<char> {
    if l.len() == 0 {
        "[]"@
    } else {
        "["@ + (ser_req_items(l) + "\n    ]"@)
    }
}

/// The whole document, pretty-printed with two-space indentation.
pub open spec fn spec_serialize(m: RepoModel) -> Seq<char> {
    "{\n  \"env\": "@ + (ser_env(m.env) + (",\n  \"servers\": {\n    \"value\": "@ + (ser_str_list(
        m.server_urls,
    ) + (",\n    \"active\": "@ + (ser_uint(m.server_active) + (
    "\n  },\n  \"requests\": {\n    \"value\": "@ + (ser_req_list(m.reqs) + (",\n    \"active\": "@
        + (ser_uint(m.req_active) + "\n  }\n}"@)))))))))
}

// ---------------------------------------------------------------------
// Parsing, at the level of character sequences. Each parser takes a
// position, skips any whitespace, and returns the parsed value with the
// position after it.
// ---------------------------------------------------------------------
/// The whitespace JSON allows between tokens.
pub open spec fn is_json_ws(c: char) -> bool {
    c == ' ' || c == '\t' || c == '\n' || c == '\r'
}

/// The first position at or after `i` that does not hold whitespace.
pub open spec fn ws_end(s: Seq<char>, i: int) -> int
    decreases s.len() - i,
{
    if 0 <= i < s.len() && is_json_ws(s[i]) {
        ws_end(s, i + 1)
    } else {
        i
    }
}

pub proof fn lemma_ws_end_bounds(s: Seq<char>, i: int)
    requires
        0 <= i <= s.len(),
    ensures
        i <= ws_end(s, i) <= s.len(),
    decreases s.len() - i,
{
    if i < s.len() && is_json_ws(s[i]) {
        lemma_ws_end_bounds(s, i + 1);
    }
}

/// The text `t` stands at position `i` of `s`.
pub open spec fn at(s: Seq<char>, i: int, t: Seq<char>) -> bool {
    0 <= i && i + t.len() <= s.len() && s.subrange(i, i + t.len()) == t
}

/// Expects the exact text `t` at `i`.
pub open spec fn sp_lit(s: Seq<char>, i: int, t: Seq<char>) -> Option<int> {
    if at(s, i, t) {
        Some(i + t.len())
    } else {
        None
    }
}

/// Expects the exact text `t` after any whitespace.
pub open spec fn sp_tok(s: Seq<char>, i: int, t: Seq<char>) -> Option<int> {
    if 0 <= i <= s.len() {
        sp_lit(s, ws_end(s, i), t)
    } else {
        None
    }
}

pub proof fn lemma_sp_tok_bounds(s: Seq<char>, i: int, t: Seq<char>)
    requires
        0 <= i <= s.len(),
    ensures
        sp_tok(s, i, t) matches Some(r) ==> i <= r <= s.len(),
{
    lemma_ws_end_bounds(s, i);
}

/// The character a short escape code stands for.
pub open spec fn unesc_char(c: char) -> Option<char> {
    if c == '"' {
        Some('"')
    } else if c == '\\' {
        Some('\\')
    } else if c == '/' {
        Some('/')
    } else if c == 'b' {
        Some('\u{8}')
    } else if c == 'f' {
        Some('\u{c}')
    } else if c == 'n' {
        Some('\n')
    } else if c == 'r' {
        Some('\r')
    } else if c == 't' {
        Some('\t')
    } else {
        None
    }
}

pub open spec fn is_hex(c: char) -> bool {
    ('0' <= c && c <= '9') || ('a' <= c && c <= 'f') || ('A' <= c && c <= 'F')
}

/// The value of one hexadecimal digit character.
pub open spec fn hex_val(c: char) -> nat {
    if '0' <= c && c <= '9' {
        (c as u32 - '0' as u32) as nat
    } else if 'a' <= c && c <= 'f' {
        (c as u32 - 'a' as u32 + 10) as nat
    } else if 'A' <= c && c <= 'F' {
        (c as u32 - 'A' as u32 + 10) as nat
    } else {
        0
    }
}

/// The value of the four hexadecimal digits at `i`.
pub open spec fn hex4(s: Seq<char>, i: int) -> nat {
    hex_val(s[i]) * 4096 + hex_val(s[i + 1]) * 256 + hex_val(s[i + 2]) * 16 + hex_val(s[i + 3])
}

/// Whether a `\u` escape value is a Unicode scalar (four digits never reach
/// past the basic plane, so only the surrogate gap is excluded).
pub open spec fn is_scalar(v: nat) -> bool {
    v < 0xD800 || (0xE000 <= v && v <= 0x10FFFF)
}

/// The character with a given scalar value.
pub open spec fn char_of(v: nat) -> char {
    (v as u32) as char
}

/// A string body up to its closing quote, unescaping as it goes.
#[verifier::opaque]
pub open spec fn sp_str_body(s: Seq<char>, i: int) -> Option<(Seq<char>, int)>
    decreases s.len() - i,
    when 0 <= i <= s.len()
{
    if i >= s.len() {
        None
    } else if s[i] == '"' {
        Some((Seq::<char>::empty(), i + 1))
    } else if s[i] == '\\' {
        if i + 1 < s.len() && s[i + 1] == 'u' {
            if i + 5 < s.len() && is_hex(s[i + 2]) && is_hex(s[i + 3]) && is_hex(s[i + 4])
                && is_hex(s[i + 5]) && is_scalar(hex4(s, i + 2)) {
                match sp_str_body(s, i + 6) {
                    Some((t, r)) => Some((seq![char_of(hex4(s, i + 2))] + t, r)),
                    None => None,
                }
            } else {
                None
            }
        } else if i + 1 < s.len() {
            match unesc_char(s[i + 1]) {
                Some(c) => match sp_str_body(s, i + 2) {
                    Some((t, r)) => Some((seq![c] + t, r)),
                    None => None,
                },
                None => None,
            }
        } else {
            None
        }
    } else {
        match sp_str_body(s, i + 1) {
            Some((t, r)) => Some((seq![s[i]] + t, r)),
            None => None,
        }
    }
}

/// A JSON string starting exactly at `i`.
pub open spec fn sp_string(s: Seq<char>, i: int) -> Option<(Seq<char>, int)> {
    if 0 <= i < s.len() && s[i] == '"' {
        sp_str_body(s, i + 1)
    } else {
        None
    }
}

/// A JSON string after any whitespace.
pub open spec fn sp_string_ws(s: Seq<char>, i: int) -> Option<(Seq<char>, int)> {
    if 0 <= i <= s.len() {
        sp_string(s, ws_end(s, i))
    } else {
        None
    }
}

pub open spec fn is_digit(c: char) -> bool {
    '0' <= c && c <= '9'
}

/// The value of one decimal digit character.
pub open spec fn digit_val(c: char) -> nat {
    if '0' <= c && c <= '9' {
        (c as u32 - '0' as u32) as nat
    } else {
        0
    }
}

/// The first position at or after `i` that does not hold a digit.
pub open spec fn digit_run_end(s: Seq<char>, i: int) -> int
    decreases s.len() - i,
{
    if 0 <= i < s.len() && is_digit(s[i]) {
        digit_run_end(s, i + 1)
    } else {
        i
    }
}

/// The number a digit sequence denotes.
pub open spec fn dec_value(ds: Seq<char>) -> nat
    decreases ds.len(),
{
    if ds.len() == 0 {
        0
    } else {
        dec_value(ds.drop_last()) * 10 + digit_val(ds.last())
    }
}

/// A decimal number starting exactly at `i`: a nonempty digit run.
pub open spec fn sp_uint(s: Seq<char>, i: int) -> Option<(nat, int)> {
    let e = digit_run_end(s, i);
    if 0 <= i && i < e {
        Some((dec_value(s.subrange(i, e)), e))
    } else {
        None
    }
}

/// A decimal number after any whitespace.
pub open spec fn sp_uint_ws(s: Seq<char>, i: int) -> Option<(nat, int)> {
    if 0 <= i <= s.len() {
        sp_uint(s, ws_end(s, i))
    } else {
        None
    }
}

pub proof fn lemma_digit_run_end_bounds(s: Seq<char>, i: int)
    requires
        0 <= i <= s.len(),
    ensures
        i <= digit_run_end(s, i) <= s.len(),
    decreases s.len() - i,
{
    if i < s.len() && is_digit(s[i]) {
        lemma_digit_run_end_bounds(s, i + 1);
    }
}

pub proof fn lemma_sp_str_body_bounds(s: Seq<char>, i: int)
    requires
        0 <= i <= s.len(),
    ensures
        sp_str_body(s, i) matches Some((t, r)) ==> i < r <= s.len(),
    decreases s.len() - i,
{
    reveal(sp_str_body);
    if i < s.len() && s[i] != '"' {
        if s[i] == '\\' {
            if i + 1 < s.len() && s[i + 1] == 'u' {
                if i + 5 < s.len() {
                    lemma_sp_str_body_bounds(s, i + 6);
                }
            } else if i + 1 < s.len() {
                lemma_sp_str_body_bounds(s, i + 2);
            }
        } else {
            lemma_sp_str_body_bounds(s, i + 1);
        }
    }
}

pub proof fn lemma_sp_string_ws_bounds(s: Seq<char>, i: int)
    requires
        0 <= i <= s.len(),
    ensures
        sp_string_ws(s, i) matches Some((t, r)) ==> i < r <= s.len(),
{
    lemma_ws_end_bounds(s, i);
    let w = ws_end(s, i);
    if 0 <= w < s.len() && s[w] == '"' {
        lemma_sp_str_body_bounds(s, w + 1);
    }
}

/// Environment entries from the first one on, ended by `}`.
pub open spec fn sp_env_items(s: Seq<char>, i: int) -> Option<(Seq<(Seq<char>, Seq<char>)>, int)>
    decreases s.len() - i,
    when 0 <= i <= s.len()
    via sp_env_items_dec
{
    match sp_string_ws(s, i) {
        Some((k, r1)) => match sp_tok(s, r1, ":"@) {
            Some(r2) => match sp_string_ws(s, r2) {
                Some((v, r3)) => {
                    let r4 = ws_end(s, r3);
                    if r4 < s.len() && s[r4] == ',' {
                        match sp_env_items(s, r4 + 1) {
                            Some((ps, r5)) => Some((seq![(k, v)] + ps, r5)),
                            None => None,
                        }
                    } else if r4 < s.len() && s[r4] == '}' {
                        Some((seq![(k, v)], r4 + 1))
                    } else {
                        None
                    }
                },
                None => None,
            },
            None => None,
        },
        None => None,
    }
}

#[via_fn]
proof fn sp_env_items_dec(s: Seq<char>, i: int) {
    lemma_sp_string_ws_bounds(s, i);
    if sp_string_ws(s, i) is Some {
        let (k, r1) = sp_string_ws(s, i)->Some_0;
        lemma_sp_tok_bounds(s, r1, ":"@);
        if sp_tok(s, r1, ":"@) is Some {
            let r2 = sp_tok(s, r1, ":"@)->Some_0;
            lemma_sp_string_ws_bounds(s, r2);
            if sp_string_ws(s, r2) is Some {
                let (v, r3) = sp_string_ws(s, r2)->Some_0;
                lemma_ws_end_bounds(s, r3);
            }
        }
    }
}

pub proof fn lemma_sp_env_items_bounds(s: Seq<char>, i: int)
    requires
        0 <= i <= s.len(),
    ensures
        sp_env_items(s, i) matches Some((ps, r)) ==> i < r <= s.len(),
    decreases s.len() - i,
{
    lemma_sp_string_ws_bounds(s, i);
    if sp_string_ws(s, i) is Some {
        let (k, r1) = sp_string_ws(s, i)->Some_0;
        lemma_sp_tok_bounds(s, r1, ":"@);
        if sp_tok(s, r1, ":"@) is Some {
            let r2 = sp_tok(s, r1, ":"@)->Some_0;
            lemma_sp_string_ws_bounds(s, r2);
            if sp_string_ws(s, r2) is Some {
                let (v, r3) = sp_string_ws(s, r2)->Some_0;
                lemma_ws_end_bounds(s, r3);
                let r4 = ws_end(s, r3);
                if r4 < s.len() && s[r4] == ',' {
                    lemma_sp_env_items_bounds(s, r4 + 1);
                }
            }
        }
    }
}

/// The environment object, `{}` or `{ entries }`.
pub open spec fn sp_env(s: Seq<char>, i: int) -> Option<(Seq<(Seq<char>, Seq<char>)>, int)> {
    match sp_tok(s, i, "{"@) {
        Some(a) => {
            let b = ws_end(s, a);
            if b < s.len() && s[b] == '}' {
                Some((Seq::<(Seq<char>, Seq<char>)>::empty(), b + 1))
            } else {
                sp_env_items(s, a)
            }
        },
        None => None,
    }
}

/// String-list items from the first one on, ended by `]`.
pub open spec fn sp_str_items(s: Seq<char>, i: int) -> Option<(Seq<Seq<char>>, int)>
    decreases s.len() - i,
    when 0 <= i <= s.len()
    via sp_str_items_dec
{
    match sp_string_ws(s, i) {
        Some((v, r1)) => {
            let r2 = ws_end(s, r1);
            if r2 < s.len() && s[r2] == ',' {
                match sp_str_items(s, r2 + 1) {
                    Some((vs, r3)) => Some((seq![v] + vs, r3)),
                    None => None,
                }
            } else if r2 < s.len() && s[r2] == ']' {
                Some((seq![v], r2 + 1))
            } else {
                None
            }
        },
        None => None,
    }
}

#[via_fn]
proof fn sp_str_items_dec(s: Seq<char>, i: int) {
    lemma_sp_string_ws_bounds(s, i);
    if sp_string_ws(s, i) is Some {
        let (v, r1) = sp_string_ws(s, i)->Some_0;
        lemma_ws_end_bounds(s, r1);
    }
}

pub proof fn lemma_sp_str_items_bounds(s: Seq<char>, i: int)
    requires
        0 <= i <= s.len(),
    ensures
        sp_str_items(s, i) matches Some((vs, r)) ==> i < r <= s.len(),
    decreases s.len() - i,
{
    lemma_sp_string_ws_bounds(s, i);
    if sp_string_ws(s, i) is Some {
        let (v, r1) = sp_string_ws(s, i)->Some_0;
        lemma_ws_end_bounds(s, r1);
        let r2 = ws_end(s, r1);
        if r2 < s.len() && s[r2] == ',' {
            lemma_sp_str_items_bounds(s, r2 + 1);
        }
    }
}

/// A string list, `[]` or `[ items ]`.
pub open spec fn sp_str_list(s: Seq<char>, i: int) -> Option<(Seq<Seq<char>>, int)> {
    match sp_tok(s, i, "["@) {
        Some(a) => {
            let b = ws_end(s, a);
            if b < s.len() && s[b] == ']' {
                Some((Seq::<Seq<char>>::empty(), b + 1))
            } else {
                sp_str_items(s, a)
            }
        },
        None => None,
    }
}

/// The method a wire name denotes.
pub open spec fn method_of_name(s: Seq<char>) -> Option<HttpMethod> {
    if s == "GET"@ {
        Some(HttpMethod::GET)
    } else if s == "POST"@ {
        Some(HttpMethod::POST)
    } else if s == "PUT"@ {
        Some(HttpMethod::PUT)
    } else if s == "DELETE"@ {
        Some(HttpMethod::DELETE)
    } else {
        None
    }
}

/// One field of a request object: the quoted name, a colon, a string value.
pub open spec fn sp_field(s: Seq<char>, i: int, name: Seq<char>) -> Option<(Seq<char>, int)> {
    match sp_tok(s, i, name) {
        Some(a) => match sp_tok(s, a, ":"@) {
            Some(b) => sp_string_ws(s, b),
            None => None,
        },
        None => None,
    }
}

pub proof fn lemma_sp_field_bounds(s: Seq<char>, i: int, name: Seq<char>)
    requires
        0 <= i <= s.len(),
    ensures
        sp_field(s, i, name) matches Some((v, r)) ==> i <= r <= s.len(),
{
    lemma_sp_tok_bounds(s, i, name);
    if sp_tok(s, i, name) is Some {
        let a = sp_tok(s, i, name)->Some_0;
        lemma_sp_tok_bounds(s, a, ":"@);
        if sp_tok(s, a, ":"@) is Some {
            let b = sp_tok(s, a, ":"@)->Some_0;
            lemma_sp_string_ws_bounds(s, b);
        }
    }
}

/// One stored request object: the six fixed fields in order, then either a
/// rule-text field or none, in which case the rule text defaults to empty.
pub open spec fn sp_request(s: Seq<char>, i: int) -> Option<(ReqModel, int)> {
    match sp_tok(s, i, "{"@) {
        Some(r0) => match sp_field(s, r0, "\"method\""@) {
            Some((mname, r1)) => match method_of_name(mname) {
                Some(method) => match sp_tok(s, r1, ","@) {
                    Some(r2) => match sp_field(s, r2, "\"server\""@) {
                        Some((server, r3)) => match sp_tok(s, r3, ","@) {
                            Some(r4) => match sp_field(s, r4, "\"path\""@) {
                                Some((path, r5)) => match sp_tok(s, r5, ","@) {
                                    Some(r6) => match sp_field(s, r6, "\"query\""@) {
                                        Some((query, r7)) => match sp_tok(s, r7, ","@) {
                                            Some(r8) => match sp_field(s, r8, "\"payload\""@) {
                                                Some((payload, r9)) => match sp_tok(s, r9, ","@) {
                                                    Some(r10) => match sp_field(
                                                        s,
                                                        r10,
                                                        "\"headers\""@,
                                                    ) {
                                                        Some((headers, r11)) => sp_request_tail(
                                                            s,
                                                            r11,
                                                            ReqModel {
                                                                method,
                                                                server,
                                                                path,
                                                                query,
                                                                payload,
                                                                headers,
                                                                parsing_rules: Seq::<
                                                                    char,
                                                                >::empty(),
                                                            },
                                                        ),
                                                        None => None,
                                                    },
                                                    None => None,
                                                },
                                                None => None,
                                            },
                                            None => None,
                                        },
                                        None => None,
                                    },
                                    None => None,
                                },
                                None => None,
                            },
                            None => None,
                        },
                        None => None,
                    },
                    None => None,
                },
                None => None,
            },
            None => None,
        },
        None => None,
    }
}

/// The end of a request object: either the rule-text field and the closing
/// brace, or the brace alone, the rule text then defaulting to empty.
pub open spec fn sp_request_tail(s: Seq<char>, i: int, base: ReqModel) -> Option<(ReqModel, int)> {
    let t = ws_end(s, i);
    if t < s.len() && s[t] == ',' {
        match sp_field(s, t + 1, "\"parsing_rules\""@) {
            Some((rules, r1)) => {
                let u = ws_end(s, r1);
                if u < s.len() && s[u] == '}' {
                    Some((ReqModel { parsing_rules: rules, ..base }, u + 1))
                } else {
                    None
                }
            },
            None => None,
        }
    } else if t < s.len() && s[t] == '}' {
        Some((base, t + 1))
    } else {
        None
    }
}

pub proof fn lemma_sp_request_bounds(s: Seq<char>, i: int)
    requires
        0 <= i <= s.len(),
    ensures
        sp_request(s, i) matches Some((m, r)) ==> i < r <= s.len(),
{
    lemma_sp_tok_bounds(s, i, "{"@);
    if sp_tok(s, i, "{"@) is Some {
        let r0 = sp_tok(s, i, "{"@)->Some_0;
        assert("{"@.len() > 0) by {
            reveal_strlit("{");
        }
        lemma_sp_field_bounds(s, r0, "\"method\""@);
        if sp_field(s, r0, "\"method\""@) is Some {
            let (mname, r1) = sp_field(s, r0, "\"method\""@)->Some_0;
            lemma_sp_tok_bounds(s, r1, ","@);
            if sp_tok(s, r1, ","@) is Some {
                let r2 = sp_tok(s, r1, ","@)->Some_0;
                lemma_sp_field_bounds(s, r2, "\"server\""@);
                if sp_field(s, r2, "\"server\""@) is Some {
                    let (server, r3) = sp_field(s, r2, "\"server\""@)->Some_0;
                    lemma_sp_tok_bounds(s, r3, ","@);
                    if sp_tok(s, r3, ","@) is Some {
                        let r4 = sp_tok(s, r3, ","@)->Some_0;
                        lemma_sp_field_bounds(s, r4, "\"path\""@);
                        if sp_field(s, r4, "\"path\""@) is Some {
                            let (path, r5) = sp_field(s, r4, "\"path\""@)->Some_0;
                            lemma_sp_tok_bounds(s, r5, ","@);
                            if sp_tok(s, r5, ","@) is Some {
                                let r6 = sp_tok(s, r5, ","@)->Some_0;
                                lemma_sp_field_bounds(s, r6, "\"query\""@);
                                if sp_field(s, r6, "\"query\""@) is Some {
                                    let (query, r7) = sp_field(s, r6, "\"query\""@)->Some_0;
                                    lemma_sp_tok_bounds(s, r7, ","@);
                                    if sp_tok(s, r7, ","@) is Some {
                                        let r8 = sp_tok(s, r7, ","@)->Some_0;
                                        lemma_sp_field_bounds(s, r8, "\"payload\""@);
                                        if sp_field(s, r8, "\"payload\""@) is Some {
                                            let (payload, r9) = sp_field(
                                                s,
                                                r8,
                                                "\"payload\""@,
                                            )->Some_0;
                                            lemma_sp_tok_bounds(s, r9, ","@);
                                            if sp_tok(s, r9, ","@) is Some {
                                                let r10 = sp_tok(s, r9, ","@)->Some_0;
                                                lemma_sp_field_bounds(s, r10, "\"headers\""@);
                                                if sp_field(s, r10, "\"headers\""@) is Some {
                                                    let (headers, r11) = sp_field(
                                                        s,
                                                        r10,
                                                        "\"headers\""@,
                                                    )->Some_0;
                                                    lemma_sp_request_tail_bounds(s, r11);
                                                }
                                            }
                                        }
                                    }
                                }
                            }
                        }
                    }
                }
            }
        }
    }
}

pub proof fn lemma_sp_request_tail_bounds(s: Seq<char>, i: int)
    requires
        0 <= i <= s.len(),
    ensures
        forall|base: ReqModel|
            #[trigger] sp_request_tail(s, i, base) matches Some((m, r)) ==> i < r <= s.len(),
{
    lemma_ws_end_bounds(s, i);
    let t = ws_end(s, i);
    if t < s.len() && s[t] == ',' {
        lemma_sp_field_bounds(s, t + 1, "\"parsing_rules\""@);
        if sp_field(s, t + 1, "\"parsing_rules\""@) is Some {
            let (rules, r1) = sp_field(s, t + 1, "\"parsing_rules\""@)->Some_0;
            lemma_ws_end_bounds(s, r1);
        }
    }
}

/// Request-list items from the first one on, ended by `]`.
pub open spec fn sp_req_items(s: Seq<char>, i: int) -> Option<(Seq<ReqModel>, int)>
    decreases s.len() - i,
    when 0 <= i <= s.len()
    via sp_req_items_dec
{
    match sp_request(s, i) {
        Some((m, r1)) => {
            let r2 = ws_end(s, r1);
            if r2 < s.len() && s[r2] == ',' {
                match sp_req_items(s, r2 + 1) {
                    Some((ms, r3)) => Some((seq![m] + ms, r3)),
                    None => None,
                }
            } else if r2 < s.len() && s[r2] == ']' {
                Some((seq![m], r2 + 1))
            } else {
                None
            }
        },
        None => None,
    }
}

#[via_fn]
proof fn sp_req_items_dec(s: Seq<char>, i: int) {
    lemma_sp_request_bounds(s, i);
    if sp_request(s, i) is Some {
        let (m, r1) = sp_request(s, i)->Some_0;
        lemma_ws_end_bounds(s, r1);
    }
}

pub proof fn lemma_sp_req_items_bounds(s: Seq<char>, i: int)
    requires
        0 <= i <= s.len(),
    ensures
        sp_req_items(s, i) matches Some((ms, r)) ==> i < r <= s.len(),
    decreases s.len() - i,
{
    lemma_sp_request_bounds(s, i);
    if sp_request(s, i) is Some {
        let (m, r1) = sp_request(s, i)->Some_0;
        lemma_ws_end_bounds(s, r1);
        let r2 = ws_end(s, r1);
        if r2 < s.len() && s[r2] == ',' {
            lemma_sp_req_items_bounds(s, r2 + 1);
        }
    }
}

/// A request list, `[]` or `[ items ]`.
pub open spec fn sp_req_list(s: Seq<char>, i: int) -> Option<(Seq<ReqModel>, int)> {
    match sp_tok(s, i, "["@) {
        Some(a) => {
            let b = ws_end(s, a);
            if b < s.len() && s[b] == ']' {
                Some((Seq::<ReqModel>::empty(), b + 1))
            } else {
                sp_req_items(s, a)
            }
        },
        None => None,
    }
}

/// The servers part of the document: the separating comma, the key, the
/// object with its URL list and active index, and its closing brace.
#[verifier::opaque]
pub open spec fn sp_doc_servers(s: Seq<char>, i: int) -> Option<((Seq<Seq<char>>, nat), int)> {
    match sp_tok(s, i, ","@) {
        Some(a) => match sp_tok(s, a, "\"servers\""@) {
            Some(b) => match sp_tok(s, b, ":"@) {
                Some(c) => match sp_tok(s, c, "{"@) {
                    Some(d) => match sp_tok(s, d, "\"value\""@) {
                        Some(e) => match sp_tok(s, e, ":"@) {
                            Some(f) => match sp_str_list(s, f) {
                                Some((urls, g)) => match sp_tok(s, g, ","@) {
                                    Some(h) => match sp_tok(s, h, "\"active\""@) {
                                        Some(j) => match sp_tok(s, j, ":"@) {
                                            Some(k) => match sp_uint_ws(s, k) {
                                                Some((sactive, l)) => match sp_tok(s, l, "}"@) {
                                                    Some(m) => Some(((urls, sactive), m)),
                                                    None => None,
                                                },
                                                None => None,
                                            },
                                            None => None,
                                        },
                                        None => None,
                                    },
                                    None => None,
                                },
                                None => None,
                            },
                            None => None,
                        },
                        None => None,
                    },
                    None => None,
                },
                None => None,
            },
            None => None,
        },
        None => None,
    }
}

/// The requests part of the document: the separating comma, the key, the
/// object with its request list and active index, and the two closing
/// braces, which must end the text but for trailing whitespace.
#[verifier::opaque]
pub open spec fn sp_doc_requests(s: Seq<char>, i: int) -> Option<(Seq<ReqModel>, nat)> {
    match sp_tok(s, i, ","@) {
        Some(a) => match sp_tok(s, a, "\"requests\""@) {
            Some(b) => match sp_tok(s, b, ":"@) {
                Some(c) => match sp_tok(s, c, "{"@) {
                    Some(d) => match sp_tok(s, d, "\"value\""@) {
                        Some(e) => match sp_tok(s, e, ":"@) {
                            Some(f) => match sp_req_list(s, f) {
                                Some((reqs, g)) => match sp_tok(s, g, ","@) {
                                    Some(h) => match sp_tok(s, h, "\"active\""@) {
                                        Some(j) => match sp_tok(s, j, ":"@) {
                                            Some(k) => match sp_uint_ws(s, k) {
                                                Some((ractive, l)) => match sp_tok(s, l, "}"@) {
                                                    Some(m) => match sp_tok(s, m, "}"@) {
                                                        Some(r) => {
                                                            if 0 <= r <= s.len() && ws_end(s, r)
                                                                == s.len() {
                                                                Some((reqs, ractive))
                                                            } else {
                                                                None
                                                            }
                                                        },
                                                        None => None,
                                                    },
                                                    None => None,
                                                },
                                                None => None,
                                            },
                                            None => None,
                                        },
                                        None => None,
                                    },
                                    None => None,
                                },
                                None => None,
                            },
                            None => None,
                        },
                        None => None,
                    },
                    None => None,
                },
                None => None,
            },
            None => None,
        },
        None => None,
    }
}

/// The whole document.
pub open spec fn sp_document(s: Seq<char>) -> Option<RepoModel> {
    match sp_tok(s, 0, "{"@) {
        Some(a) => match sp_tok(s, a, "\"env\""@) {
            Some(b) => match sp_tok(s, b, ":"@) {
                Some(c) => match sp_env(s, c) {
                    Some((env, d)) => match sp_doc_servers(s, d) {
                        Some(((urls, sactive), e)) => match sp_doc_requests(s, e) {
                            Some((reqs, ractive)) => Some(
                                RepoModel {
                                    env,
                                    server_urls: urls,
                                    server_active: sactive,
                                    reqs,
                                    req_active: ractive,
                                },
                            ),
                            None => None,
                        },
                        None => None,
                    },
                    None => None,
                },
                None => None,
            },
            None => None,
        },
        None => None,
    }
}

/// What deserialization accepts: a document whose text parses whole and
/// whose content keeps the model invariants.
pub open spec fn spec_deserialize(s: Seq<char>) -> Option<RepoModel> {
    match sp_document(s) {
        Some(m) => if model_wf(m) {
            Some(m)
        } else {
            None
        },
        None => None,
    }
}

} // verus!

verus! {

use vstd::seq_lib::lemma_concat_associative;

// ---------------------------------------------------------------------
// The round trip: parsing reads back exactly what serialization wrote.
// ---------------------------------------------------------------------
proof fn lemma_at_index(s: Seq<char>, i: int, t: Seq<char>, k: int)
    requires
        at(s, i, t),
        0 <= k < t.len(),
    ensures
        s[i + k] == t[k],
{
    assert(s.subrange(i, i + t.len())[k] == s[i + k]);
}

proof fn lemma_at_concat(s: Seq<char>, i: int, a: Seq<char>, b: Seq<char>)
    requires
        at(s, i, a + b),
    ensures
        at(s, i, a),
        at(s, i + a.len(), b),
{
    assert(s.subrange(i, i + a.len()) =~= a) by {
        assert forall|k: int| 0 <= k < a.len() implies s.subrange(i, i + a.len())[k] == a[k] by {
            lemma_at_index(s, i, a + b, k);
            assert((a + b)[k] == a[k]);
        }
    }
    assert(s.subrange(i + a.len(), i + a.len() + b.len()) =~= b) by {
        assert forall|k: int|
            0 <= k < b.len() implies s.subrange(i + a.len(), i + a.len() + b.len())[k] == b[k] by {
            lemma_at_index(s, i, a + b, a.len() + k);
            assert((a + b)[a.len() + k] == b[k]);
        }
    }
}

proof fn lemma_ws_run(s: Seq<char>, i: int, e: int)
    requires
        0 <= i <= e <= s.len(),
        forall|t: int| i <= t < e ==> is_json_ws(#[trigger] s[t]),
        e == s.len() || !is_json_ws(s[e]),
    ensures
        ws_end(s, i) == e,
    decreases e - i,
{
    if i < e {
        lemma_ws_run(s, i + 1, e);
    }
}

/// All characters of `w` are whitespace.
pub open spec fn all_ws(w: Seq<char>) -> bool {
    forall|t: int| 0 <= t < w.len() ==> is_json_ws(#[trigger] w[t])
}

proof fn lemma_rt_tok(s: Seq<char>, i: int, w: Seq<char>, t: Seq<char>)
    requires
        at(s, i, w + t),
        all_ws(w),
        t.len() > 0,
        !is_json_ws(t[0]),
    ensures
        sp_tok(s, i, t) == Some(i + w.len() + t.len()),
{
    lemma_at_concat(s, i, w, t);
    assert forall|k: int| i <= k < i + w.len() implies is_json_ws(#[trigger] s[k]) by {
        lemma_at_index(s, i, w, k - i);
    }
    lemma_at_index(s, i + w.len(), t, 0);
    lemma_ws_run(s, i, i + w.len());
}

proof fn lemma_rt_tok0(s: Seq<char>, i: int, t: Seq<char>)
    requires
        at(s, i, t),
        t.len() > 0,
        !is_json_ws(t[0]),
    ensures
        sp_tok(s, i, t) == Some(i + t.len()),
{
    assert(at(s, i, Seq::<char>::empty() + t)) by {
        assert(Seq::<char>::empty() + t =~= t);
    }
    lemma_rt_tok(s, i, Seq::<char>::empty(), t);
}

/// A hexadecimal digit character stands for its digit.
proof fn lemma_hex_digit(d: nat)
    requires
        d < 16,
    ensures
        is_hex(hex_digit_char(d)),
        hex_val(hex_digit_char(d)) == d,
{
}

proof fn lemma_rt_str_body(s: Seq<char>, i: int, x: Seq<char>)
    requires
        at(s, i, ser_escape(x) + seq!['"']),
    ensures
        sp_str_body(s, i) == Some((x, i + ser_escape(x).len() + 1)),
    decreases x.len(),
{
    reveal(sp_str_body);
    let esc = ser_escape(x);
    if x.len() == 0 {
        assert(esc + seq!['"'] =~= seq!['"']);
        lemma_at_index(s, i, seq!['"'], 0);
        assert(s[i] == '"');
        assert(sp_str_body(s, i) == Some((Seq::<char>::empty(), i + 1)));
        assert(x =~= Seq::<char>::empty());
    } else {
        let c = x.first();
        let rest = x.drop_first();
        assert(esc == esc_char(c) + ser_escape(rest));
        lemma_concat_associative(esc_char(c), ser_escape(rest), seq!['"']);
        lemma_at_concat(s, i, esc_char(c), ser_escape(rest) + seq!['"']);
        let w = esc_char(c).len();
        lemma_rt_str_body(s, i + w, rest);
        if c == '"' || c == '\\' || c == '\u{8}' || c == '\u{c}' || c == '\n' || c == '\r' || c
            == '\t' {
            lemma_at_index(s, i, esc_char(c), 0);
            lemma_at_index(s, i, esc_char(c), 1);
            assert(s[i] == '\\');
            assert(s[i + 1] != 'u');
            assert(unesc_char(s[i + 1]) == Some(c));
            assert(i + 1 < s.len());
            assert(sp_str_body(s, i) == Some(
                (seq![c] + rest, i + w + ser_escape(rest).len() + 1),
            ));
        } else if (c as u32) < 32 {
            let u = (c as u32) as nat;
            assert(w == 6);
            lemma_at_index(s, i, esc_char(c), 0);
            lemma_at_index(s, i, esc_char(c), 1);
            lemma_at_index(s, i, esc_char(c), 2);
            lemma_at_index(s, i, esc_char(c), 3);
            lemma_at_index(s, i, esc_char(c), 4);
            lemma_at_index(s, i, esc_char(c), 5);
            assert(s[i] == '\\' && s[i + 1] == 'u');
            assert(s[i + 2] == '0' && s[i + 3] == '0');
            assert(s[i + 4] == hex_digit_char(u / 16));
            assert(s[i + 5] == hex_digit_char(u % 16));
            assert(i + 5 < s.len());
            assert(is_hex('0'));
            lemma_hex_digit(u / 16);
            lemma_hex_digit(u % 16);
            assert(hex_val('0') == 0);
            assert(hex4(s, i + 2) == hex_val(s[i + 4]) * 16 + hex_val(s[i + 5]));
            assert(hex4(s, i + 2) == (u / 16) * 16 + u % 16);
            assert(hex4(s, i + 2) == u);
            assert(is_scalar(u));
            assert(char_of(u) == c) by {
                vstd::utf8::char_u32_cast(c, c as u32);
                assert(u as u32 == c as u32);
            }
            assert(sp_str_body(s, i) == Some(
                (seq![c] + rest, i + 6 + ser_escape(rest).len() + 1),
            ));
        } else {
            lemma_at_index(s, i, esc_char(c), 0);
            assert(s[i] == c);
            assert(s[i] != '"' && s[i] != '\\');
            assert(sp_str_body(s, i) == Some(
                (seq![c] + rest, i + w + ser_escape(rest).len() + 1),
            ));
        }
        assert(seq![c] + rest =~= x);
    }
}

proof fn lemma_rt_string(s: Seq<char>, i: int, x: Seq<char>)
    requires
        at(s, i, ser_string(x)),
    ensures
        sp_string(s, i) == Some((x, i + ser_string(x).len())),
{
    assert(ser_string(x) =~= seq!['"'] + (ser_escape(x) + seq!['"']));
    lemma_at_concat(s, i, seq!['"'], ser_escape(x) + seq!['"']);
    lemma_at_index(s, i, seq!['"'], 0);
    assert(s[i] == '"');
    lemma_rt_str_body(s, i + 1, x);
}

proof fn lemma_rt_string_ws(s: Seq<char>, i: int, w: Seq<char>, x: Seq<char>)
    requires
        at(s, i, w + ser_string(x)),
        all_ws(w),
    ensures
        sp_string_ws(s, i) == Some((x, i + w.len() + ser_string(x).len())),
{
    lemma_at_concat(s, i, w, ser_string(x));
    assert forall|k: int| i <= k < i + w.len() implies is_json_ws(#[trigger] s[k]) by {
        lemma_at_index(s, i, w, k - i);
    }
    assert(ser_string(x)[0] == '"');
    lemma_at_index(s, i + w.len(), ser_string(x), 0);
    lemma_ws_run(s, i, i + w.len());
    lemma_rt_string(s, i + w.len(), x);
}

proof fn lemma_ser_uint_shape(n: nat)
    ensures
        ser_uint(n).len() >= 1,
        forall|t: int| 0 <= t < ser_uint(n).len() ==> is_digit(#[trigger] ser_uint(n)[t]),
    decreases n,
{
    if n >= 10 {
        lemma_ser_uint_shape(n / 10);
        assert forall|t: int|
            0 <= t < ser_uint(n).len() implies is_digit(#[trigger] ser_uint(n)[t]) by {
            if t < ser_uint(n / 10).len() {
                assert(ser_uint(n)[t] == ser_uint(n / 10)[t]);
            } else {
                assert(ser_uint(n)[t] == digit_char(n % 10));
            }
        }
    }
}

proof fn lemma_dec_value_of_ser(n: nat)
    ensures
        dec_value(ser_uint(n)) == n,
    decreases n,
{
    if n < 10 {
        assert(ser_uint(n) == seq![digit_char(n)]);
        assert(ser_uint(n).drop_last() =~= Seq::<char>::empty());
        assert(dec_value(ser_uint(n).drop_last()) == 0);
        assert(ser_uint(n).last() == digit_char(n));
        assert(digit_val(digit_char(n)) == n);
    } else {
        lemma_dec_value_of_ser(n / 10);
        assert(ser_uint(n) == ser_uint(n / 10) + seq![digit_char(n % 10)]);
        assert(ser_uint(n).drop_last() =~= ser_uint(n / 10));
        assert(ser_uint(n).last() == digit_char(n % 10));
        assert(digit_val(digit_char(n % 10)) == n % 10);
        assert(dec_value(ser_uint(n)) == (n / 10) * 10 + n % 10);
    }
}

proof fn lemma_digit_run_of(s: Seq<char>, i: int, e: int)
    requires
        0 <= i <= e <= s.len(),
        forall|t: int| i <= t < e ==> is_digit(#[trigger] s[t]),
        e == s.len() || !is_digit(s[e]),
    ensures
        digit_run_end(s, i) == e,
    decreases e - i,
{
    if i < e {
        lemma_digit_run_of(s, i + 1, e);
    }
}

proof fn lemma_rt_uint(s: Seq<char>, i: int, n: nat)
    requires
        at(s, i, ser_uint(n)),
        i + ser_uint(n).len() == s.len() || !is_digit(s[i + ser_uint(n).len()]),
    ensures
        sp_uint(s, i) == Some((n, i + ser_uint(n).len())),
{
    let w = ser_uint(n).len();
    lemma_ser_uint_shape(n);
    assert forall|t: int| i <= t < i + w implies is_digit(#[trigger] s[t]) by {
        lemma_at_index(s, i, ser_uint(n), t - i);
    }
    lemma_digit_run_of(s, i, i + w);
    assert(s.subrange(i, i + w) == ser_uint(n));
    lemma_dec_value_of_ser(n);
}

proof fn lemma_rt_uint_ws(s: Seq<char>, i: int, w: Seq<char>, n: nat)
    requires
        at(s, i, w + ser_uint(n)),
        all_ws(w),
        i + w.len() + ser_uint(n).len() == s.len() || !is_digit(
            s[i + w.len() + ser_uint(n).len()],
        ),
    ensures
        sp_uint_ws(s, i) == Some((n, i + w.len() + ser_uint(n).len())),
{
    lemma_at_concat(s, i, w, ser_uint(n));
    assert forall|k: int| i <= k < i + w.len() implies is_json_ws(#[trigger] s[k]) by {
        lemma_at_index(s, i, w, k - i);
    }
    lemma_ser_uint_shape(n);
    lemma_at_index(s, i + w.len(), ser_uint(n), 0);
    assert(is_digit(s[i + w.len()]));
    assert(!is_json_ws(s[i + w.len()]));
    lemma_ws_run(s, i, i + w.len());
    lemma_rt_uint(s, i + w.len(), n);
}

#[verifier::rlimit(100)]
proof fn lemma_rt_field(s: Seq<char>, i: int, name: Seq<char>, x: Seq<char>)
    requires
        at(s, i, ser_field(name, x)),
        name.len() > 0,
        !is_json_ws(name[0]),
    ensures
        sp_field(s, i, name) == Some((x, i + ser_field(name, x).len())),
{
    reveal_strlit(": ");
    reveal_strlit(":");
    reveal_strlit(" ");
    reveal_strlit("\n        ");
    let ind = "\n        "@;
    assert(all_ws(ind));
    let y = ": "@ + ser_string(x);
    lemma_concat_associative(ind, name, y);
    lemma_at_concat(s, i, ind + name, y);
    lemma_rt_tok(s, i, ind, name);
    let a = i + ind.len() + name.len();
    assert(": "@ =~= ":"@ + " "@);
    lemma_concat_associative(":"@, " "@, ser_string(x));
    lemma_at_concat(s, a, ":"@, " "@ + ser_string(x));
    lemma_rt_tok0(s, a, ":"@);
    assert(all_ws(" "@)) by {
        assert(" "@[0] == ' ');
    }
    lemma_rt_string_ws(s, a + 1, " "@, x);
}

#[verifier::rlimit(100)]
proof fn lemma_rt_field_free(s: Seq<char>, i: int, w: Seq<char>, k: Seq<char>, v: Seq<char>)
    requires
        at(s, i, w + (ser_string(k) + (": "@ + ser_string(v)))),
        all_ws(w),
    ensures
        sp_string_ws(s, i) == Some((k, i + w.len() + ser_string(k).len())),
        sp_tok(s, i + w.len() + ser_string(k).len(), ":"@) == Some(
            i + w.len() + ser_string(k).len() + 1,
        ),
        sp_string_ws(s, i + w.len() + ser_string(k).len() + 1) == Some(
            (v, i + w.len() + ser_string(k).len() + 2 + ser_string(v).len()),
        ),
{
    reveal_strlit(": ");
    reveal_strlit(":");
    reveal_strlit(" ");
    let y = ": "@ + ser_string(v);
    lemma_concat_associative(w, ser_string(k), y);
    lemma_at_concat(s, i, w + ser_string(k), y);
    lemma_rt_string_ws(s, i, w, k);
    let a = i + w.len() + ser_string(k).len();
    assert(": "@ =~= ":"@ + " "@);
    lemma_concat_associative(":"@, " "@, ser_string(v));
    lemma_at_concat(s, a, ":"@, " "@ + ser_string(v));
    lemma_rt_tok0(s, a, ":"@);
    assert(all_ws(" "@)) by {
        assert(" "@[0] == ' ');
    }
    lemma_rt_string_ws(s, a + 1, " "@, v);
}

#[verifier::rlimit(100)]
proof fn lemma_rt_env_items(s: Seq<char>, i: int, ps: Seq<(Seq<char>, Seq<char>)>)
    requires
        ps.len() >= 1,
        at(s, i, ser_env_items(ps) + "\n  }"@),
    ensures
        sp_env_items(s, i) == Some((ps, i + ser_env_items(ps).len() + "\n  }"@.len())),
    decreases ps.len(),
{
    reveal_strlit("\n    ");
    reveal_strlit("\n  }");
    reveal_strlit(",");
    reveal_strlit(": ");
    let ws4 = "\n    "@;
    assert(all_ws(ws4));
    let p = ps.first();
    let pair = ser_env_pair(p);
    let term = "\n  }"@;
    if ps.len() == 1 {
        lemma_at_concat(s, i, ser_env_items(ps), term);
        lemma_rt_field_free(s, i, ws4, p.0, p.1);
        let r3 = i + 5 + ser_string(p.0).len() + 2 + ser_string(p.1).len();
        assert forall|k: int| r3 <= k < r3 + 3 implies is_json_ws(#[trigger] s[k]) by {
            lemma_at_index(s, r3, term, k - r3);
        }
        lemma_at_index(s, r3, term, 3);
        assert(s[r3 + 3] == '}');
        lemma_ws_run(s, r3, r3 + 3);
        assert(sp_env_items(s, i) == Some((seq![(p.0, p.1)], r3 + 4)));
        assert(seq![(p.0, p.1)] =~= ps);
    } else {
        let rest = ps.drop_first();
        let x = ","@ + ser_env_items(rest);
        lemma_concat_associative(ws4, pair + x, term);
        lemma_concat_associative(pair, x, term);
        lemma_concat_associative(","@, ser_env_items(rest), term);
        lemma_concat_associative(ws4, pair, x + term);
        assert(ser_env_items(ps) + term == (ws4 + pair) + (x + term));
        lemma_at_concat(s, i, ws4 + pair, x + term);
        lemma_rt_field_free(s, i, ws4, p.0, p.1);
        let r3 = i + 5 + ser_string(p.0).len() + 2 + ser_string(p.1).len();
        assert(x + term == ","@ + (ser_env_items(rest) + term));
        lemma_at_concat(s, r3, ","@, ser_env_items(rest) + term);
        lemma_at_index(s, r3, ","@, 0);
        assert(s[r3] == ',');
        assert(ws_end(s, r3) == r3);
        lemma_rt_env_items(s, r3 + 1, rest);
        assert(seq![(p.0, p.1)] + rest =~= ps);
    }
}

#[verifier::rlimit(100)]
proof fn lemma_rt_env(s: Seq<char>, i: int, w: Seq<char>, ps: Seq<(Seq<char>, Seq<char>)>)
    requires
        at(s, i, w + ser_env(ps)),
        all_ws(w),
    ensures
        sp_env(s, i) == Some((ps, i + w.len() + ser_env(ps).len())),
{
    reveal(ser_env);
    reveal_strlit("{}");
    reveal_strlit("{");
    reveal_strlit("}");
    reveal_strlit("\n    ");
    reveal_strlit("\n  }");
    if ps.len() == 0 {
        assert(w + ser_env(ps) =~= (w + "{"@) + "}"@) by {
            assert("{}"@ =~= "{"@ + "}"@);
        }
        lemma_at_concat(s, i, w + "{"@, "}"@);
        lemma_rt_tok(s, i, w, "{"@);
        let a = i + w.len() + 1;
        lemma_at_index(s, a, "}"@, 0);
        assert(s[a] == '}');
        assert(ws_end(s, a) == a);
        assert(sp_env(s, i) == Some((Seq::<(Seq<char>, Seq<char>)>::empty(), a + 1)));
        assert(Seq::<(Seq<char>, Seq<char>)>::empty() =~= ps);
    } else {
        let items = ser_env_items(ps);
        let term = "\n  }"@;
        lemma_concat_associative(w, "{"@, items + term);
        lemma_at_concat(s, i, w + "{"@, items + term);
        lemma_rt_tok(s, i, w, "{"@);
        let a = i + w.len() + 1;
        lemma_rt_env_items(s, a, ps);
        assert forall|k: int| a <= k < a + 5 implies is_json_ws(#[trigger] s[k]) by {
            lemma_at_index(s, a, items + term, k - a);
            assert((items + term)[k - a] == items[k - a]);
            assert(items[k - a] == "\n    "@[k - a]);
        }
        lemma_at_index(s, a, items + term, 5);
        assert((items + term)[5] == items[5]);
        assert(items[5] == ser_env_pair(ps.first())[0]);
        assert(ser_env_pair(ps.first())[0] == ser_string(ps.first().0)[0]);
        assert(ser_string(ps.first().0)[0] == '"');
        assert(s[a + 5] == '"');
        lemma_ws_run(s, a, a + 5);
        assert(ws_end(s, a) == a + 5);
        assert(s[a + 5] != '}');
    }
}

#[verifier::rlimit(100)]
proof fn lemma_rt_str_items(s: Seq<char>, i: int, l: Seq<Seq<char>>)
    requires
        l.len() >= 1,
        at(s, i, ser_str_items(l) + "\n    ]"@),
    ensures
        sp_str_items(s, i) == Some((l, i + ser_str_items(l).len() + "\n    ]"@.len())),
    decreases l.len(),
{
    reveal_strlit("\n      ");
    reveal_strlit("\n    ]");
    reveal_strlit(",");
    let ws6 = "\n      "@;
    assert(all_ws(ws6));
    let v = l.first();
    let term = "\n    ]"@;
    if l.len() == 1 {
        lemma_at_concat(s, i, ser_str_items(l), term);
        lemma_rt_string_ws(s, i, ws6, v);
        let r1 = i + 7 + ser_string(v).len();
        assert(ws_end(s, r1) == r1 + 5) by {
            assert forall|k: int| r1 <= k < r1 + 5 implies is_json_ws(#[trigger] s[k]) by {
                lemma_at_index(s, r1, term, k - r1);
            }
            lemma_at_index(s, r1, term, 5);
            lemma_ws_run(s, r1, r1 + 5);
        }
        lemma_at_index(s, r1, term, 5);
        assert(s[r1 + 5] == ']');
        assert(sp_str_items(s, i) == Some((seq![v], r1 + 6)));
        assert(seq![v] =~= l);
    } else {
        let rest = l.drop_first();
        let x = ","@ + ser_str_items(rest);
        lemma_concat_associative(ws6, ser_string(v) + x, term);
        lemma_concat_associative(ser_string(v), x, term);
        lemma_concat_associative(","@, ser_str_items(rest), term);
        lemma_concat_associative(ws6, ser_string(v), x + term);
        assert(ser_str_items(l) + term == (ws6 + ser_string(v)) + (x + term));
        lemma_at_concat(s, i, ws6 + ser_string(v), x + term);
        lemma_rt_string_ws(s, i, ws6, v);
        let r1 = i + 7 + ser_string(v).len();
        assert(x + term == ","@ + (ser_str_items(rest) + term));
        lemma_at_concat(s, r1, ","@, ser_str_items(rest) + term);
        lemma_at_index(s, r1, ","@, 0);
        assert(s[r1] == ',');
        assert(ws_end(s, r1) == r1);
        lemma_rt_str_items(s, r1 + 1, rest);
        assert(seq![v] + rest =~= l);
    }
}

#[verifier::rlimit(100)]
proof fn lemma_rt_str_list(s: Seq<char>, i: int, w: Seq<char>, l: Seq<Seq<char>>)
    requires
        at(s, i, w + ser_str_list(l)),
        all_ws(w),
    ensures
        sp_str_list(s, i) == Some((l, i + w.len() + ser_str_list(l).len())),
{
    reveal(ser_str_list);
    reveal_strlit("[]");
    reveal_strlit("[");
    reveal_strlit("]");
    reveal_strlit("\n      ");
    reveal_strlit("\n    ]");
    if l.len() == 0 {
        assert(w + ser_str_list(l) =~= (w + "["@) + "]"@) by {
            assert("[]"@ =~= "["@ + "]"@);
        }
        lemma_at_concat(s, i, w + "["@, "]"@);
        lemma_rt_tok(s, i, w, "["@);
        let a = i + w.len() + 1;
        lemma_at_index(s, a, "]"@, 0);
        assert(s[a] == ']');
        assert(ws_end(s, a) == a);
        assert(sp_str_list(s, i) == Some((Seq::<Seq<char>>::empty(), a + 1)));
        assert(Seq::<Seq<char>>::empty() =~= l);
    } else {
        let items = ser_str_items(l);
        let term = "\n    ]"@;
        lemma_concat_associative(w, "["@, items + term);
        lemma_at_concat(s, i, w + "["@, items + term);
        lemma_rt_tok(s, i, w, "["@);
        let a = i + w.len() + 1;
        lemma_rt_str_items(s, a, l);
        assert forall|k: int| a <= k < a + 7 implies is_json_ws(#[trigger] s[k]) by {
            lemma_at_index(s, a, items + term, k - a);
            assert((items + term)[k - a] == items[k - a]);
            assert(items[k - a] == "\n      "@[k - a]);
        }
        lemma_at_index(s, a, items + term, 7);
        assert((items + term)[7] == items[7]);
        assert(items[7] == ser_string(l.first())[0]);
        assert(ser_string(l.first())[0] == '"');
        assert(s[a + 7] == '"');
        lemma_ws_run(s, a, a + 7);
        assert(ws_end(s, a) == a + 7);
        assert(s[a + 7] != ']');
    }
}

/// A method's wire name reads back as that method.
proof fn lemma_method_name(m: HttpMethod)
    ensures
        method_of_name(m.spec_name()) == Some(m),
{
    reveal_strlit("GET");
    reveal_strlit("POST");
    reveal_strlit("PUT");
    reveal_strlit("DELETE");
    match m {
        HttpMethod::GET => {},
        HttpMethod::POST => {
            assert(m.spec_name().len() == 4);
            assert(m.spec_name() != "GET"@);
        },
        HttpMethod::PUT => {
            assert(m.spec_name()[0] == 'P');
            assert(m.spec_name().len() == 3);
            assert(m.spec_name() != "GET"@);
            assert(m.spec_name() != "POST"@);
        },
        HttpMethod::DELETE => {
            assert(m.spec_name().len() == 6);
            assert(m.spec_name() != "GET"@);
            assert(m.spec_name() != "POST"@);
            assert(m.spec_name() != "PUT"@);
        },
    }
}

#[verifier::rlimit(100)]
proof fn lemma_rt_request(s: Seq<char>, i: int, w: Seq<char>, m: ReqModel)
    requires
        at(s, i, w + ser_request(m)),
        all_ws(w),
    ensures
        sp_request(s, i) == Some((m, i + w.len() + ser_request(m).len())),
{
    reveal_strlit("{");
    reveal_strlit(",");
    reveal_strlit("\n      }");
    reveal_strlit("\"method\"");
    reveal_strlit("\"server\"");
    reveal_strlit("\"path\"");
    reveal_strlit("\"query\"");
    reveal_strlit("\"payload\"");
    reveal_strlit("\"headers\"");
    reveal_strlit("\"parsing_rules\"");
    let f0 = ser_field("\"method\""@, m.method.spec_name());
    let f1 = ser_field("\"server\""@, m.server);
    let f2 = ser_field("\"path\""@, m.path);
    let f3 = ser_field("\"query\""@, m.query);
    let f4 = ser_field("\"payload\""@, m.payload);
    let f5 = ser_field("\"headers\""@, m.headers);
    let f6 = ser_field("\"parsing_rules\""@, m.parsing_rules);
    let tail = "\n      }"@;
    reveal(ser_request);
    let t6 = f6 + tail;
    let u6 = ","@ + t6;
    let t5 = f5 + u6;
    let u5 = ","@ + t5;
    let t4 = f4 + u5;
    let u4 = ","@ + t4;
    let t3 = f3 + u4;
    let u3 = ","@ + t3;
    let t2 = f2 + u3;
    let u2 = ","@ + t2;
    let t1 = f1 + u2;
    let u1 = ","@ + t1;
    let t0 = f0 + u1;
    assert(ser_request(m) == "{"@ + t0);
    lemma_concat_associative(w, "{"@, t0);
    lemma_at_concat(s, i, w + "{"@, t0);
    lemma_rt_tok(s, i, w, "{"@);
    let r0 = i + w.len() + 1;
    lemma_at_concat(s, r0, f0, u1);
    lemma_rt_field(s, r0, "\"method\""@, m.method.spec_name());
    lemma_method_name(m.method);
    let r1 = r0 + f0.len();
    lemma_at_concat(s, r1, ","@, t1);
    lemma_rt_tok0(s, r1, ","@);
    let r2 = r1 + 1;
    lemma_at_concat(s, r2, f1, u2);
    lemma_rt_field(s, r2, "\"server\""@, m.server);
    let r3 = r2 + f1.len();
    lemma_at_concat(s, r3, ","@, t2);
    lemma_rt_tok0(s, r3, ","@);
    let r4 = r3 + 1;
    lemma_at_concat(s, r4, f2, u3);
    lemma_rt_field(s, r4, "\"path\""@, m.path);
    let r5 = r4 + f2.len();
    lemma_at_concat(s, r5, ","@, t3);
    lemma_rt_tok0(s, r5, ","@);
    let r6 = r5 + 1;
    lemma_at_concat(s, r6, f3, u4);
    lemma_rt_field(s, r6, "\"query\""@, m.query);
    let r7 = r6 + f3.len();
    lemma_at_concat(s, r7, ","@, t4);
    lemma_rt_tok0(s, r7, ","@);
    let r8 = r7 + 1;
    lemma_at_concat(s, r8, f4, u5);
    lemma_rt_field(s, r8, "\"payload\""@, m.payload);
    let r9 = r8 + f4.len();
    lemma_at_concat(s, r9, ","@, t5);
    lemma_rt_tok0(s, r9, ","@);
    let r10 = r9 + 1;
    lemma_at_concat(s, r10, f5, u6);
    lemma_rt_field(s, r10, "\"headers\""@, m.headers);
    let r11 = r10 + f5.len();
    lemma_at_concat(s, r11, ","@, t6);
    lemma_at_index(s, r11, ","@, 0);
    assert(s[r11] == ',');
    assert(ws_end(s, r11) == r11);
    lemma_at_concat(s, r11 + 1, f6, tail);
    lemma_rt_field(s, r11 + 1, "\"parsing_rules\""@, m.parsing_rules);
    let r12 = r11 + 1 + f6.len();
    assert forall|k: int| r12 <= k < r12 + 7 implies is_json_ws(#[trigger] s[k]) by {
        lemma_at_index(s, r12, tail, k - r12);
    }
    lemma_at_index(s, r12, tail, 7);
    assert(s[r12 + 7] == '}');
    lemma_ws_run(s, r12, r12 + 7);
    let base = ReqModel {
        method: m.method,
        server: m.server,
        path: m.path,
        query: m.query,
        payload: m.payload,
        headers: m.headers,
        parsing_rules: Seq::<char>::empty(),
    };
    assert(sp_request_tail(s, r11, base) == Some((m, r12 + 8)));
}

/// A serialized request starts with its opening brace.
proof fn lemma_ser_request_first(m: ReqModel)
    ensures
        ser_request(m).len() > 0,
        ser_request(m)[0] == '{',
{
    reveal(ser_request);
    reveal_strlit("{");
}

#[verifier::rlimit(100)]
proof fn lemma_rt_req_items_single(s: Seq<char>, i: int, l: Seq<ReqModel>)
    requires
        l.len() == 1,
        at(s, i, ser_req_items(l) + "\n    ]"@),
    ensures
        sp_req_items(s, i) == Some((l, i + ser_req_items(l).len() + "\n    ]"@.len())),
{
    reveal_strlit("\n      ");
    reveal_strlit("\n    ]");
    let ws6 = "\n      "@;
    assert(all_ws(ws6));
    let m = l.first();
    let term = "\n    ]"@;
    lemma_at_concat(s, i, ser_req_items(l), term);
    lemma_rt_request(s, i, ws6, m);
    let r1 = i + 7 + ser_request(m).len();
    assert forall|k: int| r1 <= k < r1 + 5 implies is_json_ws(#[trigger] s[k]) by {
        lemma_at_index(s, r1, term, k - r1);
    }
    lemma_at_index(s, r1, term, 5);
    assert(s[r1 + 5] == ']');
    lemma_ws_run(s, r1, r1 + 5);
    assert(sp_req_items(s, i) == Some((seq![m], r1 + 6)));
    assert(seq![m] =~= l);
}

#[verifier::rlimit(100)]
#[verifier::spinoff_prover]
proof fn lemma_rt_req_items(s: Seq<char>, i: int, l: Seq<ReqModel>)
    requires
        l.len() >= 1,
        at(s, i, ser_req_items(l) + "\n    ]"@),
    ensures
        sp_req_items(s, i) == Some((l, i + ser_req_items(l).len() + "\n    ]"@.len())),
    decreases l.len(),
{
    reveal_strlit("\n      ");
    reveal_strlit("\n    ]");
    reveal_strlit(",");
    let ws6 = "\n      "@;
    assert(all_ws(ws6));
    let m = l.first();
    let term = "\n    ]"@;
    if l.len() == 1 {
        lemma_rt_req_items_single(s, i, l);
    } else {
        let rest = l.drop_first();
        let x = ","@ + ser_req_items(rest);
        lemma_concat_associative(ws6, ser_request(m) + x, term);
        lemma_concat_associative(ser_request(m), x, term);
        lemma_concat_associative(","@, ser_req_items(rest), term);
        lemma_concat_associative(ws6, ser_request(m), x + term);
        assert(ser_req_items(l) + term == (ws6 + ser_request(m)) + (x + term));
        lemma_at_concat(s, i, ws6 + ser_request(m), x + term);
        lemma_rt_request(s, i, ws6, m);
        let r1 = i + 7 + ser_request(m).len();
        assert(x + term == ","@ + (ser_req_items(rest) + term));
        lemma_at_concat(s, r1, ","@, ser_req_items(rest) + term);
        lemma_at_index(s, r1, ","@, 0);
        assert(s[r1] == ',');
        assert(ws_end(s, r1) == r1);
        lemma_rt_req_items(s, r1 + 1, rest);
        assert(seq![m] + rest =~= l);
    }
}

/// A nonempty request list's items start with their indent and a brace.
proof fn lemma_ser_req_items_head(l: Seq<ReqModel>)
    requires
        l.len() >= 1,
    ensures
        ser_req_items(l).len() > 7,
        forall|k: int| 0 <= k < 7 ==> is_json_ws(#[trigger] ser_req_items(l)[k]),
        ser_req_items(l)[7] == '{',
{
    reveal_strlit("\n      ");
    lemma_ser_request_first(l.first());
    let ws6 = "\n      "@;
    if l.len() == 1 {
        assert forall|k: int| 0 <= k < 7 implies is_json_ws(#[trigger] ser_req_items(l)[k]) by {
            assert(ser_req_items(l)[k] == ws6[k]);
        }
        assert(ser_req_items(l)[7] == ser_request(l.first())[0]);
    } else {
        assert forall|k: int| 0 <= k < 7 implies is_json_ws(#[trigger] ser_req_items(l)[k]) by {
            assert(ser_req_items(l)[k] == ws6[k]);
        }
        assert(ser_req_items(l)[7] == ser_request(l.first())[0]);
    }
}

#[verifier::rlimit(100)]
proof fn lemma_rt_req_list(s: Seq<char>, i: int, w: Seq<char>, l: Seq<ReqModel>)
    requires
        at(s, i, w + ser_req_list(l)),
        all_ws(w),
    ensures
        sp_req_list(s, i) == Some((l, i + w.len() + ser_req_list(l).len())),
{
    reveal(ser_req_list);
    reveal_strlit("[]");
    reveal_strlit("[");
    reveal_strlit("]");
    reveal_strlit("{");
    reveal_strlit("\n      ");
    reveal_strlit("\n    ]");
    if l.len() == 0 {
        assert(w + ser_req_list(l) =~= (w + "["@) + "]"@) by {
            assert("[]"@ =~= "["@ + "]"@);
        }
        lemma_at_concat(s, i, w + "["@, "]"@);
        lemma_rt_tok(s, i, w, "["@);
        let a = i + w.len() + 1;
        lemma_at_index(s, a, "]"@, 0);
        assert(s[a] == ']');
        assert(ws_end(s, a) == a);
        assert(sp_req_list(s, i) == Some((Seq::<ReqModel>::empty(), a + 1)));
        assert(Seq::<ReqModel>::empty() =~= l);
    } else {
        let items = ser_req_items(l);
        let term = "\n    ]"@;
        lemma_concat_associative(w, "["@, items + term);
        lemma_at_concat(s, i, w + "["@, items + term);
        lemma_rt_tok(s, i, w, "["@);
        let a = i + w.len() + 1;
        lemma_rt_req_items(s, a, l);
        lemma_ser_req_items_head(l);
        assert forall|k: int| a <= k < a + 7 implies is_json_ws(#[trigger] s[k]) by {
            lemma_at_index(s, a, items + term, k - a);
            assert((items + term)[k - a] == items[k - a]);
        }
        lemma_at_index(s, a, items + term, 7);
        assert((items + term)[7] == items[7]);
        assert(s[a + 7] == '{');
        lemma_ws_run(s, a, a + 7);
        assert(ws_end(s, a) == a + 7);
        assert(s[a + 7] != ']');
    }
}

#[verifier::rlimit(100)]
proof fn lemma_rt_doc_servers(s: Seq<char>, i: int, m: RepoModel)
    requires
        at(
            s,
            i,
            ",\n  \"servers\": {\n    \"value\": "@ + (ser_str_list(m.server_urls) + (
            ",\n    \"active\": "@ + (ser_uint(m.server_active) + "\n  }"@))),
        ),
    ensures
        sp_doc_servers(s, i) == Some(
            (
                (m.server_urls, m.server_active),
                i + (",\n  \"servers\": {\n    \"value\": "@ + (ser_str_list(m.server_urls) + (
                ",\n    \"active\": "@ + (ser_uint(m.server_active) + "\n  }"@)))).len(),
            ),
        ),
{
    reveal(sp_doc_servers);
    reveal_strlit(",\n  \"servers\": {\n    \"value\": ");
    reveal_strlit(",\n    \"active\": ");
    reveal_strlit("\n  }");
    reveal_strlit(",");
    reveal_strlit(":");
    reveal_strlit(" ");
    reveal_strlit("{");
    reveal_strlit("}");
    reveal_strlit("\n  ");
    reveal_strlit("\n    ");
    reveal_strlit("\"servers\"");
    reveal_strlit("\"value\"");
    reveal_strlit("\"active\"");
    let e1 = ser_str_list(m.server_urls);
    let e2 = ser_uint(m.server_active);
    let tm = "\n  }"@;
    let r0 = e1 + (",\n    \"active\": "@ + (e2 + tm));
    let g2 = "\n  "@ + "\"servers\""@;
    let g4 = " "@ + "{"@;
    let g5 = "\n    "@ + "\"value\""@;
    let gtoks = ","@ + (g2 + (":"@ + (g4 + (g5 + ":"@))));
    assert(",\n  \"servers\": {\n    \"value\": "@ =~= gtoks + " "@);
    lemma_concat_associative(gtoks, " "@, r0);
    assert(at(s, i, gtoks + (" "@ + r0)));
    lemma_concat_associative(","@, g2 + (":"@ + (g4 + (g5 + ":"@))), " "@ + r0);
    lemma_at_concat(s, i, ","@, (g2 + (":"@ + (g4 + (g5 + ":"@)))) + (" "@ + r0));
    lemma_rt_tok0(s, i, ","@);
    let p1 = i + 1;
    lemma_concat_associative(g2, ":"@ + (g4 + (g5 + ":"@)), " "@ + r0);
    lemma_at_concat(s, p1, g2, (":"@ + (g4 + (g5 + ":"@))) + (" "@ + r0));
    assert(all_ws("\n  "@));
    lemma_rt_tok(s, p1, "\n  "@, "\"servers\""@);
    let p2 = p1 + 12;
    lemma_concat_associative(":"@, g4 + (g5 + ":"@), " "@ + r0);
    lemma_at_concat(s, p2, ":"@, (g4 + (g5 + ":"@)) + (" "@ + r0));
    lemma_rt_tok0(s, p2, ":"@);
    let p3 = p2 + 1;
    lemma_concat_associative(g4, g5 + ":"@, " "@ + r0);
    lemma_at_concat(s, p3, g4, (g5 + ":"@) + (" "@ + r0));
    assert(all_ws(" "@));
    lemma_rt_tok(s, p3, " "@, "{"@);
    let p4 = p3 + 2;
    lemma_concat_associative(g5, ":"@, " "@ + r0);
    lemma_at_concat(s, p4, g5, ":"@ + (" "@ + r0));
    assert(all_ws("\n    "@));
    lemma_rt_tok(s, p4, "\n    "@, "\"value\""@);
    let p5 = p4 + 12;
    lemma_at_concat(s, p5, ":"@, " "@ + r0);
    lemma_rt_tok0(s, p5, ":"@);
    let p6 = p5 + 1;
    lemma_concat_associative(" "@, e1, ",\n    \"active\": "@ + (e2 + tm));
    lemma_at_concat(s, p6, " "@ + e1, ",\n    \"active\": "@ + (e2 + tm));
    lemma_rt_str_list(s, p6, " "@, m.server_urls);
    let p7 = p6 + 1 + e1.len();
    let h2 = "\n    "@ + "\"active\""@;
    let htoks = ","@ + (h2 + ":"@);
    assert(",\n    \"active\": "@ =~= htoks + " "@);
    lemma_concat_associative(htoks, " "@, e2 + tm);
    assert(at(s, p7, htoks + (" "@ + (e2 + tm))));
    lemma_concat_associative(","@, h2 + ":"@, " "@ + (e2 + tm));
    lemma_at_concat(s, p7, ","@, (h2 + ":"@) + (" "@ + (e2 + tm)));
    lemma_rt_tok0(s, p7, ","@);
    let p8 = p7 + 1;
    lemma_concat_associative(h2, ":"@, " "@ + (e2 + tm));
    lemma_at_concat(s, p8, h2, ":"@ + (" "@ + (e2 + tm)));
    lemma_rt_tok(s, p8, "\n    "@, "\"active\""@);
    let p9 = p8 + 13;
    lemma_at_concat(s, p9, ":"@, " "@ + (e2 + tm));
    lemma_rt_tok0(s, p9, ":"@);
    let p10 = p9 + 1;
    lemma_concat_associative(" "@, e2, tm);
    lemma_at_concat(s, p10, " "@ + e2, tm);
    let p11 = p10 + 1 + e2.len();
    assert(s[p11] == '\n') by {
        lemma_at_index(s, p11, tm, 0);
    }
    lemma_rt_uint_ws(s, p10, " "@, m.server_active);
    assert(tm =~= "\n  "@ + "}"@);
    lemma_at_concat(s, p11, "\n  "@, "}"@);
    assert(at(s, p11, "\n  "@ + "}"@));
    lemma_rt_tok(s, p11, "\n  "@, "}"@);
}

#[verifier::rlimit(100)]
#[verifier::spinoff_prover]
proof fn lemma_rt_doc_requests_toks(s: Seq<char>, i: int, m: RepoModel)
    requires
        at(
            s,
            i,
            ",\n  \"requests\": {\n    \"value\": "@ + (ser_req_list(m.reqs) + (
            ",\n    \"active\": "@ + (ser_uint(m.req_active) + "\n  }\n}"@))),
        ),
        i + (",\n  \"requests\": {\n    \"value\": "@ + (ser_req_list(m.reqs) + (
        ",\n    \"active\": "@ + (ser_uint(m.req_active) + "\n  }\n}"@)))).len() == s.len(),
    ensures
        sp_tok(s, i, ","@) == Some(i + 1),
        sp_tok(s, i + 1, "\"requests\""@) == Some(i + 14),
        sp_tok(s, i + 14, ":"@) == Some(i + 15),
        sp_tok(s, i + 15, "{"@) == Some(i + 17),
        sp_tok(s, i + 17, "\"value\""@) == Some(i + 29),
        sp_tok(s, i + 29, ":"@) == Some(i + 30),
        sp_req_list(s, i + 30) == Some((m.reqs, i + 31 + ser_req_list(m.reqs).len())),
        sp_tok(s, i + 31 + ser_req_list(m.reqs).len(), ","@) == Some(
            i + 32 + ser_req_list(m.reqs).len(),
        ),
        sp_tok(s, i + 32 + ser_req_list(m.reqs).len(), "\"active\""@) == Some(
            i + 45 + ser_req_list(m.reqs).len(),
        ),
        sp_tok(s, i + 45 + ser_req_list(m.reqs).len(), ":"@) == Some(
            i + 46 + ser_req_list(m.reqs).len(),
        ),
        sp_uint_ws(s, i + 46 + ser_req_list(m.reqs).len()) == Some(
            (
                m.req_active,
                i + 47 + ser_req_list(m.reqs).len() + ser_uint(m.req_active).len(),
            ),
        ),
        sp_tok(s, i + 47 + ser_req_list(m.reqs).len() + ser_uint(m.req_active).len(), "}"@)
            == Some(i + 51 + ser_req_list(m.reqs).len() + ser_uint(m.req_active).len()),
        sp_tok(s, i + 51 + ser_req_list(m.reqs).len() + ser_uint(m.req_active).len(), "}"@)
            == Some(i + 53 + ser_req_list(m.reqs).len() + ser_uint(m.req_active).len()),
        i + 53 + ser_req_list(m.reqs).len() + ser_uint(m.req_active).len() == s.len(),
{
    reveal_strlit(",\n  \"requests\": {\n    \"value\": ");
    reveal_strlit(",\n    \"active\": ");
    reveal_strlit("\n  }\n}");
    reveal_strlit(",");
    reveal_strlit(":");
    reveal_strlit(" ");
    reveal_strlit("{");
    reveal_strlit("}");
    reveal_strlit("\n");
    reveal_strlit("\n  ");
    reveal_strlit("\n    ");
    reveal_strlit("\"requests\"");
    reveal_strlit("\"value\"");
    reveal_strlit("\"active\"");
    let e1 = ser_req_list(m.reqs);
    let e2 = ser_uint(m.req_active);
    let tm = "\n  }\n}"@;
    let r0 = e1 + (",\n    \"active\": "@ + (e2 + tm));
    let g2 = "\n  "@ + "\"requests\""@;
    let g4 = " "@ + "{"@;
    let g5 = "\n    "@ + "\"value\""@;
    let gtoks = ","@ + (g2 + (":"@ + (g4 + (g5 + ":"@))));
    assert(",\n  \"requests\": {\n    \"value\": "@ =~= gtoks + " "@);
    lemma_concat_associative(gtoks, " "@, r0);
    assert(at(s, i, gtoks + (" "@ + r0)));
    lemma_concat_associative(","@, g2 + (":"@ + (g4 + (g5 + ":"@))), " "@ + r0);
    lemma_at_concat(s, i, ","@, (g2 + (":"@ + (g4 + (g5 + ":"@)))) + (" "@ + r0));
    lemma_rt_tok0(s, i, ","@);
    let p1 = i + 1;
    lemma_concat_associative(g2, ":"@ + (g4 + (g5 + ":"@)), " "@ + r0);
    lemma_at_concat(s, p1, g2, (":"@ + (g4 + (g5 + ":"@))) + (" "@ + r0));
    assert(all_ws("\n  "@));
    lemma_rt_tok(s, p1, "\n  "@, "\"requests\""@);
    let p2 = p1 + 13;
    lemma_concat_associative(":"@, g4 + (g5 + ":"@), " "@ + r0);
    lemma_at_concat(s, p2, ":"@, (g4 + (g5 + ":"@)) + (" "@ + r0));
    lemma_rt_tok0(s, p2, ":"@);
    let p3 = p2 + 1;
    lemma_concat_associative(g4, g5 + ":"@, " "@ + r0);
    lemma_at_concat(s, p3, g4, (g5 + ":"@) + (" "@ + r0));
    assert(all_ws(" "@));
    lemma_rt_tok(s, p3, " "@, "{"@);
    let p4 = p3 + 2;
    lemma_concat_associative(g5, ":"@, " "@ + r0);
    lemma_at_concat(s, p4, g5, ":"@ + (" "@ + r0));
    assert(all_ws("\n    "@));
    lemma_rt_tok(s, p4, "\n    "@, "\"value\""@);
    let p5 = p4 + 12;
    lemma_at_concat(s, p5, ":"@, " "@ + r0);
    lemma_rt_tok0(s, p5, ":"@);
    let p6 = p5 + 1;
    lemma_concat_associative(" "@, e1, ",\n    \"active\": "@ + (e2 + tm));
    lemma_at_concat(s, p6, " "@ + e1, ",\n    \"active\": "@ + (e2 + tm));
    lemma_rt_req_list(s, p6, " "@, m.reqs);
    let p7 = p6 + 1 + e1.len();
    let h2 = "\n    "@ + "\"active\""@;
    let htoks = ","@ + (h2 + ":"@);
    assert(",\n    \"active\": "@ =~= htoks + " "@);
    lemma_concat_associative(htoks, " "@, e2 + tm);
    assert(at(s, p7, htoks + (" "@ + (e2 + tm))));
    lemma_concat_associative(","@, h2 + ":"@, " "@ + (e2 + tm));
    lemma_at_concat(s, p7, ","@, (h2 + ":"@) + (" "@ + (e2 + tm)));
    lemma_rt_tok0(s, p7, ","@);
    let p8 = p7 + 1;
    lemma_concat_associative(h2, ":"@, " "@ + (e2 + tm));
    lemma_at_concat(s, p8, h2, ":"@ + (" "@ + (e2 + tm)));
    lemma_rt_tok(s, p8, "\n    "@, "\"active\""@);
    let p9 = p8 + 13;
    lemma_at_concat(s, p9, ":"@, " "@ + (e2 + tm));
    lemma_rt_tok0(s, p9, ":"@);
    let p10 = p9 + 1;
    lemma_concat_associative(" "@, e2, tm);
    lemma_at_concat(s, p10, " "@ + e2, tm);
    let p11 = p10 + 1 + e2.len();
    assert(s[p11] == '\n') by {
        lemma_at_index(s, p11, tm, 0);
    }
    lemma_rt_uint_ws(s, p10, " "@, m.req_active);
    assert(tm =~= ("\n  "@ + "}"@) + ("\n"@ + "}"@));
    lemma_at_concat(s, p11, "\n  "@ + "}"@, "\n"@ + "}"@);
    lemma_rt_tok(s, p11, "\n  "@, "}"@);
    let p12 = p11 + 4;
    lemma_at_concat(s, p12, "\n"@, "}"@);
    assert(at(s, p12, "\n"@ + "}"@));
    assert(all_ws("\n"@));
    lemma_rt_tok(s, p12, "\n"@, "}"@);
    let p13 = p12 + 2;
    assert(p13 == s.len());
    assert(ws_end(s, p13) == p13);
}

#[verifier::rlimit(100)]
proof fn lemma_rt_doc_requests(s: Seq<char>, i: int, m: RepoModel)
    requires
        at(
            s,
            i,
            ",\n  \"requests\": {\n    \"value\": "@ + (ser_req_list(m.reqs) + (
            ",\n    \"active\": "@ + (ser_uint(m.req_active) + "\n  }\n}"@))),
        ),
        i + (",\n  \"requests\": {\n    \"value\": "@ + (ser_req_list(m.reqs) + (
        ",\n    \"active\": "@ + (ser_uint(m.req_active) + "\n  }\n}"@)))).len() == s.len(),
    ensures
        sp_doc_requests(s, i) == Some((m.reqs, m.req_active)),
{
    lemma_rt_doc_requests_toks(s, i, m);
    reveal(sp_doc_requests);
    assert(ws_end(s, s.len() as int) == s.len());
}

/// The head of the document: the opening brace, the env key and the
/// environment object.
#[verifier::rlimit(100)]
proof fn lemma_rt_doc_head(s: Seq<char>, ps: Seq<(Seq<char>, Seq<char>)>, rest: Seq<char>)
    requires
        at(s, 0, "{\n  \"env\": "@ + (ser_env(ps) + rest)),
    ensures
        sp_tok(s, 0, "{"@) == Some(1int),
        sp_tok(s, 1, "\"env\""@) == Some(9int),
        sp_tok(s, 9, ":"@) == Some(10int),
        sp_env(s, 10) == Some((ps, 11 + ser_env(ps).len() as int)),
        at(s, 11 + ser_env(ps).len() as int, rest),
{
    reveal_strlit("{\n  \"env\": ");
    reveal_strlit("{");
    reveal_strlit(":");
    reveal_strlit(" ");
    reveal_strlit("\n  ");
    reveal_strlit("\"env\"");
    let g2 = "\n  "@ + "\"env\""@;
    let gtoks = "{"@ + (g2 + ":"@);
    assert("{\n  \"env\": "@ =~= gtoks + " "@);
    lemma_concat_associative(gtoks, " "@, ser_env(ps) + rest);
    assert(at(s, 0, gtoks + (" "@ + (ser_env(ps) + rest))));
    lemma_concat_associative("{"@, g2 + ":"@, " "@ + (ser_env(ps) + rest));
    lemma_at_concat(s, 0, "{"@, (g2 + ":"@) + (" "@ + (ser_env(ps) + rest)));
    lemma_rt_tok0(s, 0, "{"@);
    lemma_concat_associative(g2, ":"@, " "@ + (ser_env(ps) + rest));
    lemma_at_concat(s, 1, g2, ":"@ + (" "@ + (ser_env(ps) + rest)));
    assert(all_ws("\n  "@));
    lemma_rt_tok(s, 1, "\n  "@, "\"env\""@);
    lemma_at_concat(s, 9, ":"@, " "@ + (ser_env(ps) + rest));
    lemma_rt_tok0(s, 9, ":"@);
    lemma_concat_associative(" "@, ser_env(ps), rest);
    lemma_at_concat(s, 10, " "@ + ser_env(ps), rest);
    assert(all_ws(" "@));
    lemma_rt_env(s, 10, " "@, ps);
}

/// The law of the persistence codec: a well-formed document content,
/// serialized and deserialized, comes back exactly.
#[verifier::rlimit(100)]
#[verifier::spinoff_prover]
proof fn lemma_ser_shape(m: RepoModel)
    ensures
        spec_serialize(m) == "{\n  \"env\": "@ + (ser_env(m.env) + ((
        ",\n  \"servers\": {\n    \"value\": "@ + (ser_str_list(m.server_urls) + (
        ",\n    \"active\": "@ + (ser_uint(m.server_active) + "\n  }"@)))) + (
        ",\n  \"requests\": {\n    \"value\": "@ + (ser_req_list(m.reqs) + (
        ",\n    \"active\": "@ + (ser_uint(m.req_active) + "\n  }\n}"@)))))),
{
    reveal_strlit("\n  },\n  \"requests\": {\n    \"value\": ");
    reveal_strlit(",\n  \"requests\": {\n    \"value\": ");
    reveal_strlit("\n  }");
    let e1 = ser_str_list(m.server_urls);
    let l1 = ",\n  \"servers\": {\n    \"value\": "@;
    let l2 = ",\n    \"active\": "@;
    let e2 = ser_uint(m.server_active);
    let l3 = "\n  },\n  \"requests\": {\n    \"value\": "@;
    let tm = "\n  }"@;
    let l3b = ",\n  \"requests\": {\n    \"value\": "@;
    let e3 = ser_req_list(m.reqs);
    let l4 = ",\n    \"active\": "@;
    let e4 = ser_uint(m.req_active);
    let l5 = "\n  }\n}"@;
    let r3 = e3 + (l4 + (e4 + l5));
    let sv = l1 + (e1 + (l2 + (e2 + tm)));
    let rq = l3b + r3;
    assert(l3 =~= tm + l3b);
    lemma_concat_associative(tm, l3b, r3);
    assert(l3 + r3 == tm + rq);
    lemma_concat_associative(e2, tm, rq);
    assert(e2 + (l3 + r3) == (e2 + tm) + rq);
    lemma_concat_associative(l2, e2 + tm, rq);
    assert(l2 + (e2 + (l3 + r3)) == (l2 + (e2 + tm)) + rq);
    lemma_concat_associative(e1, l2 + (e2 + tm), rq);
    assert(e1 + (l2 + (e2 + (l3 + r3))) == (e1 + (l2 + (e2 + tm))) + rq);
    lemma_concat_associative(l1, e1 + (l2 + (e2 + tm)), rq);
    assert(l1 + (e1 + (l2 + (e2 + (l3 + r3)))) == sv + rq);
}

#[verifier::rlimit(100)]
#[verifier::spinoff_prover]
pub proof fn lemma_serialize_round_trip(m: RepoModel)
    requires
        model_wf(m),
    ensures
        spec_deserialize(spec_serialize(m)) == Some(m),
{
    reveal_strlit("{\n  \"env\": ");
    let s = spec_serialize(m);
    let e0 = ser_env(m.env);
    let sv = ",\n  \"servers\": {\n    \"value\": "@ + (ser_str_list(m.server_urls) + (
    ",\n    \"active\": "@ + (ser_uint(m.server_active) + "\n  }"@)));
    let rq = ",\n  \"requests\": {\n    \"value\": "@ + (ser_req_list(m.reqs) + (
    ",\n    \"active\": "@ + (ser_uint(m.req_active) + "\n  }\n}"@)));
    lemma_ser_shape(m);
    assert("{\n  \"env\": "@.len() == 11);
    assert(s == "{\n  \"env\": "@ + (e0 + (sv + rq)));
    assert(at(s, 0, "{\n  \"env\": "@ + (e0 + (sv + rq)))) by {
        assert(s.subrange(0, s.len() as int) =~= s);
    }
    lemma_rt_doc_head(s, m.env, sv + rq);
    let d: int = 11 + e0.len() as int;
    lemma_at_concat(s, d, sv, rq);
    lemma_rt_doc_servers(s, d, m);
    let e = d + sv.len();
    lemma_rt_doc_requests(s, e, m);
    assert(sp_document(s) == Some(m));
}

/// The round trip at the level of the repository itself: what the codec
/// writes for any well-formed repository, it reads back exactly.
pub proof fn lemma_repository_round_trip(repo: LocalStorageRepository)
    requires
        repo.wf(),
    ensures
        spec_deserialize(spec_serialize(repo.model())) == Some(repo.model()),
{
    assert(model_wf(repo.model()));
    lemma_serialize_round_trip(repo.model());
}

// ---------------------------------------------------------------------
// The executable serializer.
// ---------------------------------------------------------------------
proof fn lemma_ser_escape_snoc(x: Seq<char>, c: char)
    ensures
        ser_escape(x.push(c)) == ser_escape(x) + esc_char(c),
    decreases x.len(),
{
    if x.len() == 0 {
        assert(x.push(c).len() == 1);
        assert(x.push(c).first() == c);
        assert(x.push(c).drop_first() =~= Seq::<char>::empty());
        assert(ser_escape(x.push(c)) == esc_char(c) + ser_escape(x.push(c).drop_first()));
        assert(ser_escape(x.push(c).drop_first()) == Seq::<char>::empty());
        assert(ser_escape(x) == Seq::<char>::empty());
        assert(ser_escape(x.push(c)) =~= ser_escape(x) + esc_char(c));
    } else {
        assert(x.push(c).first() == x.first());
        assert(x.push(c).drop_first() =~= x.drop_first().push(c));
        lemma_ser_escape_snoc(x.drop_first(), c);
        assert(esc_char(x.first()) + (ser_escape(x.drop_first()) + esc_char(c)) =~= (esc_char(
            x.first(),
        ) + ser_escape(x.drop_first())) + esc_char(c));
    }
}

/// Appends one JSON string (quotes and escapes included) to the output.
#[verifier::rlimit(100)]
fn push_ser_string(out: &mut String, s: &str)
    ensures
        final(out)@ == old(out)@ + ser_string(s@),
{
    let chars = crate::text::to_chars(s);
    let n = chars.len();
    crate::text::string_push(out, '"');
    let ghost base = out@;
    let mut i: usize = 0;
    proof {
        assert(chars@.take(0) =~= Seq::<char>::empty());
        assert(base + ser_escape(chars@.take(0)) =~= base);
    }
    while i < n
        invariant
            n == chars@.len(),
            chars@ == s@,
            i <= n,
            out@ == base + ser_escape(chars@.take(i as int)),
        decreases n - i,
    {
        let c = chars[i];
        if c == '"' || c == '\\' {
            crate::text::string_push(out, '\\');
            crate::text::string_push(out, c);
        } else if c == '\u{8}' {
            crate::text::string_push(out, '\\');
            crate::text::string_push(out, 'b');
        } else if c == '\u{c}' {
            crate::text::string_push(out, '\\');
            crate::text::string_push(out, 'f');
        } else if c == '\n' {
            crate::text::string_push(out, '\\');
            crate::text::string_push(out, 'n');
        } else if c == '\r' {
            crate::text::string_push(out, '\\');
            crate::text::string_push(out, 'r');
        } else if c == '\t' {
            crate::text::string_push(out, '\\');
            crate::text::string_push(out, 't');
        } else if (c as u32) < 32 {
            let u = c as u32;
            crate::text::string_push(out, '\\');
            crate::text::string_push(out, 'u');
            crate::text::string_push(out, '0');
            crate::text::string_push(out, '0');
            let hi: char = if u / 16 == 0 {
                '0'
            } else {
                '1'
            };
            let lo_val = u % 16;
            let lo: char = if lo_val == 0 {
                '0'
            } else if lo_val == 1 {
                '1'
            } else if lo_val == 2 {
                '2'
            } else if lo_val == 3 {
                '3'
            } else if lo_val == 4 {
                '4'
            } else if lo_val == 5 {
                '5'
            } else if lo_val == 6 {
                '6'
            } else if lo_val == 7 {
                '7'
            } else if lo_val == 8 {
                '8'
            } else if lo_val == 9 {
                '9'
            } else if lo_val == 10 {
                'a'
            } else if lo_val == 11 {
                'b'
            } else if lo_val == 12 {
                'c'
            } else if lo_val == 13 {
                'd'
            } else if lo_val == 14 {
                'e'
            } else {
                'f'
            };
            crate::text::string_push(out, hi);
            crate::text::string_push(out, lo);
            proof {
                assert(hi == hex_digit_char((u / 16) as nat));
                assert(lo == hex_digit_char((u % 16) as nat));
            }
        } else {
            crate::text::string_push(out, c);
        }
        proof {
            lemma_ser_escape_snoc(chars@.take(i as int), c);
            assert(chars@.take(i as int).push(c) =~= chars@.take(i as int + 1));
            assert(out@ =~= base + ser_escape(chars@.take(i as int + 1)));
        }
        i = i + 1;
    }
    crate::text::string_push(out, '"');
    proof {
        assert(chars@.take(n as int) =~= chars@);
        assert(out@ =~= old(out)@ + ser_string(s@));
    }
}

/// Appends a number in decimal to the output.
fn push_ser_uint(out: &mut String, n: usize)
    ensures
        final(out)@ == old(out)@ + ser_uint(n as nat),
    decreases n,
{
    if n >= 10 {
        push_ser_uint(out, n / 10);
    }
    let d = n % 10;
    let c = if d == 0 {
        '0'
    } else if d == 1 {
        '1'
    } else if d == 2 {
        '2'
    } else if d == 3 {
        '3'
    } else if d == 4 {
        '4'
    } else if d == 5 {
        '5'
    } else if d == 6 {
        '6'
    } else if d == 7 {
        '7'
    } else if d == 8 {
        '8'
    } else {
        '9'
    };
    crate::text::string_push(out, c);
    proof {
        assert(c == digit_char((n % 10) as nat));
        if n < 10 {
            assert(ser_uint(n as nat) == seq![digit_char(n as nat)]);
            assert(out@ =~= old(out)@ + ser_uint(n as nat));
        } else {
            assert(out@ =~= old(out)@ + ser_uint(n as nat));
        }
    }
}

/// Appends one request field, on its own line, to the output.
fn push_ser_field(out: &mut String, name: &str, v: &str)
    ensures
        final(out)@ == old(out)@ + ser_field(name@, v@),
{
    out.append("\n        ");
    out.append(name);
    out.append(": ");
    push_ser_string(out, v);
    proof {
        assert(out@ =~= old(out)@ + ser_field(name@, v@));
    }
}

/// Appends one request object to the output.
#[verifier::rlimit(100)]
#[verifier::spinoff_prover]
fn push_ser_request(out: &mut String, r: &RequestInput)
    ensures
        final(out)@ == old(out)@ + ser_request(r.model()),
{
    crate::text::string_push(out, '{');
    push_ser_field(out, "\"method\"", r.method.to_string().as_str());
    crate::text::string_push(out, ',');
    push_ser_field(out, "\"server\"", r.server.as_str());
    crate::text::string_push(out, ',');
    push_ser_field(out, "\"path\"", r.path.as_str());
    crate::text::string_push(out, ',');
    push_ser_field(out, "\"query\"", r.query.as_str());
    crate::text::string_push(out, ',');
    push_ser_field(out, "\"payload\"", r.payload.as_str());
    crate::text::string_push(out, ',');
    push_ser_field(out, "\"headers\"", r.headers.as_str());
    crate::text::string_push(out, ',');
    push_ser_field(out, "\"parsing_rules\"", r.parsing_rules.as_str());
    out.append("\n      }");
    proof {
        reveal(ser_request);
        reveal_strlit(",");
        reveal_strlit("{");
        assert(seq![','] =~= ","@);
        assert(seq!['{'] =~= "{"@);
        assert(out@ =~= old(out)@ + ser_request(r.model()));
    }
}

proof fn lemma_env_items_snoc(ps: Seq<(Seq<char>, Seq<char>)>, k: int)
    requires
        1 <= k < ps.len(),
    ensures
        ser_env_items(ps.take(k + 1)) == ser_env_items(ps.take(k)) + (","@ + ("\n    "@
            + ser_env_pair(ps[k]))),
    decreases k,
{
    let ws4 = "\n    "@;
    assert(ps.take(k + 1).first() == ps[0]);
    assert(ps.take(k).first() == ps[0]);
    assert(ps.take(k + 1).drop_first() =~= ps.drop_first().take(k));
    assert(ps.take(k).drop_first() =~= ps.drop_first().take(k - 1));
    assert(ps.drop_first()[k - 1] == ps[k]);
    if k == 1 {
        assert(ser_env_items(ps.take(2)) == ws4 + (ser_env_pair(ps[0]) + (","@ + ser_env_items(
            ps.drop_first().take(1),
        ))));
        assert(ser_env_items(ps.drop_first().take(1)) == ws4 + ser_env_pair(ps[1]));
        assert(ser_env_items(ps.take(1)) == ws4 + ser_env_pair(ps[0]));
        assert(ser_env_items(ps.take(2)) =~= ser_env_items(ps.take(1)) + (","@ + (ws4
            + ser_env_pair(ps[1]))));
    } else {
        lemma_env_items_snoc(ps.drop_first(), k - 1);
        assert(ser_env_items(ps.take(k + 1)) == ws4 + (ser_env_pair(ps[0]) + (","@
            + ser_env_items(ps.drop_first().take(k)))));
        assert(ser_env_items(ps.take(k)) == ws4 + (ser_env_pair(ps[0]) + (","@ + ser_env_items(
            ps.drop_first().take(k - 1),
        ))));
        assert(ser_env_items(ps.take(k + 1)) =~= ser_env_items(ps.take(k)) + (","@ + (ws4
            + ser_env_pair(ps[k]))));
    }
}

/// Appends the environment object to the output.
#[verifier::rlimit(100)]
fn push_ser_env(out: &mut String, env: &crate::strmap::StrMap)
    ensures
        final(out)@ == old(out)@ + ser_env(env.spec_pairs()),
{
    proof {
        reveal(ser_env);
    }
    let env_pairs = env.entries();
    let n_env = env_pairs.len();
    let ghost menv = env.spec_pairs();
    if n_env == 0 {
        out.append("{}");
        proof {
            assert(out@ =~= old(out)@ + ser_env(menv));
        }
        return ;
    }
    crate::text::string_push(out, '{');
    proof {
        reveal_strlit("{");
        assert(seq!['{'] =~= "{"@);
    }
    let ghost base = out@;
    let mut i: usize = 0;
    while i < n_env
        invariant
            n_env == env_pairs@.len(),
            n_env >= 1,
            env_pairs@.map_values(|p: (String, String)| (p.0@, p.1@)) == menv,
            i <= n_env,
            i == 0 ==> out@ == base,
            i >= 1 ==> out@ == base + ser_env_items(menv.take(i as int)),
        decreases n_env - i,
    {
        if i > 0 {
            crate::text::string_push(out, ',');
        }
        out.append("\n    ");
        push_ser_string(out, env_pairs[i].0.as_str());
        out.append(": ");
        push_ser_string(out, env_pairs[i].1.as_str());
        proof {
            assert(menv[i as int] == (env_pairs@[i as int].0@, env_pairs@[i as int].1@));
            reveal_strlit(",");
            assert(seq![','] =~= ","@);
            if i == 0 {
                assert(menv.take(1).first() == menv[0]);
                assert(out@ =~= base + ser_env_items(menv.take(1)));
            } else {
                lemma_env_items_snoc(menv, i as int);
                assert(out@ =~= base + ser_env_items(menv.take(i as int + 1)));
            }
        }
        i = i + 1;
    }
    proof {
        assert(menv.take(n_env as int) =~= menv);
    }
    out.append("\n  }");
    proof {
        reveal_strlit("{");
        assert(seq!['{'] =~= "{"@);
        assert(out@ =~= old(out)@ + ser_env(menv));
    }
}

proof fn lemma_str_items_snoc(l: Seq<Seq<char>>, k: int)
    requires
        1 <= k < l.len(),
    ensures
        ser_str_items(l.take(k + 1)) == ser_str_items(l.take(k)) + (","@ + ("\n      "@
            + ser_string(l[k]))),
    decreases k,
{
    let ws6 = "\n      "@;
    assert(l.take(k + 1).first() == l[0]);
    assert(l.take(k).first() == l[0]);
    assert(l.take(k + 1).drop_first() =~= l.drop_first().take(k));
    assert(l.take(k).drop_first() =~= l.drop_first().take(k - 1));
    assert(l.drop_first()[k - 1] == l[k]);
    if k == 1 {
        assert(ser_str_items(l.take(2)) == ws6 + (ser_string(l[0]) + (","@ + ser_str_items(
            l.drop_first().take(1),
        ))));
        assert(ser_str_items(l.drop_first().take(1)) == ws6 + ser_string(l[1]));
        assert(ser_str_items(l.take(1)) == ws6 + ser_string(l[0]));
        assert(ser_str_items(l.take(2)) =~= ser_str_items(l.take(1)) + (","@ + (ws6 + ser_string(
            l[1],
        ))));
    } else {
        lemma_str_items_snoc(l.drop_first(), k - 1);
        assert(ser_str_items(l.take(k + 1)) == ws6 + (ser_string(l[0]) + (","@ + ser_str_items(
            l.drop_first().take(k),
        ))));
        assert(ser_str_items(l.take(k)) == ws6 + (ser_string(l[0]) + (","@ + ser_str_items(
            l.drop_first().take(k - 1),
        ))));
        assert(ser_str_items(l.take(k + 1)) =~= ser_str_items(l.take(k)) + (","@ + (ws6
            + ser_string(l[k]))));
    }
}

/// Appends the server-URL list to the output.
#[verifier::rlimit(100)]
fn push_ser_str_list(out: &mut String, v: &Vec<String>)
    ensures
        final(out)@ == old(out)@ + ser_str_list(v@.map_values(|s: String| s@)),
{
    proof {
        reveal(ser_str_list);
    }
    let n = v.len();
    let ghost murls = v@.map_values(|s: String| s@);
    if n == 0 {
        out.append("[]");
        proof {
            assert(out@ =~= old(out)@ + ser_str_list(murls));
        }
        return ;
    }
    crate::text::string_push(out, '[');
    proof {
        reveal_strlit("[");
        assert(seq!['['] =~= "["@);
    }
    let ghost base = out@;
    let mut i: usize = 0;
    while i < n
        invariant
            n == v@.len(),
            n >= 1,
            v@.map_values(|s: String| s@) == murls,
            i <= n,
            i == 0 ==> out@ == base,
            i >= 1 ==> out@ == base + ser_str_items(murls.take(i as int)),
        decreases n - i,
    {
        if i > 0 {
            crate::text::string_push(out, ',');
        }
        out.append("\n      ");
        push_ser_string(out, v[i].as_str());
        proof {
            assert(murls[i as int] == v@[i as int]@);
            reveal_strlit(",");
            assert(seq![','] =~= ","@);
            if i == 0 {
                assert(murls.take(1).first() == murls[0]);
                assert(out@ =~= base + ser_str_items(murls.take(1)));
            } else {
                lemma_str_items_snoc(murls, i as int);
                assert(out@ =~= base + ser_str_items(murls.take(i as int + 1)));
            }
        }
        i = i + 1;
    }
    proof {
        assert(murls.take(n as int) =~= murls);
    }
    out.append("\n    ]");
    proof {
        reveal_strlit("[");
        assert(seq!['['] =~= "["@);
        assert(out@ =~= old(out)@ + ser_str_list(murls));
    }
}

proof fn lemma_req_items_snoc(l: Seq<ReqModel>, k: int)
    requires
        1 <= k < l.len(),
    ensures
        ser_req_items(l.take(k + 1)) == ser_req_items(l.take(k)) + (","@ + ("\n      "@
            + ser_request(l[k]))),
    decreases k,
{
    let ws6 = "\n      "@;
    assert(l.take(k + 1).first() == l[0]);
    assert(l.take(k).first() == l[0]);
    assert(l.take(k + 1).drop_first() =~= l.drop_first().take(k));
    assert(l.take(k).drop_first() =~= l.drop_first().take(k - 1));
    assert(l.drop_first()[k - 1] == l[k]);
    if k == 1 {
        assert(ser_req_items(l.take(2)) == ws6 + (ser_request(l[0]) + (","@ + ser_req_items(
            l.drop_first().take(1),
        ))));
        assert(ser_req_items(l.drop_first().take(1)) == ws6 + ser_request(l[1]));
        assert(ser_req_items(l.take(1)) == ws6 + ser_request(l[0]));
        assert(ser_req_items(l.take(2)) =~= ser_req_items(l.take(1)) + (","@ + (ws6 + ser_request(
            l[1],
        ))));
    } else {
        lemma_req_items_snoc(l.drop_first(), k - 1);
        assert(ser_req_items(l.take(k + 1)) == ws6 + (ser_request(l[0]) + (","@ + ser_req_items(
            l.drop_first().take(k),
        ))));
        assert(ser_req_items(l.take(k)) == ws6 + (ser_request(l[0]) + (","@ + ser_req_items(
            l.drop_first().take(k - 1),
        ))));
        assert(ser_req_items(l.take(k + 1)) =~= ser_req_items(l.take(k)) + (","@ + (ws6
            + ser_request(l[k]))));
    }
}

/// Appends the request list to the output.
#[verifier::rlimit(100)]
fn push_ser_req_list(out: &mut String, v: &Vec<RequestInput>)
    ensures
        final(out)@ == old(out)@ + ser_req_list(v@.map_values(|r: RequestInput| r.model())),
{
    proof {
        reveal(ser_req_list);
    }
    let n = v.len();
    let ghost mreqs = v@.map_values(|r: RequestInput| r.model());
    if n == 0 {
        out.append("[]");
        proof {
            assert(out@ =~= old(out)@ + ser_req_list(mreqs));
        }
        return ;
    }
    crate::text::string_push(out, '[');
    proof {
        reveal_strlit("[");
        assert(seq!['['] =~= "["@);
    }
    let ghost base = out@;
    let mut i: usize = 0;
    while i < n
        invariant
            n == v@.len(),
            n >= 1,
            v@.map_values(|r: RequestInput| r.model()) == mreqs,
            i <= n,
            i == 0 ==> out@ == base,
            i >= 1 ==> out@ == base + ser_req_items(mreqs.take(i as int)),
        decreases n - i,
    {
        if i > 0 {
            crate::text::string_push(out, ',');
        }
        out.append("\n      ");
        push_ser_request(out, &v[i]);
        proof {
            assert(mreqs[i as int] == v@[i as int].model());
            reveal_strlit(",");
            assert(seq![','] =~= ","@);
            if i == 0 {
                assert(mreqs.take(1).first() == mreqs[0]);
                assert(out@ =~= base + ser_req_items(mreqs.take(1)));
            } else {
                lemma_req_items_snoc(mreqs, i as int);
                assert(out@ =~= base + ser_req_items(mreqs.take(i as int + 1)));
            }
        }
        i = i + 1;
    }
    proof {
        assert(mreqs.take(n as int) =~= mreqs);
    }
    out.append("\n    ]");
    proof {
        reveal_strlit("[");
        assert(seq!['['] =~= "["@);
        assert(out@ =~= old(out)@ + ser_req_list(mreqs));
    }
}

/// Writes the whole workspace as its pretty-printed document text.
#[verifier::rlimit(100)]
pub fn serialize_repository(repo: &LocalStorageRepository) -> (r: String)
    ensures
        r@ == spec_serialize(repo.model()),
{
    let mut out = String::new();
    out.append("{\n  \"env\": ");
    push_ser_env(&mut out, &repo.env);
    out.append(",\n  \"servers\": {\n    \"value\": ");
    push_ser_str_list(&mut out, &repo.servers.value);
    out.append(",\n    \"active\": ");
    push_ser_uint(&mut out, repo.servers.active);
    out.append("\n  },\n  \"requests\": {\n    \"value\": ");
    push_ser_req_list(&mut out, &repo.requests.value);
    out.append(",\n    \"active\": ");
    push_ser_uint(&mut out, repo.requests.active);
    out.append("\n  }\n}");
    proof {
        assert(out@ =~= spec_serialize(repo.model()));
    }
    out
}

// ---------------------------------------------------------------------
// The executable parser.
// ---------------------------------------------------------------------
/// Relies on std's char::from_u32: the character with the given scalar
/// value, for values that are neither surrogates nor beyond the maximum.
#[verifier::external_body]
fn char_from_u32(v: u32) -> (r: Option<char>)
    ensures
        r matches Some(c) ==> c as u32 == v,
        r is Some <==> (v < 0xD800 || (0xE000 <= v && v <= 0x10FFFF)),
{
    char::from_u32(v)
}

/// The end of the whitespace run starting at `i`.
fn ws_end_in(s: &[char], i: usize) -> (r: usize)
    requires
        i <= s@.len(),
    ensures
        r == ws_end(s@, i as int),
        i <= r <= s@.len(),
    decreases s@.len() - i,
{
    proof {
        lemma_ws_end_bounds(s@, i as int);
    }
    if i < s.len() && (s[i] == ' ' || s[i] == '\t' || s[i] == '\n' || s[i] == '\r') {
        ws_end_in(s, i + 1)
    } else {
        i
    }
}

/// Matches the exact text `lit` at position `i`.
fn ep_lit(s: &[char], i: usize, lit: &str) -> (r: Option<usize>)
    requires
        i <= s@.len(),
    ensures
        match r {
            Some(v) => sp_lit(s@, i as int, lit@) == Some(v as int) && i <= v <= s@.len(),
            None => sp_lit(s@, i as int, lit@) is None,
        },
{
    let lc = crate::text::to_chars(lit);
    let m = lc.len();
    if m > s.len() - i {
        proof {
            assert(!at(s@, i as int, lit@));
        }
        return None;
    }
    let n = s.len();
    let mut j: usize = 0;
    while j < m
        invariant
            m == lc@.len(),
            lc@ == lit@,
            n == s@.len(),
            i + m <= n,
            j <= m,
            forall|t: int| 0 <= t < j ==> s@[i + t] == lc@[t],
        decreases m - j,
    {
        if s[i + j] != lc[j] {
            proof {
                if at(s@, i as int, lit@) {
                    assert(s@.subrange(i as int, i + lit@.len())[j as int] == s@[i + j]);
                }
            }
            return None;
        }
        j = j + 1;
    }
    proof {
        assert(s@.subrange(i as int, i + lit@.len()) =~= lit@);
    }
    Some(i + m)
}

/// Matches the exact text `lit` after any whitespace.
fn ep_tok(s: &[char], i: usize, lit: &str) -> (r: Option<usize>)
    requires
        i <= s@.len(),
    ensures
        match r {
            Some(v) => sp_tok(s@, i as int, lit@) == Some(v as int) && i <= v <= s@.len(),
            None => sp_tok(s@, i as int, lit@) is None,
        },
{
    let w = ws_end_in(s, i);
    ep_lit(s, w, lit)
}

/// Parses a JSON string at exactly position `i`.
fn ep_string(s: &[char], i: usize) -> (r: Option<(String, usize)>)
    requires
        i <= s@.len(),
    ensures
        match r {
            Some(v) => sp_string(s@, i as int) == Some((v.0@, v.1 as int)) && i < v.1 <= s@.len(),
            None => sp_string(s@, i as int) is None,
        },
{
    let n = s.len();
    if !(i < n && s[i] == '"') {
        return None;
    }
    let mut acc: Vec<char> = Vec::new();
    let mut cur = i + 1;
    proof {
        reveal(sp_str_body);
        assert(forall|t: Seq<char>| Seq::<char>::empty() + t =~= t);
    }
    loop
        invariant
            n == s@.len(),
            i + 1 <= cur <= n,
            sp_string(s@, i as int) == sp_str_body(s@, i as int + 1),
            sp_str_body(s@, i as int + 1) == (match sp_str_body(s@, cur as int) {
                Some((t, r)) => Some((acc@ + t, r)),
                None => None::<(Seq<char>, int)>,
            }),
        decreases n - cur,
    {
        proof {
            reveal(sp_str_body);
        }
        if cur >= n {
            return None;
        }
        let c = s[cur];
        if c == '"' {
            proof {
                assert(acc@ + Seq::<char>::empty() =~= acc@);
            }
            let out = crate::text::from_chars(acc.as_slice());
            return Some((out, cur + 1));
        } else if c == '\\' {
            if cur + 1 >= n {
                return None;
            }
            let e = s[cur + 1];
            if e == 'u' {
                if n - cur <= 5 {
                    return None;
                }
                let h1 = s[cur + 2];
                let h2 = s[cur + 3];
                let h3 = s[cur + 4];
                let h4 = s[cur + 5];
                if !(hex_char(h1) && hex_char(h2) && hex_char(h3) && hex_char(h4)) {
                    return None;
                }
                let v: u32 = 4096 * hex_char_val(h1) + 256 * hex_char_val(h2) + 16 * hex_char_val(
                    h3,
                ) + hex_char_val(h4);
                proof {
                    assert(v as nat == hex4(s@, cur as int + 2));
                }
                if !(v < 0xD800 || v >= 0xE000) {
                    return None;
                }
                let u = match char_from_u32(v) {
                    Some(u) => u,
                    None => {
                        return None;
                    },
                };
                let ghost acc0 = acc@;
                acc.push(u);
                proof {
                    vstd::utf8::char_u32_cast(u, v);
                    assert(char_of(hex4(s@, cur as int + 2)) == u);
                    if sp_str_body(s@, cur as int + 6) is Some {
                        let (t, r) = sp_str_body(s@, cur as int + 6)->Some_0;
                        assert(acc0 + (seq![u] + t) =~= acc@ + t);
                    }
                }
                cur = cur + 6;
            } else {
                if !(e == '"' || e == '\\' || e == '/' || e == 'b' || e == 'f' || e == 'n' || e
                    == 'r' || e == 't') {
                    return None;
                }
                let u: char = if e == '"' {
                    '"'
                } else if e == '\\' {
                    '\\'
                } else if e == '/' {
                    '/'
                } else if e == 'b' {
                    '\u{8}'
                } else if e == 'f' {
                    '\u{c}'
                } else if e == 'n' {
                    '\n'
                } else if e == 'r' {
                    '\r'
                } else {
                    '\t'
                };
                let ghost acc0 = acc@;
                acc.push(u);
                proof {
                    assert(unesc_char(s@[cur as int + 1]) == Some(u));
                    if sp_str_body(s@, cur as int + 2) is Some {
                        let (t, r) = sp_str_body(s@, cur as int + 2)->Some_0;
                        assert(acc0 + (seq![u] + t) =~= acc@ + t);
                    }
                }
                cur = cur + 2;
            }
        } else {
            let ghost acc0 = acc@;
            acc.push(c);
            proof {
                if sp_str_body(s@, cur as int + 1) is Some {
                    let (t, r) = sp_str_body(s@, cur as int + 1)->Some_0;
                    assert(acc0 + (seq![c] + t) =~= acc@ + t);
                }
            }
            cur = cur + 1;
        }
    }
}

/// Whether a character is a hexadecimal digit.
fn hex_char(c: char) -> (r: bool)
    ensures
        r == is_hex(c),
{
    ('0' <= c && c <= '9') || ('a' <= c && c <= 'f') || ('A' <= c && c <= 'F')
}

/// The value of one hexadecimal digit character.
fn hex_char_val(c: char) -> (r: u32)
    requires
        is_hex(c),
    ensures
        r as nat == hex_val(c),
        r < 16,
{
    let u = c as u32;
    if '0' <= c && c <= '9' {
        u - '0' as u32
    } else if 'a' <= c && c <= 'f' {
        u - 'a' as u32 + 10
    } else {
        u - 'A' as u32 + 10
    }
}

/// Parses a JSON string after any whitespace.
fn ep_string_ws(s: &[char], i: usize) -> (r: Option<(String, usize)>)
    requires
        i <= s@.len(),
    ensures
        match r {
            Some(v) => sp_string_ws(s@, i as int) == Some((v.0@, v.1 as int)) && i < v.1
                <= s@.len(),
            None => sp_string_ws(s@, i as int) is None,
        },
{
    let w = ws_end_in(s, i);
    ep_string(s, w)
}

/// The end of the digit run starting at `i`.
fn digit_run_end_in(s: &[char], i: usize) -> (r: usize)
    requires
        i <= s@.len(),
    ensures
        r == digit_run_end(s@, i as int),
        i <= r <= s@.len(),
    decreases s@.len() - i,
{
    proof {
        lemma_digit_run_end_bounds(s@, i as int);
    }
    if i < s.len() && '0' <= s[i] && s[i] <= '9' {
        digit_run_end_in(s, i + 1)
    } else {
        i
    }
}

/// Every character inside a digit run is a digit.
proof fn lemma_digit_run_chars(s: Seq<char>, i: int)
    requires
        0 <= i <= s.len(),
    ensures
        forall|t: int| i <= t < digit_run_end(s, i) ==> is_digit(#[trigger] s[t]),
    decreases s.len() - i,
{
    lemma_digit_run_end_bounds(s, i);
    if i < s.len() && is_digit(s[i]) {
        lemma_digit_run_chars(s, i + 1);
    }
}

/// A prefix of a digit run denotes no more than the whole run.
proof fn lemma_dec_value_prefix(ds: Seq<char>, k: int)
    requires
        0 <= k <= ds.len(),
    ensures
        dec_value(ds.take(k)) <= dec_value(ds),
    decreases ds.len() - k,
{
    if k < ds.len() {
        lemma_dec_value_prefix(ds, k + 1);
        assert(ds.take(k + 1).drop_last() =~= ds.take(k));
        assert(dec_value(ds.take(k + 1)) == dec_value(ds.take(k)) * 10 + digit_val(
            ds.take(k + 1).last(),
        ));
        assert(dec_value(ds.take(k)) <= dec_value(ds.take(k)) * 10);
    } else {
        assert(ds.take(k) =~= ds);
    }
}

/// Parses a decimal number at exactly position `i`. A number too large for
/// `usize` is rejected; no list such a number could index fits in memory.
fn ep_uint(s: &[char], i: usize) -> (r: Option<(usize, usize)>)
    requires
        i <= s@.len(),
    ensures
        match r {
            Some(v) => sp_uint(s@, i as int) == Some((v.0 as nat, v.1 as int)) && i < v.1
                <= s@.len(),
            None => match sp_uint(s@, i as int) {
                Some(p) => p.0 > usize::MAX,
                None => true,
            },
        },
{
    let e = digit_run_end_in(s, i);
    if e == i {
        return None;
    }
    let ghost ds = s@.subrange(i as int, e as int);
    let mut val: usize = 0;
    let mut j = i;
    proof {
        assert(ds.take(0) =~= Seq::<char>::empty());
        lemma_digit_run_chars(s@, i as int);
    }
    while j < e
        invariant
            i <= j <= e <= s@.len(),
            e == digit_run_end(s@, i as int),
            i < e,
            ds == s@.subrange(i as int, e as int),
            val as nat == dec_value(ds.take(j - i)),
            forall|t: int| i <= t < e ==> is_digit(#[trigger] s@[t]),
        decreases e - j,
    {
        let c = s[j];
        proof {
            assert(is_digit(s@[j as int]));
        }
        let d: usize = if c == '0' {
            0
        } else if c == '1' {
            1
        } else if c == '2' {
            2
        } else if c == '3' {
            3
        } else if c == '4' {
            4
        } else if c == '5' {
            5
        } else if c == '6' {
            6
        } else if c == '7' {
            7
        } else if c == '8' {
            8
        } else {
            9
        };
        proof {
            assert(ds[j - i] == s@[j as int]);
            assert(d as nat == digit_val(ds[j - i]));
            assert(ds.take(j - i + 1).drop_last() =~= ds.take(j - i));
            assert(ds.take(j - i + 1).last() == ds[j - i]);
        }
        let step = match val.checked_mul(10) {
            Some(v10) => v10.checked_add(d),
            None => None,
        };
        match step {
            Some(v) => {
                val = v;
            },
            None => {
                proof {
                    assert(dec_value(ds.take(j - i + 1)) > usize::MAX);
                    lemma_dec_value_prefix(ds, j - i + 1);
                    assert(dec_value(ds) > usize::MAX);
                }
                return None;
            },
        }
        j = j + 1;
    }
    proof {
        assert(ds.take(e - i) =~= ds);
    }
    Some((val, e))
}

/// Parses a decimal number after any whitespace.
fn ep_uint_ws(s: &[char], i: usize) -> (r: Option<(usize, usize)>)
    requires
        i <= s@.len(),
    ensures
        match r {
            Some(v) => sp_uint_ws(s@, i as int) == Some((v.0 as nat, v.1 as int)) && i < v.1
                <= s@.len(),
            None => match sp_uint_ws(s@, i as int) {
                Some(p) => p.0 > usize::MAX,
                None => true,
            },
        },
{
    let w = ws_end_in(s, i);
    ep_uint(s, w)
}

/// Parses the environment object at position `i`.
#[verifier::rlimit(100)]
#[verifier::spinoff_prover]
fn ep_env(s: &[char], i: usize) -> (r: Option<(Vec<(String, String)>, usize)>)
    requires
        i <= s@.len(),
    ensures
        match r {
            Some(v) => sp_env(s@, i as int) == Some(
                (v.0@.map_values(|p: (String, String)| (p.0@, p.1@)), v.1 as int),
            ) && i <= v.1 <= s@.len(),
            None => sp_env(s@, i as int) is None,
        },
{
    let n = s.len();
    let a = match ep_tok(s, i, "{") {
        Some(v) => v,
        None => {
            return None;
        },
    };
    let mut out: Vec<(String, String)> = Vec::new();
    let b = ws_end_in(s, a);
    if b < n && s[b] == '}' {
        proof {
            assert(out@.map_values(|p: (String, String)| (p.0@, p.1@)) =~= Seq::<
                (Seq<char>, Seq<char>),
            >::empty());
        }
        return Some((out, b + 1));
    }
    let mut cur = a;
    proof {
        assert(forall|ps: Seq<(Seq<char>, Seq<char>)>|
            Seq::<(Seq<char>, Seq<char>)>::empty() + ps =~= ps);
    }
    loop
        invariant
            n == s@.len(),
            i <= cur <= n,
            sp_env(s@, i as int) == (match sp_env_items(s@, cur as int) {
                Some((ps, r)) => Some(
                    (out@.map_values(|p: (String, String)| (p.0@, p.1@)) + ps, r),
                ),
                None => None::<(Seq<(Seq<char>, Seq<char>)>, int)>,
            }),
        decreases n - cur,
    {
        let ghost out0 = out@.map_values(|p: (String, String)| (p.0@, p.1@));
        let k = match ep_string_ws(s, cur) {
            Some(kv) => kv,
            None => {
                return None;
            },
        };
        let r1 = k.1;
        let r2 = match ep_tok(s, r1, ":") {
            Some(v) => v,
            None => {
                return None;
            },
        };
        let v = match ep_string_ws(s, r2) {
            Some(vv) => vv,
            None => {
                return None;
            },
        };
        let r3 = v.1;
        let ghost pair = (k.0@, v.0@);
        out.push((k.0, v.0));
        proof {
            assert(out@.map_values(|p: (String, String)| (p.0@, p.1@)) =~= out0 + seq![pair]);
        }
        let r4 = ws_end_in(s, r3);
        if r4 < n && s[r4] == ',' {
            proof {
                if sp_env_items(s@, r4 as int + 1) is Some {
                    let (ps, r) = sp_env_items(s@, r4 as int + 1)->Some_0;
                    assert(out0 + (seq![pair] + ps) =~= (out0 + seq![pair]) + ps);
                }
            }
            cur = r4 + 1;
        } else if r4 < n && s[r4] == '}' {
            proof {
                assert(sp_env_items(s@, cur as int) == Some((seq![pair], r4 as int + 1)));
                assert(out0 + seq![pair] =~= out@.map_values(
                    |p: (String, String)| (p.0@, p.1@),
                ));
            }
            return Some((out, r4 + 1));
        } else {
            return None;
        }
    }
}

/// Parses the server-URL list at position `i`.
#[verifier::rlimit(100)]
#[verifier::spinoff_prover]
fn ep_str_list(s: &[char], i: usize) -> (r: Option<(Vec<String>, usize)>)
    requires
        i <= s@.len(),
    ensures
        match r {
            Some(v) => sp_str_list(s@, i as int) == Some(
                (v.0@.map_values(|x: String| x@), v.1 as int),
            ) && i <= v.1 <= s@.len(),
            None => sp_str_list(s@, i as int) is None,
        },
{
    let n = s.len();
    let a = match ep_tok(s, i, "[") {
        Some(v) => v,
        None => {
            return None;
        },
    };
    let mut out: Vec<String> = Vec::new();
    let b = ws_end_in(s, a);
    if b < n && s[b] == ']' {
        proof {
            assert(out@.map_values(|x: String| x@) =~= Seq::<Seq<char>>::empty());
        }
        return Some((out, b + 1));
    }
    let mut cur = a;
    proof {
        assert(forall|vs: Seq<Seq<char>>| Seq::<Seq<char>>::empty() + vs =~= vs);
    }
    loop
        invariant
            n == s@.len(),
            i <= cur <= n,
            sp_str_list(s@, i as int) == (match sp_str_items(s@, cur as int) {
                Some((vs, r)) => Some((out@.map_values(|x: String| x@) + vs, r)),
                None => None::<(Seq<Seq<char>>, int)>,
            }),
        decreases n - cur,
    {
        let ghost out0 = out@.map_values(|x: String| x@);
        let v = match ep_string_ws(s, cur) {
            Some(vv) => vv,
            None => {
                return None;
            },
        };
        let r1 = v.1;
        let ghost item = v.0@;
        out.push(v.0);
        proof {
            assert(out@.map_values(|x: String| x@) =~= out0 + seq![item]);
        }
        let r2 = ws_end_in(s, r1);
        if r2 < n && s[r2] == ',' {
            proof {
                if sp_str_items(s@, r2 as int + 1) is Some {
                    let (vs, r) = sp_str_items(s@, r2 as int + 1)->Some_0;
                    assert(out0 + (seq![item] + vs) =~= (out0 + seq![item]) + vs);
                }
            }
            cur = r2 + 1;
        } else if r2 < n && s[r2] == ']' {
            proof {
                assert(sp_str_items(s@, cur as int) == Some((seq![item], r2 as int + 1)));
                assert(out0 + seq![item] =~= out@.map_values(|x: String| x@));
            }
            return Some((out, r2 + 1));
        } else {
            return None;
        }
    }
}

/// Parses one quoted field name, its colon and its string value.
fn ep_field(s: &[char], i: usize, name: &str) -> (r: Option<(String, usize)>)
    requires
        i <= s@.len(),
    ensures
        match r {
            Some(v) => sp_field(s@, i as int, name@) == Some((v.0@, v.1 as int)) && i <= v.1
                <= s@.len(),
            None => sp_field(s@, i as int, name@) is None,
        },
{
    let a = match ep_tok(s, i, name) {
        Some(v) => v,
        None => {
            return None;
        },
    };
    let b = match ep_tok(s, a, ":") {
        Some(v) => v,
        None => {
            return None;
        },
    };
    ep_string_ws(s, b)
}

/// Parses one request object at position `i`.
#[verifier::rlimit(100)]
fn ep_request(s: &[char], i: usize) -> (r: Option<(RequestInput, usize)>)
    requires
        i <= s@.len(),
    ensures
        match r {
            Some(v) => sp_request(s@, i as int) == Some((v.0.model(), v.1 as int)) && i < v.1
                <= s@.len(),
            None => sp_request(s@, i as int) is None,
        },
{
    let n = s.len();
    let r0 = match ep_tok(s, i, "{") {
        Some(v) => v,
        None => {
            return None;
        },
    };
    let mname = match ep_field(s, r0, "\"method\"") {
        Some(v) => v,
        None => {
            return None;
        },
    };
    let gy = String::from_str("GET");
    let py = String::from_str("POST");
    let uy = String::from_str("PUT");
    let dy = String::from_str("DELETE");
    let method = if mname.0.eq(&gy) {
        HttpMethod::GET
    } else if mname.0.eq(&py) {
        HttpMethod::POST
    } else if mname.0.eq(&uy) {
        HttpMethod::PUT
    } else if mname.0.eq(&dy) {
        HttpMethod::DELETE
    } else {
        proof {
            assert(method_of_name(mname.0@) is None);
        }
        return None;
    };
    proof {
        assert(method_of_name(mname.0@) == Some(method));
    }
    let r1 = match ep_tok(s, mname.1, ",") {
        Some(v) => v,
        None => {
            return None;
        },
    };
    let server = match ep_field(s, r1, "\"server\"") {
        Some(v) => v,
        None => {
            return None;
        },
    };
    let r2 = match ep_tok(s, server.1, ",") {
        Some(v) => v,
        None => {
            return None;
        },
    };
    let path = match ep_field(s, r2, "\"path\"") {
        Some(v) => v,
        None => {
            return None;
        },
    };
    let r3 = match ep_tok(s, path.1, ",") {
        Some(v) => v,
        None => {
            return None;
        },
    };
    let query = match ep_field(s, r3, "\"query\"") {
        Some(v) => v,
        None => {
            return None;
        },
    };
    let r4 = match ep_tok(s, query.1, ",") {
        Some(v) => v,
        None => {
            return None;
        },
    };
    let payload = match ep_field(s, r4, "\"payload\"") {
        Some(v) => v,
        None => {
            return None;
        },
    };
    let r5 = match ep_tok(s, payload.1, ",") {
        Some(v) => v,
        None => {
            return None;
        },
    };
    let headers = match ep_field(s, r5, "\"headers\"") {
        Some(v) => v,
        None => {
            return None;
        },
    };
    let t = ws_end_in(s, headers.1);
    let ghost base = ReqModel {
        method,
        server: server.0@,
        path: path.0@,
        query: query.0@,
        payload: payload.0@,
        headers: headers.0@,
        parsing_rules: Seq::<char>::empty(),
    };
    if t < n && s[t] == ',' {
        let rules = match ep_field(s, t + 1, "\"parsing_rules\"") {
            Some(v) => v,
            None => {
                return None;
            },
        };
        let u = ws_end_in(s, rules.1);
        if u < n && s[u] == '}' {
            let req = RequestInput {
                method,
                server: server.0,
                path: path.0,
                query: query.0,
                payload: payload.0,
                headers: headers.0,
                parsing_rules: rules.0,
            };
            proof {
                assert(sp_request_tail(s@, headers.1 as int, base) == Some(
                    (req.model(), u as int + 1),
                ));
            }
            return Some((req, u + 1));
        }
        return None;
    } else if t < n && s[t] == '}' {
        let req = RequestInput {
            method,
            server: server.0,
            path: path.0,
            query: query.0,
            payload: payload.0,
            headers: headers.0,
            parsing_rules: String::new(),
        };
        proof {
            assert(req.model() == base);
            assert(sp_request_tail(s@, headers.1 as int, base) == Some(
                (req.model(), t as int + 1),
            ));
        }
        return Some((req, t + 1));
    } else {
        return None;
    }
}

/// Parses the request list at position `i`.
#[verifier::rlimit(100)]
#[verifier::spinoff_prover]
fn ep_req_list(s: &[char], i: usize) -> (r: Option<(Vec<RequestInput>, usize)>)
    requires
        i <= s@.len(),
    ensures
        match r {
            Some(v) => sp_req_list(s@, i as int) == Some(
                (v.0@.map_values(|x: RequestInput| x.model()), v.1 as int),
            ) && i <= v.1 <= s@.len(),
            None => sp_req_list(s@, i as int) is None,
        },
{
    let n = s.len();
    let a = match ep_tok(s, i, "[") {
        Some(v) => v,
        None => {
            return None;
        },
    };
    let mut out: Vec<RequestInput> = Vec::new();
    let b = ws_end_in(s, a);
    if b < n && s[b] == ']' {
        proof {
            assert(out@.map_values(|x: RequestInput| x.model()) =~= Seq::<ReqModel>::empty());
        }
        return Some((out, b + 1));
    }
    let mut cur = a;
    proof {
        assert(forall|ms: Seq<ReqModel>| Seq::<ReqModel>::empty() + ms =~= ms);
    }
    loop
        invariant
            n == s@.len(),
            i <= cur <= n,
            sp_req_list(s@, i as int) == (match sp_req_items(s@, cur as int) {
                Some((ms, r)) => Some((out@.map_values(|x: RequestInput| x.model()) + ms, r)),
                None => None::<(Seq<ReqModel>, int)>,
            }),
        decreases n - cur,
    {
        let ghost out0 = out@.map_values(|x: RequestInput| x.model());
        let v = match ep_request(s, cur) {
            Some(vv) => vv,
            None => {
                return None;
            },
        };
        let r1 = v.1;
        let ghost item = v.0.model();
        out.push(v.0);
        proof {
            assert(out@.map_values(|x: RequestInput| x.model()) =~= out0 + seq![item]);
        }
        let r2 = ws_end_in(s, r1);
        if r2 < n && s[r2] == ',' {
            proof {
                if sp_req_items(s@, r2 as int + 1) is Some {
                    let (ms, r) = sp_req_items(s@, r2 as int + 1)->Some_0;
                    assert(out0 + (seq![item] + ms) =~= (out0 + seq![item]) + ms);
                }
            }
            cur = r2 + 1;
        } else if r2 < n && s[r2] == ']' {
            proof {
                assert(sp_req_items(s@, cur as int) == Some((seq![item], r2 as int + 1)));
                assert(out0 + seq![item] =~= out@.map_values(|x: RequestInput| x.model()));
            }
            return Some((out, r2 + 1));
        } else {
            return None;
        }
    }
}

/// Whether all names in a pair list are distinct.
fn pairs_unique(v: &Vec<(String, String)>) -> (r: bool)
    ensures
        r == (forall|a: int, b: int|
            0 <= a < b < v@.len() ==> (#[trigger] v@[a]).0@ != (#[trigger] v@[b]).0@),
{
    let n = v.len();
    let mut b: usize = 0;
    while b < n
        invariant
            b <= n,
            n == v@.len(),
            forall|x: int, y: int|
                0 <= x < y < b ==> (#[trigger] v@[x]).0@ != (#[trigger] v@[y]).0@,
        decreases n - b,
    {
        let mut a: usize = 0;
        while a < b
            invariant
                a <= b < n,
                n == v@.len(),
                forall|x: int| 0 <= x < a ==> (#[trigger] v@[x]).0@ != v@[b as int].0@,
            decreases b - a,
        {
            if (&v[a].0).eq(&v[b].0) {
                return false;
            }
            a = a + 1;
        }
        b = b + 1;
    }
    true
}

/// Parses the servers part of the document.
fn ep_doc_servers(s: &[char], i: usize) -> (r: Option<((Vec<String>, usize), usize)>)
    requires
        i <= s@.len(),
    ensures
        match r {
            Some(v) => sp_doc_servers(s@, i as int) == Some(
                (
                    ((v.0.0@.map_values(|x: String| x@), v.0.1 as nat)),
                    v.1 as int,
                ),
            ) && i <= v.1 <= s@.len(),
            None => match sp_doc_servers(s@, i as int) {
                Some(p) => p.0.1 > usize::MAX && p.0.0.len() <= usize::MAX,
                None => true,
            },
        },
{
    proof {
        reveal(sp_doc_servers);
    }
    let a = match ep_tok(s, i, ",") {
        Some(v) => v,
        None => {
            return None;
        },
    };
    let b = match ep_tok(s, a, "\"servers\"") {
        Some(v) => v,
        None => {
            return None;
        },
    };
    let c = match ep_tok(s, b, ":") {
        Some(v) => v,
        None => {
            return None;
        },
    };
    let d = match ep_tok(s, c, "{") {
        Some(v) => v,
        None => {
            return None;
        },
    };
    let e = match ep_tok(s, d, "\"value\"") {
        Some(v) => v,
        None => {
            return None;
        },
    };
    let f = match ep_tok(s, e, ":") {
        Some(v) => v,
        None => {
            return None;
        },
    };
    let urls = match ep_str_list(s, f) {
        Some(v) => v,
        None => {
            return None;
        },
    };
    let n_urls_here = urls.0.len();
    let g = match ep_tok(s, urls.1, ",") {
        Some(v) => v,
        None => {
            return None;
        },
    };
    let h = match ep_tok(s, g, "\"active\"") {
        Some(v) => v,
        None => {
            return None;
        },
    };
    let j = match ep_tok(s, h, ":") {
        Some(v) => v,
        None => {
            return None;
        },
    };
    let sactive = match ep_uint_ws(s, j) {
        Some(v) => v,
        None => {
            return None;
        },
    };
    let m = match ep_tok(s, sactive.1, "}") {
        Some(v) => v,
        None => {
            return None;
        },
    };
    Some(((urls.0, sactive.0), m))
}

/// Parses the requests part of the document, which must end the text.
fn ep_doc_requests(s: &[char], i: usize) -> (r: Option<(Vec<RequestInput>, usize)>)
    requires
        i <= s@.len(),
    ensures
        match r {
            Some(v) => sp_doc_requests(s@, i as int) == Some(
                (v.0@.map_values(|x: RequestInput| x.model()), v.1 as nat),
            ),
            None => match sp_doc_requests(s@, i as int) {
                Some(p) => p.1 > usize::MAX && p.0.len() <= usize::MAX,
                None => true,
            },
        },
{
    proof {
        reveal(sp_doc_requests);
    }
    let n = s.len();
    let a = match ep_tok(s, i, ",") {
        Some(v) => v,
        None => {
            return None;
        },
    };
    let b = match ep_tok(s, a, "\"requests\"") {
        Some(v) => v,
        None => {
            return None;
        },
    };
    let c = match ep_tok(s, b, ":") {
        Some(v) => v,
        None => {
            return None;
        },
    };
    let d = match ep_tok(s, c, "{") {
        Some(v) => v,
        None => {
            return None;
        },
    };
    let e = match ep_tok(s, d, "\"value\"") {
        Some(v) => v,
        None => {
            return None;
        },
    };
    let f = match ep_tok(s, e, ":") {
        Some(v) => v,
        None => {
            return None;
        },
    };
    let reqs = match ep_req_list(s, f) {
        Some(v) => v,
        None => {
            return None;
        },
    };
    let n_reqs_here = reqs.0.len();
    let g = match ep_tok(s, reqs.1, ",") {
        Some(v) => v,
        None => {
            return None;
        },
    };
    let h = match ep_tok(s, g, "\"active\"") {
        Some(v) => v,
        None => {
            return None;
        },
    };
    let j = match ep_tok(s, h, ":") {
        Some(v) => v,
        None => {
            return None;
        },
    };
    let ractive = match ep_uint_ws(s, j) {
        Some(v) => v,
        None => {
            return None;
        },
    };
    let m = match ep_tok(s, ractive.1, "}") {
        Some(v) => v,
        None => {
            return None;
        },
    };
    let r = match ep_tok(s, m, "}") {
        Some(v) => v,
        None => {
            return None;
        },
    };
    if ws_end_in(s, r) != n {
        return None;
    }
    Some((reqs.0, ractive.0))
}

/// Reads the workspace back from its document text. Anything outside the
/// document schema — wrong shape, stray text, active indices out of their
/// lists, a repeated environment name — reads as nothing, and the caller
/// falls back to the bootstrap default.
#[verifier::rlimit(100)]
pub fn deserialize_repository(text: &str) -> (r: Option<LocalStorageRepository>)
    ensures
        match r {
            Some(repo) => spec_deserialize(text@) == Some(repo.model()) && repo.wf(),
            None => spec_deserialize(text@) is None,
        },
{
    let chars = crate::text::to_chars(text);
    let s = chars.as_slice();
    let a = match ep_tok(s, 0, "{") {
        Some(v) => v,
        None => {
            return None;
        },
    };
    let b = match ep_tok(s, a, "\"env\"") {
        Some(v) => v,
        None => {
            return None;
        },
    };
    let c = match ep_tok(s, b, ":") {
        Some(v) => v,
        None => {
            return None;
        },
    };
    let env = match ep_env(s, c) {
        Some(v) => v,
        None => {
            return None;
        },
    };
    let n_env = env.0.len();
    let sv = match ep_doc_servers(s, env.1) {
        Some(v) => v,
        None => {
            proof {
                if sp_doc_servers(s@, env.1 as int) is Some {
                    let (p, rr) = sp_doc_servers(s@, env.1 as int)->Some_0;
                    assert(p.1 > usize::MAX);
                    assert(p.0.len() <= usize::MAX);
                    if sp_document(text@) is Some {
                        let m = sp_document(text@)->Some_0;
                        assert(m.server_active == p.1);
                        assert(m.server_urls == p.0);
                        assert(!model_wf(m));
                    }
                }
            }
            return None;
        },
    };
    let n_urls = sv.0.0.len();
    let reqs = match ep_doc_requests(s, sv.1) {
        Some(v) => v,
        None => {
            proof {
                if sp_doc_requests(s@, sv.1 as int) is Some {
                    let (rs, ra) = sp_doc_requests(s@, sv.1 as int)->Some_0;
                    assert(ra > usize::MAX);
                    assert(rs.len() <= usize::MAX);
                    if sp_document(text@) is Some {
                        let m = sp_document(text@)->Some_0;
                        assert(m.req_active == ra);
                        assert(m.reqs == rs);
                        assert(!model_wf(m));
                    }
                }
            }
            return None;
        },
    };
    let n_reqs = reqs.0.len();
    let ghost pm = RepoModel {
        env: env.0@.map_values(|p: (String, String)| (p.0@, p.1@)),
        server_urls: sv.0.0@.map_values(|x: String| x@),
        server_active: sv.0.1 as nat,
        reqs: reqs.0@.map_values(|x: RequestInput| x.model()),
        req_active: reqs.1 as nat,
    };
    proof {
        assert(sp_document(text@) == Some(pm));
    }
    let sv_ok = if n_urls == 0 {
        sv.0.1 == 0
    } else {
        sv.0.1 < n_urls
    };
    let rq_ok = if n_reqs == 0 {
        reqs.1 == 0
    } else {
        reqs.1 < n_reqs
    };
    let uniq = pairs_unique(&env.0);
    if !sv_ok || !rq_ok || !uniq {
        proof {
            assert(!model_wf(pm)) by {
                if model_wf(pm) {
                    assert(sv_ok);
                    assert(rq_ok);
                    assert forall|x: int, y: int|
                        0 <= x < y < env.0@.len() implies (#[trigger] env.0@[x]).0@ != (
                    #[trigger] env.0@[y]).0@ by {
                        assert(pm.env[x] == (env.0@[x].0@, env.0@[x].1@));
                        assert(pm.env[y] == (env.0@[y].0@, env.0@[y].1@));
                    }
                    assert(uniq);
                }
            }
        }
        return None;
    }
    let repo = LocalStorageRepository {
        env: crate::strmap::StrMap { pairs: env.0 },
        servers: crate::servers::Servers { value: sv.0.0, active: sv.0.1 },
        requests: crate::request::Requests { value: reqs.0, active: reqs.1 },
    };
    proof {
        assert(sp_document(text@) == Some(repo.model()));
        assert(model_wf(repo.model()));
        assert(repo.env.wf());
        assert(repo.wf());
    }
    Some(repo)
}

} // verus!

//! The JSON boundary: the declarations and wrappers through which the
//! library parses response bodies, resolves JSON pointers and renders
//! values, all through the serde_json crate, and the verified functions
//! built on them.

use vstd::prelude::*;

verus! {

/// Declares serde_json's value type; the library carries such values
/// through without reading them.
#[verifier::external_type_specification]
#[verifier::external_body]
pub struct ExValue(serde_json::Value);

/// Whether a text is well-formed JSON: what serde_json's parser accepts.
/// The answer depends on the text alone.
pub uninterp spec fn json_wf(s: Seq<char>) -> bool;

/// Relies on serde_json::from_str::<Value>: parses the text as JSON, and
/// succeeds exactly on well-formed JSON text.
#[verifier::external_body]
pub fn json_parse(s: &str) -> (r: Option<serde_json::Value>)
    ensures
        r is Some <==> json_wf(s@),
{
    serde_json::from_str::<serde_json::Value>(s).ok()
}

/// The string form of the value a JSON pointer picks out of a body: the
/// string itself when the value is a JSON string, the value's canonical
/// JSON text otherwise (a number's decimal text, `true`/`false`, `null`,
/// an object's or array's compact JSON); nothing when the body is not JSON
/// or the pointer names no value. The result depends on the two texts
/// alone.
pub uninterp spec fn resolve_of(body: Seq<char>, ptr: Seq<char>) -> Option<Seq<char>>;

/// Relies on serde_json::from_str::<Value>, Value::pointer, Value::as_str
/// and Value's Display: parses the body, resolves the RFC 6901 pointer and
/// renders the addressed value, a string as itself, anything else as its
/// canonical JSON text. None of the calls can fail in any other way, so
/// the result is exactly the named one.
#[verifier::external_body]
pub fn resolve_pointer(body: &str, ptr: &str) -> (r: Option<String>)
    ensures
        match r {
            Some(v) => resolve_of(body@, ptr@) == Some(v@),
            None => resolve_of(body@, ptr@) is None,
        },
        !json_wf(body@) ==> r is None,
{
    let value: serde_json::Value = match serde_json::from_str(body) {
        Ok(v) => v,
        Err(_) => {
            return None;
        },
    };
    match value.pointer(ptr) {
        Some(fv) => match fv.as_str() {
            Some(s) => Some(s.to_owned()),
            None => Some(fv.to_string()),
        },
        None => None,
    }
}

/// The pretty-printed form of a well-formed JSON text: what serde_json's
/// two-space pretty printer writes for the parsed value. The result
/// depends on the text alone.
pub uninterp spec fn pretty_of(s: Seq<char>) -> Seq<char>;

/// Relies on serde_json::from_str::<Value> and serde_json::to_string_pretty:
/// parses the body and pretty-prints the value. Pretty-printing a `Value`
/// cannot fail, so the result is the pretty text exactly when the body is
/// well-formed JSON.
#[verifier::external_body]
fn json_pretty_text(body: &str) -> (r: Option<String>)
    ensures
        r is Some <==> json_wf(body@),
        r matches Some(p) ==> p@ == pretty_of(body@),
{
    match serde_json::from_str::<serde_json::Value>(body) {
        Ok(v) => serde_json::to_string_pretty(&v).ok(),
        Err(_) => None,
    }
}

/// The in-process body filter: the string form of the value a JSON pointer
/// picks out of the last response body, the body itself when the pointer
/// resolves to nothing, and no result at all when the body is not JSON
/// (the display then stays as it was).
pub fn filter_with_pointer(body_last: &str, ptr: &str) -> (r: Option<String>)
    ensures
        match r {
            Some(s) => json_wf(body_last@) && s@ == match resolve_of(body_last@, ptr@) {
                Some(v) => v,
                None => body_last@,
            },
            None => !json_wf(body_last@),
        },
{
    match json_parse(body_last) {
        Some(_) => {},
        None => {
            return None;
        },
    }
    match resolve_pointer(body_last, ptr) {
        Some(v) => Some(v),
        None => Some(String::from_str(body_last)),
    }
}

/// The displayed form of a response body: pretty-printed when the body
/// parses as JSON, the body itself verbatim otherwise.
pub fn pretty_body(body: &str) -> (r: String)
    ensures
        json_wf(body@) ==> r@ == pretty_of(body@),
        !json_wf(body@) ==> r@ == body@,
{
    match json_pretty_text(body) {
        Some(p) => p,
        None => String::from_str(body),
    }
}

} // verus!

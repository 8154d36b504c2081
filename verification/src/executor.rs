//! Request composition: turning the active definition and the environment
//! into one ready-to-send request. The transport that carries it is a
//! collaborator outside the library; validation failures abort before any
//! transport work, leaving the malformed text untouched.

use vstd::prelude::*;

use crate::codec::{
    encode_headers, encode_query, lookup_last, spec_encode_query, spec_header_pairs,
    spec_headers_ok, ValidationError,
};
use crate::method::HttpMethod;
use crate::request::RequestInput;
use crate::strmap::StrMap;

verus! {

/// A fully composed request: the method, the final URL, the encoded header
/// map, and the body to send, when the payload is nonempty.
pub struct ComposedRequest {
    pub method: HttpMethod,
    pub url: String,
    pub headers: StrMap,
    pub body: Option<String>,
}

/// The URL a definition composes to: server, path, `?`, encoded query.
pub open spec fn spec_url(def: RequestInput, query: Seq<char>) -> Seq<char> {
    def.server@ + def.path@ + seq!['?'] + query
}

/// Composes the definition into a request: encodes the query, expands and
/// encodes the headers against the environment, builds the URL as
/// `server + path + "?" + query`, and takes the payload as body exactly
/// when it is nonempty. A grammar violation in the query or the headers is
/// returned instead, the query checked first.
pub fn build_request(def: &RequestInput, env: &StrMap) -> (r: Result<
    ComposedRequest,
    ValidationError,
>)
    ensures
        match r {
            Ok(c) => {
                &&& spec_headers_ok(def.headers@, *env)
                &&& c.method == def.method
                &&& spec_encode_query(def.query@) matches Some(q) && c.url@ == spec_url(*def, q)
                &&& c.headers.wf()
                &&& forall|k: Seq<char>|
                    #[trigger] c.headers.spec_get(k) == lookup_last(
                        spec_header_pairs(def.headers@, *env),
                        k,
                    )
                &&& c.body == if def.payload@.len() > 0 {
                    Some(def.payload)
                } else {
                    None::<String>
                }
            },
            Err(e) => {
                &&& (e == ValidationError::QueryFormat || e == ValidationError::HeaderFormat)
                &&& (e == ValidationError::QueryFormat <==> spec_encode_query(def.query@) is None)
                &&& (e == ValidationError::HeaderFormat ==> spec_encode_query(def.query@) is Some
                    && !spec_headers_ok(def.headers@, *env))
            },
        },
{
    let query = match encode_query(def.query.as_str()) {
        Ok(q) => q,
        Err(e) => {
            return Err(e);
        },
    };
    let headers = match encode_headers(def.headers.as_str(), env) {
        Ok(h) => h,
        Err(e) => {
            return Err(e);
        },
    };
    let mut url = def.server.clone();
    url.append(def.path.as_str());
    url.append("?");
    url.append(query.as_str());
    proof {
        reveal_strlit("?");
        assert("?"@ =~= seq!['?']);
    }
    let body = if def.payload.unicode_len() > 0 {
        Some(def.payload.clone())
    } else {
        None
    };
    Ok(ComposedRequest { method: def.method, url, headers, body })
}

} // verus!

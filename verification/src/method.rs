//! The HTTP method of a stored request, with the cyclic selection order the
//! editing layer steps through.

use vstd::prelude::*;

verus! {

/// The four methods a request definition can carry.
#[derive(Copy, Clone, PartialEq, Eq, Structural, Debug)]
pub enum HttpMethod {
    GET,
    POST,
    PUT,
    DELETE,
}

impl HttpMethod {
    /// The wire name of the method.
    pub open spec fn spec_name(self) -> Seq<char> {
        match self {
            HttpMethod::GET => "GET"@,
            HttpMethod::POST => "POST"@,
            HttpMethod::PUT => "PUT"@,
            HttpMethod::DELETE => "DELETE"@,
        }
    }

    pub fn to_string(&self) -> (r: String)
        ensures
            r@ == self.spec_name(),
    {
        match self {
            HttpMethod::GET => String::from_str("GET"),
            HttpMethod::POST => String::from_str("POST"),
            HttpMethod::PUT => String::from_str("PUT"),
            HttpMethod::DELETE => String::from_str("DELETE"),
        }
    }

    /// The successor in the fixed cycle GET, POST, PUT, DELETE, GET, ...
    pub open spec fn spec_next(self) -> HttpMethod {
        match self {
            HttpMethod::GET => HttpMethod::POST,
            HttpMethod::POST => HttpMethod::PUT,
            HttpMethod::PUT => HttpMethod::DELETE,
            HttpMethod::DELETE => HttpMethod::GET,
        }
    }

    /// The predecessor in the same cycle.
    pub open spec fn spec_previous(self) -> HttpMethod {
        match self {
            HttpMethod::GET => HttpMethod::DELETE,
            HttpMethod::POST => HttpMethod::GET,
            HttpMethod::PUT => HttpMethod::POST,
            HttpMethod::DELETE => HttpMethod::PUT,
        }
    }

    pub fn next(&self) -> (r: HttpMethod)
        ensures
            r == self.spec_next(),
    {
        match self {
            HttpMethod::GET => HttpMethod::POST,
            HttpMethod::POST => HttpMethod::PUT,
            HttpMethod::PUT => HttpMethod::DELETE,
            HttpMethod::DELETE => HttpMethod::GET,
        }
    }

    pub fn previous(&self) -> (r: HttpMethod)
        ensures
            r == self.spec_previous(),
    {
        match self {
            HttpMethod::GET => HttpMethod::DELETE,
            HttpMethod::POST => HttpMethod::GET,
            HttpMethod::PUT => HttpMethod::POST,
            HttpMethod::DELETE => HttpMethod::PUT,
        }
    }
}

/// Stepping forward and then back, or back and then forward, returns to the
/// same method: the selection cycle loses no state.
pub proof fn lemma_method_cycle(m: HttpMethod)
    ensures
        m.spec_next().spec_previous() == m,
        m.spec_previous().spec_next() == m,
{
}

} // verus!

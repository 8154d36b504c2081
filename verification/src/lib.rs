//! A request-workspace engine for a terminal HTTP request composer.
//!
//! The library holds the data model for stored requests, servers and
//! environment variables, the line-oriented codecs for query strings and
//! headers with template-variable substitution, the extraction-rule engine
//! that feeds response values back into the environment, and the persistence
//! codec for the workspace document.

pub mod action;
pub mod codec;
pub mod executor;
pub mod extract;
pub mod json;
pub mod method;
pub mod persist;
pub mod repository;
pub mod request;
pub mod rules;
pub mod servers;
pub mod strmap;
pub mod template;
pub mod text;

use vstd::prelude::*;

verus! {

} // verus!

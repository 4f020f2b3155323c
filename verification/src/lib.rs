//! A verified HTTP routing core: path templates with literal and named
//! wildcard segments are compiled into an immutable trie, and incoming
//! (method, path) pairs are resolved to a handler plus captured parameters,
//! or to a well-defined routing error.
//!
//! Registration conflicts are resolved by two documented policies, both
//! stated in the contracts: registering the same path and method twice keeps
//! the last handler, and two wildcard registrations at the same trie
//! position keep the capture name fixed by the first.

pub mod builder;
pub mod laws;
pub mod parameters;
pub mod route;
pub mod router;
pub mod segment;
pub mod trie;

pub use crate::builder::RouterBuilder;
pub use crate::parameters::UrlParams;
pub use crate::route::Route;
pub use crate::router::Router;

use vstd::prelude::*;

verus! {

/// HTTP methods understood by the router.
#[derive(Clone, Copy, PartialEq, Eq, Structural, Debug)]
pub enum Method {
    Options,
    Get,
    Post,
    Put,
    Delete,
    Head,
    Trace,
    Connect,
    Patch,
}

/// A routing failure: either no registered template matches the path, or the
/// path matches but carries no handler for the requested method.
#[derive(Clone, Copy, PartialEq, Eq, Structural, Debug)]
pub enum RoutingError {
    NotFound,
    MethodNotAllowed,
}

impl RoutingError {
    /// The standard HTTP status code for this routing failure.
    pub fn status_code(&self) -> (r: u16)
        ensures
            *self == RoutingError::NotFound ==> r == 404,
            *self == RoutingError::MethodNotAllowed ==> r == 405,
    {
        match self {
            RoutingError::NotFound => 404,
            RoutingError::MethodNotAllowed => 405,
        }
    }
}

} // verus!

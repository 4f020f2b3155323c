//! The dispatcher: resolves a (method, path) pair against a compiled,
//! immutable match trie to a handler plus captured parameters, or to a
//! routing error, and maps routing errors to standard status responses.
//! Resolution never mutates the trie, so one router may serve any number of
//! concurrent lookups.

use vstd::prelude::*;
use crate::{Method, RoutingError};
use crate::parameters::UrlParams;
use crate::route::{handlers_map, lookup_handler};
use crate::segment::{split_path, split_segments, strs_model};
use crate::trie::{NodeModel, TrieNode, find_model, find_node, node_model, wf_node};

verus! {

/// Parses an HTTP method name; any unknown name maps to `None`.
pub open spec fn spec_method_of_name(s: Seq<char>) -> Option<Method> {
    if s == "OPTIONS"@ {
        Some(Method::Options)
    } else if s == "GET"@ {
        Some(Method::Get)
    } else if s == "POST"@ {
        Some(Method::Post)
    } else if s == "PUT"@ {
        Some(Method::Put)
    } else if s == "DELETE"@ {
        Some(Method::Delete)
    } else if s == "HEAD"@ {
        Some(Method::Head)
    } else if s == "TRACE"@ {
        Some(Method::Trace)
    } else if s == "CONNECT"@ {
        Some(Method::Connect)
    } else if s == "PATCH"@ {
        Some(Method::Patch)
    } else {
        None
    }
}

/// Parses an HTTP method name.
pub fn method_of_name(s: &str) -> (r: Option<Method>)
    ensures
        r == spec_method_of_name(s@),
{
    if crate::segment::str_eq(s, "OPTIONS") {
        Some(Method::Options)
    } else if crate::segment::str_eq(s, "GET") {
        Some(Method::Get)
    } else if crate::segment::str_eq(s, "POST") {
        Some(Method::Post)
    } else if crate::segment::str_eq(s, "PUT") {
        Some(Method::Put)
    } else if crate::segment::str_eq(s, "DELETE") {
        Some(Method::Delete)
    } else if crate::segment::str_eq(s, "HEAD") {
        Some(Method::Head)
    } else if crate::segment::str_eq(s, "TRACE") {
        Some(Method::Trace)
    } else if crate::segment::str_eq(s, "CONNECT") {
        Some(Method::Connect)
    } else if crate::segment::str_eq(s, "PATCH") {
        Some(Method::Patch)
    } else {
        None
    }
}

/// What resolving a (method, path) pair against a trie returns: the handler
/// bound to the method at the best-matching template together with the
/// captures of the winning descent; `NotFound` when no template matches the
/// path; `MethodNotAllowed` when one matches but binds no handler for the
/// method.
pub open spec fn spec_resolve<H>(n: NodeModel<H>, m: Seq<char>, path: Seq<char>) -> Result<
    (H, Seq<(Seq<char>, Seq<char>)>),
    RoutingError,
> {
    match find_model(n, split_segments(path)) {
        None => Err(RoutingError::NotFound),
        Some(tc) => match spec_method_of_name(m) {
            Some(md) => if handlers_map(tc.0).contains_key(md) {
                Ok((handlers_map(tc.0)[md], tc.1))
            } else {
                Err(RoutingError::MethodNotAllowed)
            },
            None => Err(RoutingError::MethodNotAllowed),
        },
    }
}

/// A compiled router: an immutable match trie, resolved against per request.
pub struct Router<H> {
    root: TrieNode<H>,
}

impl<H: Copy> Router<H> {
    /// The trie this router resolves against.
    pub closed spec fn model(self) -> NodeModel<H> {
        node_model(self.root)
    }

    /// The trie is structurally well-formed.
    pub closed spec fn wf(self) -> bool {
        wf_node(self.root)
    }

    /// Wraps a compiled trie.
    pub fn new(root: TrieNode<H>) -> (r: Self)
        requires
            wf_node(root),
        ensures
            r.wf(),
            r.model() == node_model(root),
    {
        Router { root }
    }

    /// Resolves a request: splits the path into segments, walks the trie
    /// with literal-over-wildcard precedence and backtracking, and looks the
    /// method up at the matched terminal. Pure with respect to the router:
    /// the result is a function of (method, path) alone.
    pub fn resolve(&self, method: &str, path: &str) -> (r: Result<(H, UrlParams), RoutingError>)
        requires
            self.wf(),
        ensures
            match r {
                Ok(hp) => spec_resolve(self.model(), method@, path@) == Ok::<
                    (H, Seq<(Seq<char>, Seq<char>)>),
                    RoutingError,
                >((hp.0, hp.1@)),
                Err(e) => spec_resolve(self.model(), method@, path@) == Err::<
                    (H, Seq<(Seq<char>, Seq<char>)>),
                    RoutingError,
                >(e),
            },
    {
        let segs = split_path(path);
        proof {
            assert(strs_model(segs@).skip(0) =~= split_segments(path@));
        }
        match find_node(&self.root, &segs, 0) {
            None => Err(RoutingError::NotFound),
            Some((handlers, caps)) => match method_of_name(method) {
                Some(md) => match lookup_handler(handlers, md) {
                    Some(h) => Ok((h, UrlParams { captures: caps })),
                    None => Err(RoutingError::MethodNotAllowed),
                },
                None => Err(RoutingError::MethodNotAllowed),
            },
        }
    }
}

/// The status code a routing error maps to.
pub open spec fn spec_error_status(status: u16) -> u16 {
    if status == 404 || status == 405 || status == 501 {
        status
    } else {
        500
    }
}

/// The response body a routing error maps to.
pub open spec fn spec_error_body(status: u16) -> Seq<char> {
    if status == 404 {
        "Page Not Found"@
    } else if status == 405 {
        "method not supported"@
    } else if status == 501 {
        "not implemented"@
    } else {
        "Internal Server Error"@
    }
}

/// The default error-response builder: maps a routing status code to the
/// status and minimal textual body to send. Unknown codes fall back to an
/// internal server error.
pub fn default_error_handler(status: u16) -> (r: (u16, String))
    ensures
        r.0 == spec_error_status(status),
        r.1@ == spec_error_body(status),
{
    if status == 404 {
        (404, "Page Not Found".to_owned())
    } else if status == 405 {
        (405, "method not supported".to_owned())
    } else if status == 501 {
        (501, "not implemented".to_owned())
    } else {
        (500, "Internal Server Error".to_owned())
    }
}

} // verus!

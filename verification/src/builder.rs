//! The trie compiler: accumulates route registrations and compiles them into
//! one immutable match trie. Registration order does not affect which
//! template wins a match; only same-path same-method duplicates are decided
//! by order, last registration winning.

use vstd::prelude::*;
use crate::Method;
use crate::route::Route;
use crate::router::Router;
use crate::segment::{SegModel, parse_template, segs_model, split_segments, template_of};
use crate::trie::{
    NodeModel, TrieNode, empty_model, insert_model, insert_node, node_model, wf_node,
};

verus! {

/// The model of one registration: its template and its binding list.
pub struct RouteModel<H> {
    /// The parsed path template.
    pub template: Seq<SegModel>,
    /// The method-to-handler bindings, in registration order.
    pub handlers: Seq<(Method, H)>,
}

/// The model of a route value: its path parsed as a template, and its
/// bindings.
pub open spec fn route_model<H>(r: Route<H>) -> RouteModel<H> {
    RouteModel { template: template_of(split_segments(r.path@)), handlers: r.handlers@ }
}

/// The trie denoted by a sequence of registrations: each is inserted in
/// order, starting from the empty trie.
pub open spec fn build_model<H>(rs: Seq<RouteModel<H>>) -> NodeModel<H>
    decreases rs.len(),
{
    if rs.len() == 0 {
        empty_model()
    } else {
        insert_model(build_model(rs.drop_last()), rs.last().template, rs.last().handlers)
    }
}

/// Accumulates route registrations and compiles them into a [`Router`].
pub struct RouterBuilder<H> {
    root: TrieNode<H>,
    registered: Ghost<Seq<RouteModel<H>>>,
}

impl<H: Copy> RouterBuilder<H> {
    /// The builder's trie is exactly the fold of its registrations.
    pub closed spec fn wf(self) -> bool {
        wf_node(self.root) && node_model(self.root) == build_model(self.registered@)
    }

    /// The registrations made so far, in order.
    pub closed spec fn registered_routes(self) -> Seq<RouteModel<H>> {
        self.registered@
    }

    /// A builder with no registrations.
    pub fn new() -> (r: Self)
        ensures
            r.wf(),
            r.registered_routes() == Seq::<RouteModel<H>>::empty(),
    {
        let root = TrieNode::<H> { literals: Vec::new(), wildcard: Vec::new(), terminal: None };
        proof {
            assert(node_model(root) =~= empty_model::<H>());
            assert(wf_node(root));
        }
        RouterBuilder { root, registered: Ghost(Seq::empty()) }
    }

    /// Registers one route: walks or creates trie nodes for its template and
    /// attaches its bindings at the final node.
    pub fn route(self, route: Route<H>) -> (r: Self)
        requires
            self.wf(),
        ensures
            r.wf(),
            r.registered_routes() == self.registered_routes().push(route_model(route)),
    {
        let ghost rm = route_model(route);
        let segs = parse_template(route.path.as_str());
        let root2 = insert_node(self.root, &segs, 0, &route.handlers);
        proof {
            assert(segs_model(segs@).skip(0) =~= rm.template);
            let pushed = self.registered@.push(rm);
            assert(pushed.drop_last() =~= self.registered@);
            assert(pushed.last() == rm);
            assert(node_model(root2) == build_model(pushed));
        }
        RouterBuilder { root: root2, registered: Ghost(self.registered@.push(rm)) }
    }

    /// Freezes the registrations into an immutable [`Router`]; no further
    /// registration is possible afterwards.
    pub fn build(self) -> (r: Router<H>)
        requires
            self.wf(),
        ensures
            r.wf(),
            r.model() == build_model(self.registered_routes()),
    {
        Router::new(self.root)
    }
}

impl<H: Copy> Default for RouterBuilder<H> {
    /// A builder with no registrations.
    fn default() -> (r: Self)
        ensures
            r.wf(),
            r.registered_routes() == Seq::<RouteModel<H>>::empty(),
    {
        RouterBuilder::new()
    }
}

} // verus!

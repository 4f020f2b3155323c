//! Laws of the routing core, proved over the trie models: what registration
//! adds to, preserves in, and never invents for the match results.

use vstd::prelude::*;
use crate::{Method, RoutingError};
use crate::builder::{RouteModel, build_model};
use crate::route::handlers_map;
use crate::router::{spec_method_of_name, spec_resolve};
use crate::segment::{SegModel, captures_of, seg_matches, split_segments, template_matches};
use crate::trie::{NodeModel, empty_model, find_model, insert_model};

verus! {

/// Whether no path is matched by both templates.
pub open spec fn templates_disjoint(t1: Seq<SegModel>, t2: Seq<SegModel>) -> bool {
    forall|p: Seq<Seq<char>>|
        !(#[trigger] template_matches(t1, p) && #[trigger] template_matches(t2, p))
}

/// Whether the templates of a route set are pairwise disjoint.
pub open spec fn pairwise_disjoint<H>(rs: Seq<RouteModel<H>>) -> bool {
    forall|i: int, j: int|
        0 <= i < rs.len() && 0 <= j < rs.len() && i != j ==> templates_disjoint(
            #[trigger] rs[i].template,
            #[trigger] rs[j].template,
        )
}

/// The empty trie matches nothing.
pub proof fn lemma_find_empty<H>(p: Seq<Seq<char>>)
    ensures
        find_model(empty_model::<H>(), p) is None,
{
    let n = empty_model::<H>();
    if p.len() > 0 {
        assert(!n.lits.contains_key(p[0]));
    }
}

proof fn lemma_match_tail(t: Seq<SegModel>, p: Seq<Seq<char>>)
    requires
        t.len() > 0,
        p.len() > 0,
        template_matches(t, p),
    ensures
        template_matches(t.skip(1), p.skip(1)),
{
    assert forall|i: int| 0 <= i < t.skip(1).len() implies seg_matches(
        t.skip(1)[i],
        p.skip(1)[i],
    ) by {
        assert(seg_matches(t[i + 1], p[i + 1]));
    }
}

proof fn lemma_match_cons(t: Seq<SegModel>, p: Seq<Seq<char>>)
    requires
        t.len() > 0,
        t.len() == p.len(),
        seg_matches(t[0], p[0]),
        template_matches(t.skip(1), p.skip(1)),
    ensures
        template_matches(t, p),
{
    assert forall|i: int| 0 <= i < t.len() implies seg_matches(t[i], p[i]) by {
        if i > 0 {
            assert(seg_matches(t.skip(1)[i - 1], p.skip(1)[i - 1]));
        }
    }
}

proof fn lemma_nonmatch_tail(t: Seq<SegModel>, p: Seq<Seq<char>>)
    requires
        t.len() > 0,
        p.len() > 0,
        t.len() == p.len(),
        !template_matches(t, p),
        seg_matches(t[0], p[0]),
    ensures
        !template_matches(t.skip(1), p.skip(1)),
{
    if template_matches(t.skip(1), p.skip(1)) {
        lemma_match_cons(t, p);
    }
}

/// A method has a binding in a concatenated list exactly when it has one in
/// either part.
pub proof fn lemma_handlers_map_concat<H>(a: Seq<(Method, H)>, b: Seq<(Method, H)>, md: Method)
    ensures
        handlers_map(a + b).contains_key(md) == (handlers_map(a).contains_key(md)
            || handlers_map(b).contains_key(md)),
    decreases b.len(),
{
    if b.len() == 0 {
        assert(a + b =~= a);
    } else {
        assert((a + b).drop_last() =~= a + b.drop_last());
        lemma_handlers_map_concat(a, b.drop_last(), md);
    }
}

/// Registering a template changes no match result of a path the template
/// does not match.
pub proof fn lemma_insert_preserves_nonmatch<H>(
    n: NodeModel<H>,
    t: Seq<SegModel>,
    hs: Seq<(Method, H)>,
    p: Seq<Seq<char>>,
)
    requires
        !template_matches(t, p),
    ensures
        find_model(insert_model(n, t, hs), p) == find_model(n, p),
    decreases t.len(),
{
    let n2 = insert_model(n, t, hs);
    if t.len() == 0 {
        assert(p.len() > 0);
    } else {
        match t[0] {
            SegModel::Literal(k) => {
                if p.len() == 0 {
                } else if p[0] == k {
                    let child0 = if n.lits.contains_key(k) {
                        n.lits[k]
                    } else {
                        empty_model()
                    };
                    if t.len() == p.len() {
                        lemma_nonmatch_tail(t, p);
                    }
                    lemma_insert_preserves_nonmatch(child0, t.skip(1), hs, p.skip(1));
                    if !n.lits.contains_key(k) {
                        lemma_find_empty::<H>(p.skip(1));
                    }
                } else {
                }
            },
            SegModel::Wildcard(name) => {
                if p.len() == 0 {
                } else {
                    let w = if n.wild.len() == 0 {
                        (name, empty_model())
                    } else {
                        n.wild[0]
                    };
                    if p[0].len() > 0 {
                        if t.len() == p.len() {
                            lemma_nonmatch_tail(t, p);
                        }
                        lemma_insert_preserves_nonmatch(w.1, t.skip(1), hs, p.skip(1));
                        if n.wild.len() == 0 {
                            lemma_find_empty::<H>(p.skip(1));
                        }
                    }
                }
            },
        }
    }
}

/// Registering a template that matches a path the trie did not match before
/// makes that path resolve, with exactly the registered bindings.
pub proof fn lemma_insert_then_find<H>(
    n: NodeModel<H>,
    t: Seq<SegModel>,
    hs: Seq<(Method, H)>,
    p: Seq<Seq<char>>,
)
    requires
        template_matches(t, p),
        find_model(n, p) is None,
    ensures
        match find_model(insert_model(n, t, hs), p) {
            Some(tc) => tc.0 == hs,
            None => false,
        },
    decreases t.len(),
{
    let n2 = insert_model(n, t, hs);
    if t.len() == 0 {
    } else {
        lemma_match_tail(t, p);
        match t[0] {
            SegModel::Literal(k) => {
                assert(seg_matches(t[0], p[0]));
                let child0 = if n.lits.contains_key(k) {
                    n.lits[k]
                } else {
                    empty_model()
                };
                if !n.lits.contains_key(k) {
                    lemma_find_empty::<H>(p.skip(1));
                }
                lemma_insert_then_find(child0, t.skip(1), hs, p.skip(1));
            },
            SegModel::Wildcard(name) => {
                let w = if n.wild.len() == 0 {
                    (name, empty_model())
                } else {
                    n.wild[0]
                };
                if n.wild.len() == 0 {
                    lemma_find_empty::<H>(p.skip(1));
                }
                lemma_insert_then_find(w.1, t.skip(1), hs, p.skip(1));
            },
        }
    }
}

/// A path that some registered template matches always resolves.
pub proof fn lemma_insert_find_some<H>(
    n: NodeModel<H>,
    t: Seq<SegModel>,
    hs: Seq<(Method, H)>,
    p: Seq<Seq<char>>,
)
    requires
        template_matches(t, p),
    ensures
        find_model(insert_model(n, t, hs), p) is Some,
    decreases t.len(),
{
    let n2 = insert_model(n, t, hs);
    if t.len() == 0 {
    } else {
        lemma_match_tail(t, p);
        match t[0] {
            SegModel::Literal(k) => {
                let child0 = if n.lits.contains_key(k) {
                    n.lits[k]
                } else {
                    empty_model()
                };
                lemma_insert_find_some(child0, t.skip(1), hs, p.skip(1));
            },
            SegModel::Wildcard(name) => {
                let w = if n.wild.len() == 0 {
                    (name, empty_model())
                } else {
                    n.wild[0]
                };
                lemma_insert_find_some(w.1, t.skip(1), hs, p.skip(1));
            },
        }
    }
}

/// A method bound at a match result after a registration was either bound
/// there before, or comes from the registration itself, which then matches
/// the path.
pub proof fn lemma_insert_find_methods<H>(
    n: NodeModel<H>,
    t: Seq<SegModel>,
    hs: Seq<(Method, H)>,
    p: Seq<Seq<char>>,
    md: Method,
)
    requires
        match find_model(insert_model(n, t, hs), p) {
            Some(tc) => handlers_map(tc.0).contains_key(md),
            None => false,
        },
    ensures
        (match find_model(n, p) {
            Some(tc0) => handlers_map(tc0.0).contains_key(md),
            None => false,
        }) || (template_matches(t, p) && handlers_map(hs).contains_key(md)),
    decreases t.len(),
{
    let n2 = insert_model(n, t, hs);
    if t.len() == 0 {
        if p.len() == 0 {
            match n.term {
                Some(o) => {
                    lemma_handlers_map_concat(o, hs, md);
                },
                None => {
                    assert(Seq::<(Method, H)>::empty() + hs =~= hs);
                },
            }
        }
    } else {
        match t[0] {
            SegModel::Literal(k) => {
                if p.len() == 0 {
                } else if p[0] == k {
                    let child0 = if n.lits.contains_key(k) {
                        n.lits[k]
                    } else {
                        empty_model()
                    };
                    let child2 = insert_model(child0, t.skip(1), hs);
                    if find_model(child2, p.skip(1)) is Some {
                        lemma_insert_find_methods(child0, t.skip(1), hs, p.skip(1), md);
                        if !n.lits.contains_key(k) {
                            lemma_find_empty::<H>(p.skip(1));
                        }
                        if template_matches(t.skip(1), p.skip(1)) && handlers_map(
                            hs,
                        ).contains_key(md) {
                            lemma_match_cons(t, p);
                        }
                    } else {
                        if template_matches(t.skip(1), p.skip(1)) {
                            lemma_insert_find_some(child0, t.skip(1), hs, p.skip(1));
                        }
                        lemma_insert_preserves_nonmatch(child0, t.skip(1), hs, p.skip(1));
                        if !n.lits.contains_key(k) {
                            lemma_find_empty::<H>(p.skip(1));
                        }
                    }
                } else {
                }
            },
            SegModel::Wildcard(name) => {
                if p.len() == 0 {
                } else {
                    let w = if n.wild.len() == 0 {
                        (name, empty_model())
                    } else {
                        n.wild[0]
                    };
                    let lit_res = if n.lits.contains_key(p[0]) {
                        find_model(n.lits[p[0]], p.skip(1))
                    } else {
                        None::<(Seq<(Method, H)>, Seq<(Seq<char>, Seq<char>)>)>
                    };
                    if lit_res is Some {
                    } else {
                        if p[0].len() > 0 {
                            lemma_insert_find_methods(w.1, t.skip(1), hs, p.skip(1), md);
                            if n.wild.len() == 0 {
                                lemma_find_empty::<H>(p.skip(1));
                            }
                            if template_matches(t.skip(1), p.skip(1)) && handlers_map(
                                hs,
                            ).contains_key(md) {
                                lemma_match_cons(t, p);
                            }
                        }
                    }
                }
            },
        }
    }
}

/// A trie holding one single registration matches exactly the paths its
/// template matches, yielding its bindings and the captures of the template,
/// named and ordered as the template names and orders them.
pub proof fn lemma_single_route_find<H>(
    t: Seq<SegModel>,
    hs: Seq<(Method, H)>,
    p: Seq<Seq<char>>,
)
    ensures
        find_model(insert_model(empty_model(), t, hs), p) == if template_matches(t, p) {
            Some((hs, captures_of(t, p)))
        } else {
            None::<(Seq<(Method, H)>, Seq<(Seq<char>, Seq<char>)>)>
        },
    decreases t.len(),
{
    let n = empty_model::<H>();
    let n2 = insert_model(n, t, hs);
    if t.len() == 0 {
        if p.len() == 0 {
        } else {
            assert(!n2.lits.contains_key(p[0]));
        }
    } else {
        match t[0] {
            SegModel::Literal(k) => {
                if p.len() == 0 {
                } else {
                    lemma_single_route_find(t.skip(1), hs, p.skip(1));
                    if p[0] == k {
                        assert(n2.lits.contains_key(p[0]));
                        assert(n2.lits[p[0]] == insert_model(
                            empty_model::<H>(),
                            t.skip(1),
                            hs,
                        ));
                        if template_matches(t.skip(1), p.skip(1)) {
                            lemma_match_cons(t, p);
                            assert(captures_of(t, p) == captures_of(t.skip(1), p.skip(1)));
                        } else {
                            if template_matches(t, p) {
                                lemma_match_tail(t, p);
                            }
                        }
                    } else {
                        assert(!n2.lits.contains_key(p[0]));
                        assert(!seg_matches(t[0], p[0]));
                    }
                }
            },
            SegModel::Wildcard(name) => {
                if p.len() == 0 {
                } else {
                    assert(!n2.lits.contains_key(p[0]));
                    if p[0].len() == 0 {
                        assert(!seg_matches(t[0], p[0]));
                    } else {
                        lemma_single_route_find(t.skip(1), hs, p.skip(1));
                        if template_matches(t.skip(1), p.skip(1)) {
                            lemma_match_cons(t, p);
                            assert(find_model(n2, p) == Some(
                                (hs, seq![(name, p[0])] + captures_of(t.skip(1), p.skip(1))),
                            ));
                        } else {
                            if template_matches(t, p) {
                                lemma_match_tail(t, p);
                            }
                        }
                    }
                }
            },
        }
    }
}

/// A path that no registered template matches resolves to nothing, whatever
/// was registered around it.
pub proof fn lemma_build_unmatched<H>(rs: Seq<RouteModel<H>>, p: Seq<Seq<char>>)
    requires
        forall|k: int| 0 <= k < rs.len() ==> !template_matches(#[trigger] rs[k].template, p),
    ensures
        find_model(build_model(rs), p) is None,
    decreases rs.len(),
{
    if rs.len() == 0 {
        lemma_find_empty::<H>(p);
    } else {
        let pre = rs.drop_last();
        assert(forall|k: int| 0 <= k < pre.len() ==> pre[k] == rs[k]);
        lemma_build_unmatched(pre, p);
        assert(!template_matches(rs[rs.len() - 1].template, p));
        lemma_insert_preserves_nonmatch(
            build_model(pre),
            rs.last().template,
            rs.last().handlers,
            p,
        );
    }
}

/// Matching an unregistered path returns `NotFound`, regardless of method.
pub proof fn law_unmatched_path_not_found<H>(rs: Seq<RouteModel<H>>, m: Seq<char>, path: Seq<char>)
    requires
        forall|k: int|
            0 <= k < rs.len() ==> !template_matches(#[trigger] rs[k].template, split_segments(path)),
    ensures
        spec_resolve(build_model(rs), m, path) == Err::<
            (H, Seq<(Seq<char>, Seq<char>)>),
            RoutingError,
        >(RoutingError::NotFound),
{
    lemma_build_unmatched(rs, split_segments(path));
}

/// A path that exactly one registered template matches resolves to exactly
/// that route's bindings, whatever else is registered.
pub proof fn lemma_build_unique_match<H>(rs: Seq<RouteModel<H>>, k: int, p: Seq<Seq<char>>)
    requires
        0 <= k < rs.len(),
        template_matches(rs[k].template, p),
        forall|j: int|
            0 <= j < rs.len() && j != k ==> !template_matches(#[trigger] rs[j].template, p),
    ensures
        match find_model(build_model(rs), p) {
            Some(tc) => tc.0 == rs[k].handlers,
            None => false,
        },
    decreases rs.len(),
{
    let pre = rs.drop_last();
    assert(forall|i: int| 0 <= i < pre.len() ==> pre[i] == rs[i]);
    if k == rs.len() - 1 {
        lemma_build_unmatched(pre, p);
        lemma_insert_then_find(build_model(pre), rs[k].template, rs[k].handlers, p);
    } else {
        lemma_build_unique_match(pre, k, p);
        assert(!template_matches(rs.last().template, p));
        lemma_insert_preserves_nonmatch(
            build_model(pre),
            rs.last().template,
            rs.last().handlers,
            p,
        );
    }
}

/// For routes with pairwise disjoint templates, resolving a path that route
/// `k`'s template matches, with a method route `k` binds, returns exactly
/// route `k`'s handler for that method.
pub proof fn law_registered_route_resolves<H>(
    rs: Seq<RouteModel<H>>,
    k: int,
    m: Seq<char>,
    path: Seq<char>,
    md: Method,
)
    requires
        pairwise_disjoint(rs),
        0 <= k < rs.len(),
        template_matches(rs[k].template, split_segments(path)),
        spec_method_of_name(m) == Some(md),
        handlers_map(rs[k].handlers).contains_key(md),
    ensures
        match spec_resolve(build_model(rs), m, path) {
            Ok(hc) => hc.0 == handlers_map(rs[k].handlers)[md],
            Err(_) => false,
        },
{
    let p = split_segments(path);
    assert forall|j: int| 0 <= j < rs.len() && j != k implies !template_matches(
        #[trigger] rs[j].template,
        p,
    ) by {
        assert(templates_disjoint(rs[j].template, rs[k].template));
    }
    lemma_build_unique_match(rs, k, p);
}

/// A path that some registered template matches always resolves to a
/// terminal, whatever else was registered.
pub proof fn lemma_build_matched_some<H>(rs: Seq<RouteModel<H>>, k: int, p: Seq<Seq<char>>)
    requires
        0 <= k < rs.len(),
        template_matches(rs[k].template, p),
    ensures
        find_model(build_model(rs), p) is Some,
    decreases rs.len(),
{
    let pre = rs.drop_last();
    assert(forall|i: int| 0 <= i < pre.len() ==> pre[i] == rs[i]);
    if k == rs.len() - 1 {
        lemma_insert_find_some(build_model(pre), rs[k].template, rs[k].handlers, p);
    } else {
        lemma_build_matched_some(pre, k, p);
        if template_matches(rs.last().template, p) {
            lemma_insert_find_some(build_model(pre), rs.last().template, rs.last().handlers, p);
        } else {
            lemma_insert_preserves_nonmatch(
                build_model(pre),
                rs.last().template,
                rs.last().handlers,
                p,
            );
        }
    }
}

/// Every method bound at a match result was registered by some route whose
/// template matches the path: the trie invents no bindings.
pub proof fn lemma_build_methods<H>(rs: Seq<RouteModel<H>>, p: Seq<Seq<char>>, md: Method)
    requires
        match find_model(build_model(rs), p) {
            Some(tc) => handlers_map(tc.0).contains_key(md),
            None => false,
        },
    ensures
        exists|k: int|
            0 <= k < rs.len() && #[trigger] template_matches(rs[k].template, p) && handlers_map(
                rs[k].handlers,
            ).contains_key(md),
    decreases rs.len(),
{
    if rs.len() == 0 {
        lemma_find_empty::<H>(p);
        assert(false);
    } else {
        let pre = rs.drop_last();
        assert(forall|i: int| 0 <= i < pre.len() ==> pre[i] == rs[i]);
        lemma_insert_find_methods(build_model(pre), rs.last().template, rs.last().handlers, p, md);
        if (match find_model(build_model(pre), p) {
            Some(tc0) => handlers_map(tc0.0).contains_key(md),
            None => false,
        }) {
            lemma_build_methods(pre, p, md);
            let k = choose|k: int|
                0 <= k < pre.len() && #[trigger] template_matches(pre[k].template, p)
                    && handlers_map(pre[k].handlers).contains_key(md);
            assert(template_matches(rs[k].template, p) && handlers_map(
                rs[k].handlers,
            ).contains_key(md));
        } else {
            let k = rs.len() - 1;
            assert(template_matches(rs[k].template, p) && handlers_map(
                rs[k].handlers,
            ).contains_key(md));
        }
    }
}

/// Matching a registered path with a method that no route matching it binds
/// returns `MethodNotAllowed`.
pub proof fn law_method_not_supported<H>(
    rs: Seq<RouteModel<H>>,
    k: int,
    m: Seq<char>,
    path: Seq<char>,
    md: Method,
)
    requires
        0 <= k < rs.len(),
        template_matches(rs[k].template, split_segments(path)),
        spec_method_of_name(m) == Some(md),
        forall|j: int|
            0 <= j < rs.len() && #[trigger] template_matches(
                rs[j].template,
                split_segments(path),
            ) ==> !handlers_map(rs[j].handlers).contains_key(md),
    ensures
        spec_resolve(build_model(rs), m, path) == Err::<
            (H, Seq<(Seq<char>, Seq<char>)>),
            RoutingError,
        >(RoutingError::MethodNotAllowed),
{
    let p = split_segments(path);
    lemma_build_matched_some(rs, k, p);
    let tc = find_model(build_model(rs), p)->Some_0;
    if handlers_map(tc.0).contains_key(md) {
        lemma_build_methods(rs, p, md);
        assert(false);
    }
}

/// Compiling the same set of routes with pairwise disjoint templates, in any
/// registration order, yields tries that resolve every (method, path) query
/// to the same handler or the same routing error.
pub proof fn law_build_order_independent<H>(
    rs1: Seq<RouteModel<H>>,
    rs2: Seq<RouteModel<H>>,
    m: Seq<char>,
    path: Seq<char>,
)
    requires
        pairwise_disjoint(rs1),
        pairwise_disjoint(rs2),
        forall|r: RouteModel<H>| rs1.contains(r) == rs2.contains(r),
    ensures
        ({
            let a = spec_resolve(build_model(rs1), m, path);
            let b = spec_resolve(build_model(rs2), m, path);
            match (a, b) {
                (Ok(x), Ok(y)) => x.0 == y.0,
                (Err(e1), Err(e2)) => e1 == e2,
                _ => false,
            }
        }),
{
    let p = split_segments(path);
    if exists|k: int| 0 <= k < rs1.len() && #[trigger] template_matches(rs1[k].template, p) {
        let k1 = choose|k: int|
            0 <= k < rs1.len() && #[trigger] template_matches(rs1[k].template, p);
        assert(rs1.contains(rs1[k1]));
        assert(rs2.contains(rs1[k1]));
        let k2 = choose|i: int| 0 <= i < rs2.len() && rs2[i] == rs1[k1];
        assert(template_matches(rs2[k2].template, p));
        assert forall|j: int| 0 <= j < rs1.len() && j != k1 implies !template_matches(
            #[trigger] rs1[j].template,
            p,
        ) by {
            assert(templates_disjoint(rs1[j].template, rs1[k1].template));
        }
        assert forall|j: int| 0 <= j < rs2.len() && j != k2 implies !template_matches(
            #[trigger] rs2[j].template,
            p,
        ) by {
            assert(templates_disjoint(rs2[j].template, rs2[k2].template));
        }
        lemma_build_unique_match(rs1, k1, p);
        lemma_build_unique_match(rs2, k2, p);
    } else {
        assert forall|k: int| 0 <= k < rs2.len() implies !template_matches(
            #[trigger] rs2[k].template,
            p,
        ) by {
            if template_matches(rs2[k].template, p) {
                assert(rs2.contains(rs2[k]));
                assert(rs1.contains(rs2[k]));
                let i = choose|i: int| 0 <= i < rs1.len() && rs1[i] == rs2[k];
                assert(template_matches(rs1[i].template, p));
                assert(false);
            }
        }
        lemma_build_unmatched(rs1, p);
        lemma_build_unmatched(rs2, p);
    }
}

/// Whether every wildcard name already present in the trie along template
/// `t`'s own descent agrees with `t`'s name at that position.
pub open spec fn names_fit<H>(n: NodeModel<H>, t: Seq<SegModel>) -> bool
    decreases t.len(),
{
    if t.len() == 0 {
        true
    } else {
        match t[0] {
            SegModel::Literal(k) => n.lits.contains_key(k) ==> names_fit(n.lits[k], t.skip(1)),
            SegModel::Wildcard(nm) => {
                let fits = n.wild.len() > 0 ==> n.wild[0].0 == nm;
                let child = if n.wild.len() > 0 {
                    n.wild[0].1
                } else {
                    empty_model()
                };
                fits && names_fit(child, t.skip(1))
            },
        }
    }
}

proof fn lemma_names_fit_empty<H>(t: Seq<SegModel>)
    ensures
        names_fit(empty_model::<H>(), t),
    decreases t.len(),
{
    if t.len() > 0 {
        lemma_names_fit_empty::<H>(t.skip(1));
        match t[0] {
            SegModel::Literal(k) => {
                assert(!empty_model::<H>().lits.contains_key(k));
            },
            SegModel::Wildcard(_) => {
            },
        }
    }
}

/// Whether two templates agree on wildcard names at every trie position
/// they share: along their common kind-and-literal prefix, wildcards at the
/// same position carry the same name.
pub open spec fn templates_name_compatible(t2: Seq<SegModel>, t: Seq<SegModel>) -> bool
    decreases t.len(),
{
    if t2.len() == 0 || t.len() == 0 {
        true
    } else {
        match (t2[0], t[0]) {
            (SegModel::Literal(a), SegModel::Literal(b)) => a == b
                ==> templates_name_compatible(t2.skip(1), t.skip(1)),
            (SegModel::Wildcard(x), SegModel::Wildcard(y)) => x == y
                && templates_name_compatible(t2.skip(1), t.skip(1)),
            _ => true,
        }
    }
}

proof fn lemma_compat_refl(t: Seq<SegModel>)
    ensures
        templates_name_compatible(t, t),
    decreases t.len(),
{
    if t.len() > 0 {
        lemma_compat_refl(t.skip(1));
    }
}

/// Registration with a name-compatible template preserves name agreement.
proof fn lemma_insert_preserves_names_fit<H>(
    n: NodeModel<H>,
    t2: Seq<SegModel>,
    hs2: Seq<(Method, H)>,
    t: Seq<SegModel>,
)
    requires
        names_fit(n, t),
        templates_name_compatible(t2, t),
    ensures
        names_fit(insert_model(n, t2, hs2), t),
    decreases t.len(),
{
    let n2 = insert_model(n, t2, hs2);
    if t.len() == 0 {
    } else if t2.len() == 0 {
    } else {
        match t[0] {
            SegModel::Literal(k) => {
                match t2[0] {
                    SegModel::Literal(a) => {
                        if a == k {
                            let child0 = if n.lits.contains_key(a) {
                                n.lits[a]
                            } else {
                                empty_model()
                            };
                            lemma_names_fit_empty::<H>(t.skip(1));
                            lemma_insert_preserves_names_fit(child0, t2.skip(1), hs2, t.skip(1));
                        }
                    },
                    SegModel::Wildcard(_) => {
                    },
                }
            },
            SegModel::Wildcard(nm) => {
                match t2[0] {
                    SegModel::Literal(_) => {
                    },
                    SegModel::Wildcard(x) => {
                        let w1 = if n.wild.len() > 0 {
                            n.wild[0].1
                        } else {
                            empty_model()
                        };
                        lemma_names_fit_empty::<H>(t.skip(1));
                        lemma_insert_preserves_names_fit(w1, t2.skip(1), hs2, t.skip(1));
                    },
                }
            },
        }
    }
}

/// As [`lemma_insert_then_find`], and when the trie's wildcard names agree
/// with the template's, the captures are exactly the template's captures.
pub proof fn lemma_insert_then_find_captures<H>(
    n: NodeModel<H>,
    t: Seq<SegModel>,
    hs: Seq<(Method, H)>,
    p: Seq<Seq<char>>,
)
    requires
        template_matches(t, p),
        find_model(n, p) is None,
        names_fit(n, t),
    ensures
        find_model(insert_model(n, t, hs), p) == Some((hs, captures_of(t, p))),
    decreases t.len(),
{
    let n2 = insert_model(n, t, hs);
    if t.len() == 0 {
    } else {
        lemma_match_tail(t, p);
        match t[0] {
            SegModel::Literal(k) => {
                let child0 = if n.lits.contains_key(k) {
                    n.lits[k]
                } else {
                    empty_model()
                };
                if !n.lits.contains_key(k) {
                    lemma_find_empty::<H>(p.skip(1));
                    lemma_names_fit_empty::<H>(t.skip(1));
                }
                lemma_insert_then_find_captures(child0, t.skip(1), hs, p.skip(1));
            },
            SegModel::Wildcard(nm) => {
                let w = if n.wild.len() == 0 {
                    (nm, empty_model())
                } else {
                    n.wild[0]
                };
                if n.wild.len() == 0 {
                    lemma_find_empty::<H>(p.skip(1));
                    lemma_names_fit_empty::<H>(t.skip(1));
                }
                lemma_insert_then_find_captures(w.1, t.skip(1), hs, p.skip(1));
                assert(w.0 == nm);
                assert(find_model(n2, p) == Some(
                    (hs, seq![(nm, p[0])] + captures_of(t.skip(1), p.skip(1))),
                ));
            },
        }
    }
}

proof fn lemma_build_names_fit<H>(rs: Seq<RouteModel<H>>, t: Seq<SegModel>)
    requires
        forall|j: int|
            0 <= j < rs.len() ==> templates_name_compatible(#[trigger] rs[j].template, t),
    ensures
        names_fit(build_model(rs), t),
    decreases rs.len(),
{
    if rs.len() == 0 {
        lemma_names_fit_empty::<H>(t);
    } else {
        let pre = rs.drop_last();
        assert(forall|i: int| 0 <= i < pre.len() ==> pre[i] == rs[i]);
        lemma_build_names_fit(pre, t);
        assert(templates_name_compatible(rs[rs.len() - 1].template, t));
        lemma_insert_preserves_names_fit(
            build_model(pre),
            rs.last().template,
            rs.last().handlers,
            t,
        );
    }
}

/// As [`lemma_build_unique_match`], and when every other registered template
/// agrees with route `k`'s wildcard names at shared positions, the captures
/// are exactly route `k`'s template captures.
pub proof fn lemma_build_unique_match_captures<H>(rs: Seq<RouteModel<H>>, k: int, p: Seq<Seq<char>>)
    requires
        0 <= k < rs.len(),
        template_matches(rs[k].template, p),
        forall|j: int|
            0 <= j < rs.len() && j != k ==> !template_matches(#[trigger] rs[j].template, p),
        forall|j: int|
            0 <= j < rs.len() && j != k ==> templates_name_compatible(
                #[trigger] rs[j].template,
                rs[k].template,
            ),
    ensures
        find_model(build_model(rs), p) == Some(
            (rs[k].handlers, captures_of(rs[k].template, p)),
        ),
    decreases rs.len(),
{
    let pre = rs.drop_last();
    assert(forall|i: int| 0 <= i < pre.len() ==> pre[i] == rs[i]);
    if k == rs.len() - 1 {
        lemma_build_unmatched(pre, p);
        lemma_build_names_fit(pre, rs[k].template);
        lemma_insert_then_find_captures(build_model(pre), rs[k].template, rs[k].handlers, p);
    } else {
        lemma_build_unique_match_captures(pre, k, p);
        assert(!template_matches(rs.last().template, p));
        lemma_insert_preserves_nonmatch(
            build_model(pre),
            rs.last().template,
            rs.last().handlers,
            p,
        );
    }
}

/// The literal-only descent of a path: the terminal reached by following
/// exact-match children alone, ignoring wildcard children entirely.
pub open spec fn lit_find<H>(n: NodeModel<H>, p: Seq<Seq<char>>) -> Option<Seq<(Method, H)>>
    decreases p.len(),
{
    if p.len() == 0 {
        n.term
    } else if n.lits.contains_key(p[0]) {
        lit_find(n.lits[p[0]], p.skip(1))
    } else {
        None
    }
}

/// Whether `t` is the all-literal template whose texts are exactly the
/// segments of `p`.
pub open spec fn literal_template_of(t: Seq<SegModel>, p: Seq<Seq<char>>) -> bool {
    t.len() == p.len() && forall|i: int| 0 <= i < t.len() ==> t[i] == SegModel::Literal(p[i])
}

/// Literal-over-wildcard precedence: whenever the literal-only descent of a
/// path reaches a terminal, matching returns exactly that terminal, with no
/// captures — no wildcard branch can shadow it.
pub proof fn lemma_lit_find_wins<H>(n: NodeModel<H>, p: Seq<Seq<char>>)
    requires
        lit_find(n, p) is Some,
    ensures
        find_model(n, p) == Some(
            (lit_find(n, p)->Some_0, Seq::<(Seq<char>, Seq<char>)>::empty()),
        ),
    decreases p.len(),
{
    if p.len() == 0 {
    } else {
        lemma_lit_find_wins(n.lits[p[0]], p.skip(1));
    }
}

proof fn lemma_lit_find_empty<H>(p: Seq<Seq<char>>)
    ensures
        lit_find(empty_model::<H>(), p) is None,
{
    if p.len() > 0 {
        assert(!empty_model::<H>().lits.contains_key(p[0]));
    }
}

/// Registration changes the literal-only descent of `p` only when its
/// template is exactly the literal spelling of `p`; then it appends its
/// bindings to whatever terminal the descent already had.
pub proof fn lemma_insert_lit_find<H>(
    n: NodeModel<H>,
    t: Seq<SegModel>,
    hs: Seq<(Method, H)>,
    p: Seq<Seq<char>>,
)
    ensures
        lit_find(insert_model(n, t, hs), p) == if literal_template_of(t, p) {
            Some(
                match lit_find(n, p) {
                    Some(o) => o + hs,
                    None => hs,
                },
            )
        } else {
            lit_find(n, p)
        },
    decreases t.len(),
{
    let n2 = insert_model(n, t, hs);
    if t.len() == 0 {
    } else {
        match t[0] {
            SegModel::Literal(k) => {
                if p.len() == 0 {
                } else if p[0] == k {
                    let child0 = if n.lits.contains_key(k) {
                        n.lits[k]
                    } else {
                        empty_model()
                    };
                    lemma_insert_lit_find(child0, t.skip(1), hs, p.skip(1));
                    if !n.lits.contains_key(k) {
                        lemma_lit_find_empty::<H>(p.skip(1));
                    }
                    if literal_template_of(t, p) {
                        assert forall|i: int| 0 <= i < t.skip(1).len() implies t.skip(1)[i]
                            == SegModel::Literal(p.skip(1)[i]) by {
                            assert(t[i + 1] == SegModel::Literal(p[i + 1]));
                        }
                        assert(literal_template_of(t.skip(1), p.skip(1)));
                    } else if literal_template_of(t.skip(1), p.skip(1)) {
                        assert forall|i: int| 0 <= i < t.len() implies t[i] == SegModel::Literal(
                            p[i],
                        ) by {
                            if i > 0 {
                                assert(t.skip(1)[i - 1] == SegModel::Literal(p.skip(1)[i - 1]));
                            }
                        }
                        assert(false);
                    }
                } else {
                    if literal_template_of(t, p) {
                        assert(t[0] == SegModel::Literal(p[0]));
                        assert(false);
                    }
                }
            },
            SegModel::Wildcard(_) => {
                if literal_template_of(t, p) {
                    assert(t[0] == SegModel::Literal(p[0]));
                    assert(false);
                }
            },
        }
    }
}

proof fn lemma_build_lit_find_none<H>(rs: Seq<RouteModel<H>>, p: Seq<Seq<char>>)
    requires
        forall|j: int| 0 <= j < rs.len() ==> !literal_template_of(#[trigger] rs[j].template, p),
    ensures
        lit_find(build_model(rs), p) is None,
    decreases rs.len(),
{
    if rs.len() == 0 {
        lemma_lit_find_empty::<H>(p);
    } else {
        let pre = rs.drop_last();
        assert(forall|i: int| 0 <= i < pre.len() ==> pre[i] == rs[i]);
        lemma_build_lit_find_none(pre, p);
        assert(!literal_template_of(rs[rs.len() - 1].template, p));
        lemma_insert_lit_find(build_model(pre), rs.last().template, rs.last().handlers, p);
    }
}

proof fn lemma_build_lit_find<H>(rs: Seq<RouteModel<H>>, k: int, p: Seq<Seq<char>>)
    requires
        0 <= k < rs.len(),
        literal_template_of(rs[k].template, p),
        forall|j: int| 0 <= j < rs.len() && j != k ==> (#[trigger] rs[j].template)
            != rs[k].template,
    ensures
        lit_find(build_model(rs), p) == Some(rs[k].handlers),
    decreases rs.len(),
{
    let pre = rs.drop_last();
    assert(forall|i: int| 0 <= i < pre.len() ==> pre[i] == rs[i]);
    assert forall|j: int| 0 <= j < rs.len() && j != k implies !literal_template_of(
        #[trigger] rs[j].template,
        p,
    ) by {
        if literal_template_of(rs[j].template, p) {
            assert(rs[j].template =~= rs[k].template);
        }
    }
    if k == rs.len() - 1 {
        lemma_build_lit_find_none(pre, p);
        lemma_insert_lit_find(build_model(pre), rs[k].template, rs[k].handlers, p);
    } else {
        lemma_build_lit_find(pre, k, p);
        lemma_insert_lit_find(build_model(pre), rs.last().template, rs.last().handlers, p);
    }
}

/// An all-literal template is never shadowed: a path spelled exactly by
/// route `k`'s literal template resolves to route `k`'s handler with no
/// captures, whatever wildcard routes stand beside it, as long as no other
/// route repeats that same template.
pub proof fn law_literal_route_wins<H>(
    rs: Seq<RouteModel<H>>,
    k: int,
    m: Seq<char>,
    path: Seq<char>,
    md: Method,
)
    requires
        0 <= k < rs.len(),
        literal_template_of(rs[k].template, split_segments(path)),
        forall|j: int| 0 <= j < rs.len() && j != k ==> (#[trigger] rs[j].template)
            != rs[k].template,
        spec_method_of_name(m) == Some(md),
        handlers_map(rs[k].handlers).contains_key(md),
    ensures
        spec_resolve(build_model(rs), m, path) == Ok::<
            (H, Seq<(Seq<char>, Seq<char>)>),
            RoutingError,
        >((handlers_map(rs[k].handlers)[md], Seq::empty())),
{
    lemma_build_lit_find(rs, k, split_segments(path));
    lemma_lit_find_wins(build_model(rs), split_segments(path));
}

/// Compiling the same set of routes with pairwise disjoint,
/// name-compatible templates, in any registration order, yields tries that
/// resolve every (method, path) query to the very same result, captures
/// included.
pub proof fn law_build_order_equivalent<H>(
    rs1: Seq<RouteModel<H>>,
    rs2: Seq<RouteModel<H>>,
    m: Seq<char>,
    path: Seq<char>,
)
    requires
        pairwise_disjoint(rs1),
        pairwise_disjoint(rs2),
        forall|i: int, j: int|
            0 <= i < rs1.len() && 0 <= j < rs1.len() && i != j ==> templates_name_compatible(
                #[trigger] rs1[i].template,
                #[trigger] rs1[j].template,
            ),
        forall|r: RouteModel<H>| rs1.contains(r) == rs2.contains(r),
    ensures
        spec_resolve(build_model(rs1), m, path) == spec_resolve(build_model(rs2), m, path),
{
    let p = split_segments(path);
    if exists|k: int| 0 <= k < rs1.len() && #[trigger] template_matches(rs1[k].template, p) {
        let k1 = choose|k: int|
            0 <= k < rs1.len() && #[trigger] template_matches(rs1[k].template, p);
        assert(rs1.contains(rs1[k1]));
        assert(rs2.contains(rs1[k1]));
        let k2 = choose|i: int| 0 <= i < rs2.len() && rs2[i] == rs1[k1];
        assert(template_matches(rs2[k2].template, p));
        assert forall|j: int| 0 <= j < rs1.len() && j != k1 implies !template_matches(
            #[trigger] rs1[j].template,
            p,
        ) by {
            assert(templates_disjoint(rs1[j].template, rs1[k1].template));
        }
        assert forall|j: int| 0 <= j < rs2.len() && j != k2 implies !template_matches(
            #[trigger] rs2[j].template,
            p,
        ) by {
            assert(templates_disjoint(rs2[j].template, rs2[k2].template));
        }
        assert forall|j: int| 0 <= j < rs2.len() && j != k2 implies templates_name_compatible(
            #[trigger] rs2[j].template,
            rs2[k2].template,
        ) by {
            assert(rs2.contains(rs2[j]));
            assert(rs1.contains(rs2[j]));
            let i = choose|i: int| 0 <= i < rs1.len() && rs1[i] == rs2[j];
            if i == k1 {
                lemma_compat_refl(rs2[k2].template);
            } else {
                assert(templates_name_compatible(rs1[i].template, rs1[k1].template));
            }
        }
        lemma_build_unique_match_captures(rs1, k1, p);
        lemma_build_unique_match_captures(rs2, k2, p);
    } else {
        assert forall|k: int| 0 <= k < rs2.len() implies !template_matches(
            #[trigger] rs2[k].template,
            p,
        ) by {
            if template_matches(rs2[k].template, p) {
                assert(rs2.contains(rs2[k]));
                assert(rs1.contains(rs2[k]));
                let i = choose|i: int| 0 <= i < rs1.len() && rs1[i] == rs2[k];
                assert(template_matches(rs1[i].template, p));
                assert(false);
            }
        }
        lemma_build_unmatched(rs1, p);
        lemma_build_unmatched(rs2, p);
    }
}

/// A router holding one registration resolves a path its template matches,
/// with a method it binds, to its handler and to one capture per wildcard
/// segment, named and ordered as the template names and orders them.
pub proof fn law_single_route_resolve<H>(
    r: RouteModel<H>,
    m: Seq<char>,
    path: Seq<char>,
    md: Method,
)
    requires
        template_matches(r.template, split_segments(path)),
        spec_method_of_name(m) == Some(md),
        handlers_map(r.handlers).contains_key(md),
    ensures
        spec_resolve(build_model(seq![r]), m, path) == Ok::<
            (H, Seq<(Seq<char>, Seq<char>)>),
            RoutingError,
        >((handlers_map(r.handlers)[md], captures_of(r.template, split_segments(path)))),
{
    let rs = seq![r];
    assert(rs.drop_last() =~= Seq::<RouteModel<H>>::empty());
    assert(rs.last() == r);
    assert(build_model(Seq::<RouteModel<H>>::empty()) == empty_model::<H>());
    assert(build_model(rs) == insert_model(empty_model(), r.template, r.handlers));
    lemma_single_route_find(r.template, r.handlers, split_segments(path));
}

} // verus!

//! The match trie: an immutable tree keyed by path segments. Each node owns
//! exact-match children keyed by literal segment text, at most one wildcard
//! child annotated with a capture name, and an optional terminal binding list
//! for templates that end at the node.
//!
//! Matching descends segment by segment, preferring a literal child over the
//! wildcard child and falling back to the wildcard branch only when the
//! literal subtree yields no full match for the remaining segments.

use vstd::prelude::*;
use crate::Method;
use crate::segment::{Segment, SegModel};

verus! {

/// One node of the match trie.
pub struct TrieNode<H> {
    /// Exact-match children, keyed by literal segment text. Keys are unique.
    pub literals: Vec<(String, TrieNode<H>)>,
    /// The wildcard child, if any, with its capture name. Holds at most one
    /// entry.
    pub wildcard: Vec<(String, TrieNode<H>)>,
    /// The method-to-handler bindings of a template that ends exactly here.
    pub terminal: Option<Vec<(Method, H)>>,
}

/// The mathematical value of a trie node.
#[verifier::ext_equal]
pub struct NodeModel<H> {
    /// Literal children by segment text.
    pub lits: Map<Seq<char>, NodeModel<H>>,
    /// The wildcard child with its capture name; empty or a singleton.
    pub wild: Seq<(Seq<char>, NodeModel<H>)>,
    /// The terminal binding list, if a template ends here.
    pub term: Option<Seq<(Method, H)>>,
}

/// The model of a node with no children and no terminal.
pub open spec fn empty_model<H>() -> NodeModel<H> {
    NodeModel { lits: Map::empty(), wild: Seq::empty(), term: None }
}

/// The models of a node's literal children, as a map from segment text.
pub open spec fn lits_model<H>(cs: Seq<(String, TrieNode<H>)>) -> Map<Seq<char>, NodeModel<H>>
    decreases cs,
{
    if cs.len() == 0 {
        Map::empty()
    } else {
        lits_model(cs.drop_last()).insert(cs.last().0@, node_model(cs.last().1))
    }
}

/// The models of a node's wildcard entries, in order.
pub open spec fn wild_model<H>(cs: Seq<(String, TrieNode<H>)>) -> Seq<(Seq<char>, NodeModel<H>)>
    decreases cs,
{
    if cs.len() == 0 {
        Seq::empty()
    } else {
        wild_model(cs.drop_last()).push((cs.last().0@, node_model(cs.last().1)))
    }
}

/// The mathematical value of a trie node.
pub open spec fn node_model<H>(n: TrieNode<H>) -> NodeModel<H>
    decreases n,
{
    NodeModel {
        lits: lits_model(n.literals@),
        wild: wild_model(n.wildcard@),
        term: match n.terminal {
            Some(v) => Some(v@),
            None => None,
        },
    }
}

/// Structural well-formedness: literal keys are unique, there is at most one
/// wildcard child, and all children are well-formed.
pub open spec fn wf_node<H>(n: TrieNode<H>) -> bool
    decreases n,
{
    &&& (forall|i: int, j: int|
        0 <= i < j < n.literals@.len() ==> n.literals@[i].0@ != n.literals@[j].0@)
    &&& n.wildcard@.len() <= 1
    &&& (forall|i: int| 0 <= i < n.literals@.len() ==> wf_node(#[trigger] n.literals@[i].1))
    &&& (forall|i: int| 0 <= i < n.wildcard@.len() ==> wf_node(#[trigger] n.wildcard@[i].1))
}

/// The longest-match traversal: resolves a segmented path to the terminal
/// binding list of the best-matching registered template, together with the
/// captures collected along the winning descent. At each node a literal child
/// matching the current segment is preferred; the wildcard branch is tried
/// only if the literal subtree yields no full match. A wildcard step requires
/// a non-empty segment and records one capture.
pub open spec fn find_model<H>(n: NodeModel<H>, p: Seq<Seq<char>>) -> Option<
    (Seq<(Method, H)>, Seq<(Seq<char>, Seq<char>)>),
>
    decreases p.len(),
{
    if p.len() == 0 {
        match n.term {
            Some(t) => Some((t, Seq::empty())),
            None => None,
        }
    } else {
        let lit_res = if n.lits.contains_key(p[0]) {
            find_model(n.lits[p[0]], p.skip(1))
        } else {
            None
        };
        if lit_res is Some {
            lit_res
        } else if n.wild.len() > 0 && p[0].len() > 0 {
            match find_model(n.wild[0].1, p.skip(1)) {
                Some((t, c)) => Some((t, seq![(n.wild[0].0, p[0])] + c)),
                None => None,
            }
        } else {
            None
        }
    }
}

/// Registration of one template with its binding list: walks or creates
/// nodes segment by segment. A literal segment inserts or reuses the literal
/// child of its text; a wildcard segment inserts or reuses the single
/// wildcard child, whose capture name stays as fixed by the first
/// registration at that position. At the end the bindings are appended to
/// the node's terminal list, so later registrations of the same path and
/// method win.
pub open spec fn insert_model<H>(n: NodeModel<H>, t: Seq<SegModel>, hs: Seq<(Method, H)>) -> NodeModel<H>
    decreases t.len(),
{
    if t.len() == 0 {
        NodeModel {
            lits: n.lits,
            wild: n.wild,
            term: Some(
                match n.term {
                    Some(o) => o + hs,
                    None => hs,
                },
            ),
        }
    } else {
        match t[0] {
            SegModel::Literal(k) => {
                let child = if n.lits.contains_key(k) {
                    n.lits[k]
                } else {
                    empty_model()
                };
                NodeModel {
                    lits: n.lits.insert(k, insert_model(child, t.skip(1), hs)),
                    wild: n.wild,
                    term: n.term,
                }
            },
            SegModel::Wildcard(name) => {
                let w = if n.wild.len() == 0 {
                    (name, empty_model())
                } else {
                    n.wild[0]
                };
                NodeModel {
                    lits: n.lits,
                    wild: seq![(w.0, insert_model(w.1, t.skip(1), hs))],
                    term: n.term,
                }
            },
        }
    }
}

/// Under unique keys, the literal-children map holds exactly the keyed
/// children with their models.
pub proof fn lemma_lits_model_get<H>(cs: Seq<(String, TrieNode<H>)>)
    requires
        forall|i: int, j: int| 0 <= i < j < cs.len() ==> cs[i].0@ != cs[j].0@,
    ensures
        forall|i: int|
            0 <= i < cs.len() ==> lits_model(cs).contains_key(#[trigger] cs[i].0@) && lits_model(
                cs,
            )[cs[i].0@] == node_model(cs[i].1),
        forall|k: Seq<char>|
            lits_model(cs).contains_key(k) ==> exists|i: int|
                0 <= i < cs.len() && #[trigger] cs[i].0@ == k,
    decreases cs,
{
    if cs.len() > 0 {
        let pre = cs.drop_last();
        lemma_lits_model_get(pre);
        assert forall|i: int| 0 <= i < cs.len() implies lits_model(cs).contains_key(
            #[trigger] cs[i].0@,
        ) && lits_model(cs)[cs[i].0@] == node_model(cs[i].1) by {
            if i < cs.len() - 1 {
                assert(pre[i] == cs[i]);
                assert(cs[i].0@ != cs[cs.len() - 1].0@);
            }
        }
        assert forall|k: Seq<char>| lits_model(cs).contains_key(k) implies exists|i: int|
            0 <= i < cs.len() && #[trigger] cs[i].0@ == k by {
            if k != cs.last().0@ {
                assert(lits_model(pre).contains_key(k));
                let i = choose|i: int| 0 <= i < pre.len() && #[trigger] pre[i].0@ == k;
                assert(cs[i].0@ == k);
            } else {
                assert(cs[cs.len() - 1].0@ == k);
            }
        }
    }
}

/// Replacing the child at one key of a unique-keyed child list updates its
/// entry in the literal-children map and nothing else.
pub proof fn lemma_lits_model_update<H>(cs: Seq<(String, TrieNode<H>)>, j: int, c: TrieNode<H>)
    requires
        forall|i: int, j2: int| 0 <= i < j2 < cs.len() ==> cs[i].0@ != cs[j2].0@,
        0 <= j < cs.len(),
    ensures
        lits_model(cs.update(j, (cs[j].0, c))) == lits_model(cs).insert(
            cs[j].0@,
            node_model(c),
        ),
    decreases cs,
{
    let upd = cs.update(j, (cs[j].0, c));
    if j == cs.len() - 1 {
        assert(upd.drop_last() =~= cs.drop_last());
        assert(upd.last() == (cs[j].0, c));
        assert(lits_model(upd) =~= lits_model(cs).insert(cs[j].0@, node_model(c)));
    } else {
        let pre = cs.drop_last();
        assert(upd.drop_last() =~= pre.update(j, (pre[j].0, c)));
        assert(pre[j] == cs[j]);
        lemma_lits_model_update(pre, j, c);
        assert(upd.last() == cs.last());
        assert(cs[j].0@ != cs.last().0@);
        assert(lits_model(upd) =~= lits_model(cs).insert(cs[j].0@, node_model(c)));
    }
}

/// The models of a singleton child list.
pub proof fn lemma_wild_model_single<H>(cs: Seq<(String, TrieNode<H>)>)
    requires
        cs.len() == 1,
    ensures
        wild_model(cs) == seq![(cs[0].0@, node_model(cs[0].1))],
{
    assert(cs.drop_last() =~= Seq::<(String, TrieNode<H>)>::empty());
    assert(wild_model(Seq::<(String, TrieNode<H>)>::empty()) == Seq::<(Seq<char>, NodeModel<
        H,
    >)>::empty());
    assert(cs.last() == cs[0]);
    assert(wild_model(cs) =~= seq![(cs[0].0@, node_model(cs[0].1))]);
}

/// Finds the index of the literal child keyed by `key`, if any.
fn find_literal_index<H>(cs: &Vec<(String, TrieNode<H>)>, key: &String) -> (r: Option<usize>)
    ensures
        match r {
            Some(j) => j < cs@.len() && cs@[j as int].0@ == key@,
            None => forall|i: int| 0 <= i < cs@.len() ==> cs@[i].0@ != key@,
        },
{
    let mut j: usize = 0;
    while j < cs.len()
        invariant
            j <= cs@.len(),
            forall|i: int| 0 <= i < j ==> cs@[i].0@ != key@,
        decreases cs@.len() - j,
    {
        if crate::segment::str_eq(cs[j].0.as_str(), key.as_str()) {
            return Some(j);
        }
        j = j + 1;
    }
    None
}

/// Appends a copy of every binding in `src` to `dst`.
fn append_pairs<H: Copy>(dst: &mut Vec<(Method, H)>, src: &Vec<(Method, H)>)
    ensures
        final(dst)@ == old(dst)@ + src@,
{
    let mut j: usize = 0;
    proof {
        assert(old(dst)@ + src@.take(0) =~= old(dst)@);
    }
    while j < src.len()
        invariant
            j <= src@.len(),
            dst@ == old(dst)@ + src@.take(j as int),
        decreases src@.len() - j,
    {
        let pair = src[j];
        dst.push(pair);
        proof {
            assert(old(dst)@ + src@.take(j + 1 as int) =~= (old(dst)@ + src@.take(
                j as int,
            )).push(src@[j as int]));
        }
        j = j + 1;
    }
    proof {
        assert(src@.take(src@.len() as int) =~= src@);
    }
}

/// Resolves the path segments `p[i..]` against the subtrie rooted at `n`,
/// returning the terminal binding list of the best-matching template and the
/// captures of the winning descent, exactly as [`find_model`] describes.
pub fn find_node<'a, H: Copy>(n: &'a TrieNode<H>, p: &Vec<String>, i: usize) -> (r: Option<
    (&'a Vec<(Method, H)>, Vec<(String, String)>),
>)
    requires
        i <= p@.len(),
        wf_node(*n),
    ensures
        match r {
            Some(rc) => find_model(node_model(*n), crate::segment::strs_model(p@).skip(i as int))
                == Some(((rc.0)@, crate::parameters::pairs_model(rc.1@))),
            None => find_model(node_model(*n), crate::segment::strs_model(p@).skip(i as int))
                is None,
        },
    decreases p@.len() - i,
{
    let ghost pm = crate::segment::strs_model(p@).skip(i as int);
    if i == p.len() {
        match &n.terminal {
            Some(t) => {
                let c: Vec<(String, String)> = Vec::new();
                proof {
                    assert(crate::parameters::pairs_model(c@) =~= Seq::<(Seq<char>, Seq<
                        char,
                    >)>::empty());
                }
                Some((t, c))
            },
            None => None,
        }
    } else {
        proof {
            assert(pm[0] == p@[i as int]@);
            assert(pm.skip(1) =~= crate::segment::strs_model(p@).skip(i + 1 as int));
            lemma_lits_model_get(n.literals@);
        }
        let lit = match find_literal_index(&n.literals, &p[i]) {
            Some(j) => {
                proof {
                    assert(wf_node(n.literals@[j as int].1));
                    assert(node_model(*n).lits.contains_key(pm[0]));
                    assert(node_model(*n).lits[pm[0]] == node_model(n.literals@[j as int].1));
                }
                find_node(&n.literals[j].1, p, i + 1)
            },
            None => {
                proof {
                    if node_model(*n).lits.contains_key(pm[0]) {
                        let w = choose|x: int|
                            0 <= x < n.literals@.len() && #[trigger] n.literals@[x].0@ == pm[0];
                        assert(false);
                    }
                }
                None
            },
        };
        match lit {
            Some(rc) => Some(rc),
            None => {
                if n.wildcard.len() > 0 && !p[i].as_str().is_empty() {
                    proof {
                        lemma_wild_model_single(n.wildcard@);
                        assert(wf_node(n.wildcard@[0].1));
                    }
                    match find_node(&n.wildcard[0].1, p, i + 1) {
                        Some((t, c)) => {
                            let ghost cm = crate::parameters::pairs_model(c@);
                            let mut c2 = c;
                            let name = n.wildcard[0].0.clone();
                            let value = p[i].clone();
                            c2.insert(0, (name, value));
                            proof {
                                assert(crate::parameters::pairs_model(c2@) =~= seq![
                                    (n.wildcard@[0].0@, pm[0]),
                                ] + cm);
                            }
                            Some((t, c2))
                        },
                        None => None,
                    }
                } else {
                    None
                }
            },
        }
    }
}

/// Registers the template segments `t[i..]` with bindings `hs` into the
/// subtrie rooted at `n`, returning the extended subtrie, exactly as
/// [`insert_model`] describes.
pub fn insert_node<H: Copy>(n: TrieNode<H>, t: &Vec<Segment>, i: usize, hs: &Vec<(Method, H)>) -> (r:
    TrieNode<H>)
    requires
        i <= t@.len(),
        wf_node(n),
    ensures
        wf_node(r),
        node_model(r) == insert_model(
            node_model(n),
            crate::segment::segs_model(t@).skip(i as int),
            hs@,
        ),
    decreases t@.len() - i,
{
    let ghost ts = crate::segment::segs_model(t@).skip(i as int);
    let ghost nm = node_model(n);
    let TrieNode { literals, wildcard, terminal } = n;
    let mut literals = literals;
    let mut wildcard = wildcard;
    if i == t.len() {
        let mut term = match terminal {
            Some(v) => v,
            None => Vec::new(),
        };
        let ghost oldt = term@;
        append_pairs(&mut term, hs);
        let r = TrieNode { literals, wildcard, terminal: Some(term) };
        proof {
            if nm.term is None {
                assert(oldt =~= Seq::<(Method, H)>::empty());
                assert(Seq::<(Method, H)>::empty() + hs@ =~= hs@);
            }
            assert(node_model(r) =~= insert_model(nm, ts, hs@));
            assert(wf_node(r));
        }
        r
    } else {
        proof {
            assert(ts[0] == t@[i as int]@);
            assert(ts.skip(1) =~= crate::segment::segs_model(t@).skip(i + 1 as int));
        }
        match &t[i] {
            Segment::Literal(key) => {
                proof {
                    lemma_lits_model_get(literals@);
                }
                match find_literal_index(&literals, key) {
                    Some(j) => {
                        let ghost oldcs = literals@;
                        let (k, child) = literals.remove(j);
                        proof {
                            assert(wf_node(oldcs[j as int].1));
                        }
                        let child2 = insert_node(child, t, i + 1, hs);
                        literals.insert(j, (k, child2));
                        let r = TrieNode { literals, wildcard, terminal };
                        proof {
                            assert(r.literals@ =~= oldcs.update(
                                j as int,
                                (oldcs[j as int].0, child2),
                            ));
                            lemma_lits_model_update(oldcs, j as int, child2);
                            assert(nm.lits.contains_key(key@));
                            assert(nm.lits[key@] == node_model(oldcs[j as int].1));
                            assert(node_model(r) =~= insert_model(nm, ts, hs@));
                            assert(forall|x: int|
                                0 <= x < r.literals@.len() ==> (#[trigger] r.literals@[x]).0
                                    == oldcs[x].0);
                            assert(wf_node(r));
                        }
                        r
                    },
                    None => {
                        let child = TrieNode::<H> {
                            literals: Vec::new(),
                            wildcard: Vec::new(),
                            terminal: None,
                        };
                        proof {
                            assert(node_model(child) =~= empty_model::<H>());
                            assert(wf_node(child));
                            if nm.lits.contains_key(key@) {
                                let w = choose|x: int|
                                    0 <= x < literals@.len() && #[trigger] literals@[x].0@
                                        == key@;
                                assert(false);
                            }
                        }
                        let child2 = insert_node(child, t, i + 1, hs);
                        let ghost oldcs = literals@;
                        literals.push((key.clone(), child2));
                        let r = TrieNode { literals, wildcard, terminal };
                        proof {
                            assert(r.literals@.drop_last() =~= oldcs);
                            assert(node_model(r) =~= insert_model(nm, ts, hs@));
                            assert(wf_node(r));
                        }
                        r
                    },
                }
            },
            Segment::Wildcard(name) => {
                if wildcard.len() == 0 {
                    let child = TrieNode::<H> {
                        literals: Vec::new(),
                        wildcard: Vec::new(),
                        terminal: None,
                    };
                    proof {
                        assert(node_model(child) =~= empty_model::<H>());
                        assert(wf_node(child));
                    }
                    let child2 = insert_node(child, t, i + 1, hs);
                    wildcard.push((name.clone(), child2));
                    let r = TrieNode { literals, wildcard, terminal };
                    proof {
                        lemma_wild_model_single(r.wildcard@);
                        assert(node_model(r) =~= insert_model(nm, ts, hs@));
                        assert(wf_node(r));
                    }
                    r
                } else {
                    let ghost oldw = wildcard@;
                    let (wname, wchild) = wildcard.remove(0);
                    proof {
                        assert(oldw.len() == 1);
                        assert(wf_node(oldw[0].1));
                        lemma_wild_model_single(oldw);
                    }
                    let child2 = insert_node(wchild, t, i + 1, hs);
                    wildcard.insert(0, (wname, child2));
                    let r = TrieNode { literals, wildcard, terminal };
                    proof {
                        assert(r.wildcard@ =~= seq![(oldw[0].0, child2)]);
                        lemma_wild_model_single(r.wildcard@);
                        assert(node_model(r) =~= insert_model(nm, ts, hs@));
                        assert(wf_node(r));
                    }
                    r
                }
            },
        }
    }
}

} // verus!

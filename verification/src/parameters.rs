//! URL parameters captured from wildcard segments during one match attempt,
//! exposed to handlers as a lookup-by-name structure.

use vstd::prelude::*;
use crate::segment::str_eq;

verus! {

/// The mathematical value of a capture list: (name, value) character
/// sequences in template order.
pub open spec fn pairs_model(s: Seq<(String, String)>) -> Seq<(Seq<char>, Seq<char>)> {
    s.map_values(|x: (String, String)| (x.0@, x.1@))
}

/// The value bound to `n` in a capture list: the first binding in template
/// order, or `None` if the name was never captured.
pub open spec fn params_lookup(s: Seq<(Seq<char>, Seq<char>)>, n: Seq<char>) -> Option<Seq<char>>
    decreases s.len(),
{
    if s.len() == 0 {
        None
    } else if s[0].0 == n {
        Some(s[0].1)
    } else {
        params_lookup(s.skip(1), n)
    }
}

/// URL parameters captured from the path of one request: the (name, value)
/// pairs bound to wildcard segments, in template order.
#[derive(Debug, Clone)]
pub struct UrlParams {
    pub captures: Vec<(String, String)>,
}

impl View for UrlParams {
    type V = Seq<(Seq<char>, Seq<char>)>;

    open spec fn view(&self) -> Seq<(Seq<char>, Seq<char>)> {
        pairs_model(self.captures@)
    }
}

impl UrlParams {
    /// An empty capture list.
    pub fn new() -> (r: Self)
        ensures
            r@ == Seq::<(Seq<char>, Seq<char>)>::empty(),
    {
        let r = UrlParams { captures: Vec::new() };
        proof {
            assert(r@ =~= Seq::<(Seq<char>, Seq<char>)>::empty());
        }
        r
    }

    /// Appends one (name, value) binding.
    pub fn insert(&mut self, key: String, value: String)
        ensures
            final(self)@ == old(self)@.push((key@, value@)),
    {
        let ghost k = key@;
        let ghost v = value@;
        self.captures.push((key, value));
        proof {
            assert(final(self)@ =~= old(self)@.push((k, v)));
        }
    }

    /// Looks a captured value up by its wildcard name.
    pub fn get(&self, name: &str) -> (r: Option<&String>)
        ensures
            match r {
                Some(v) => params_lookup(self@, name@) == Some(v@),
                None => params_lookup(self@, name@) is None,
            },
    {
        let mut i: usize = 0;
        proof {
            assert(self@.skip(0) =~= self@);
        }
        while i < self.captures.len()
            invariant
                i <= self.captures@.len(),
                params_lookup(self@, name@) == params_lookup(self@.skip(i as int), name@),
            decreases self.captures@.len() - i,
        {
            proof {
                assert(self@.skip(i as int)[0] == (self.captures@[i as int].0@,
                    self.captures@[i as int].1@));
                assert(self@.skip(i as int).skip(1) =~= self@.skip(i + 1 as int));
            }
            if str_eq(self.captures[i].0.as_str(), name) {
                return Some(&self.captures[i].1);
            }
            i = i + 1;
        }
        proof {
            assert(self@.skip(i as int) =~= Seq::<(Seq<char>, Seq<char>)>::empty());
        }
        None
    }
}

impl Default for UrlParams {
    /// An empty capture list.
    fn default() -> (r: Self)
        ensures
            r@ == Seq::<(Seq<char>, Seq<char>)>::empty(),
    {
        UrlParams::new()
    }
}

} // verus!

//! One route registration: a path template plus its method-to-handler
//! bindings. Handlers are any copyable value; a registration binds at most
//! the last handler given for each method.

use vstd::prelude::*;
use crate::Method;

verus! {

/// The method-to-handler mapping denoted by a binding list: later bindings
/// for the same method override earlier ones.
pub open spec fn handlers_map<H>(s: Seq<(Method, H)>) -> Map<Method, H>
    decreases s.len(),
{
    if s.len() == 0 {
        Map::empty()
    } else {
        handlers_map(s.drop_last()).insert(s.last().0, s.last().1)
    }
}

/// Looks the last binding for `m` up in a binding list.
pub fn lookup_handler<H: Copy>(handlers: &Vec<(Method, H)>, m: Method) -> (r: Option<H>)
    ensures
        match r {
            Some(h) => handlers_map(handlers@).contains_key(m) && handlers_map(handlers@)[m]
                == h,
            None => !handlers_map(handlers@).contains_key(m),
        },
{
    let mut i: usize = handlers.len();
    proof {
        assert(handlers@.take(i as int) =~= handlers@);
    }
    while i > 0
        invariant
            i <= handlers@.len(),
            handlers_map(handlers@).contains_key(m) == handlers_map(
                handlers@.take(i as int),
            ).contains_key(m),
            handlers_map(handlers@).contains_key(m) ==> handlers_map(handlers@)[m]
                == handlers_map(handlers@.take(i as int))[m],
        decreases i,
    {
        proof {
            assert(handlers@.take(i as int).drop_last() =~= handlers@.take(i - 1 as int));
            assert(handlers@.take(i as int).last() == handlers@[i - 1 as int]);
        }
        if handlers[i - 1].0 == m {
            return Some(handlers[i - 1].1);
        }
        i = i - 1;
    }
    proof {
        assert(handlers@.take(0) =~= Seq::<(Method, H)>::empty());
    }
    None
}

/// A route registration: a path template, and handlers for zero or more
/// methods. Template segments written `:name` capture the matched path
/// segment under `name`.
#[derive(Debug)]
pub struct Route<H> {
    /// The path template to match.
    pub path: String,
    /// The method-to-handler bindings, in registration order.
    pub handlers: Vec<(Method, H)>,
}

impl<H: Copy> Route<H> {
    /// A route for the given path template, with no handlers yet.
    pub fn url(path: &str) -> (r: Self)
        ensures
            r.path@ == path@,
            r.handlers@ == Seq::<(Method, H)>::empty(),
    {
        Route { path: path.to_owned(), handlers: Vec::new() }
    }

    fn using(self, method: Method, handler: H) -> (r: Self)
        ensures
            r.path@ == self.path@,
            r.handlers@ == self.handlers@.push((method, handler)),
    {
        let mut r = self;
        r.handlers.push((method, handler));
        r
    }

    /// Binds a handler for OPTIONS requests.
    pub fn options(self, handler: H) -> (r: Self)
        ensures
            r.path@ == self.path@,
            r.handlers@ == self.handlers@.push((Method::Options, handler)),
    {
        self.using(Method::Options, handler)
    }

    /// Binds a handler for GET requests.
    pub fn get(self, handler: H) -> (r: Self)
        ensures
            r.path@ == self.path@,
            r.handlers@ == self.handlers@.push((Method::Get, handler)),
    {
        self.using(Method::Get, handler)
    }

    /// Binds a handler for POST requests.
    pub fn post(self, handler: H) -> (r: Self)
        ensures
            r.path@ == self.path@,
            r.handlers@ == self.handlers@.push((Method::Post, handler)),
    {
        self.using(Method::Post, handler)
    }

    /// Binds a handler for PUT requests.
    pub fn put(self, handler: H) -> (r: Self)
        ensures
            r.path@ == self.path@,
            r.handlers@ == self.handlers@.push((Method::Put, handler)),
    {
        self.using(Method::Put, handler)
    }

    /// Binds a handler for DELETE requests.
    pub fn delete(self, handler: H) -> (r: Self)
        ensures
            r.path@ == self.path@,
            r.handlers@ == self.handlers@.push((Method::Delete, handler)),
    {
        self.using(Method::Delete, handler)
    }

    /// Binds a handler for HEAD requests.
    pub fn head(self, handler: H) -> (r: Self)
        ensures
            r.path@ == self.path@,
            r.handlers@ == self.handlers@.push((Method::Head, handler)),
    {
        self.using(Method::Head, handler)
    }

    /// Binds a handler for TRACE requests.
    pub fn trace(self, handler: H) -> (r: Self)
        ensures
            r.path@ == self.path@,
            r.handlers@ == self.handlers@.push((Method::Trace, handler)),
    {
        self.using(Method::Trace, handler)
    }

    /// Binds a handler for CONNECT requests.
    pub fn connect(self, handler: H) -> (r: Self)
        ensures
            r.path@ == self.path@,
            r.handlers@ == self.handlers@.push((Method::Connect, handler)),
    {
        self.using(Method::Connect, handler)
    }

    /// Binds a handler for PATCH requests.
    pub fn patch(self, handler: H) -> (r: Self)
        ensures
            r.path@ == self.path@,
            r.handlers@ == self.handlers@.push((Method::Patch, handler)),
    {
        self.using(Method::Patch, handler)
    }
}

impl<H: Copy> Default for Route<H> {
    /// A route for the root path `/`, with no handlers.
    fn default() -> (r: Self)
        ensures
            r.path@ == "/"@,
            r.handlers@ == Seq::<(Method, H)>::empty(),
    {
        Route { path: "/".to_owned(), handlers: Vec::new() }
    }
}

} // verus!

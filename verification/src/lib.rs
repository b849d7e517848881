//! A route-pattern compiler and matcher. A textual URL template such as
//! `/user/<id:int>/profile/<profile_id:uuid>` is compiled into a [`Route`]: an
//! ordered sequence of typed segments. A compiled route can be matched
//! against a concrete request path, typed parameter values can be extracted
//! from a matching path, and a concrete path can be regenerated from the
//! route plus a list of parameter values. [`Routes`] keeps compiled routes in
//! insertion order and finds the first one that matches a path.
use vstd::prelude::*;

pub mod route;

pub use route::{Parser, Route};

use route::{route_matches, SpecRoute};

verus! {

/// An insertion-ordered collection of routes with first-match lookup.
#[derive(Clone, Debug, PartialEq)]
pub struct Routes {
    routes: Vec<Route>,
}

/// The first route in `rs`, in order, whose pattern matches `path`.
pub open spec fn find_first(rs: Seq<SpecRoute>, path: Seq<char>) -> Option<SpecRoute>
    decreases rs.len(),
{
    if rs.len() == 0 {
        None
    } else if route_matches(rs[0].segs, path) {
        Some(rs[0])
    } else {
        find_first(rs.skip(1), path)
    }
}

impl View for Routes {
    type V = Seq<SpecRoute>;

    closed spec fn view(&self) -> Seq<SpecRoute> {
        self.routes@.map_values(|r: Route| r@)
    }
}

impl Routes {
    /// An empty collection.
    pub fn new() -> (r: Routes)
        ensures
            r@ == Seq::<SpecRoute>::empty(),
    {
        Routes { routes: Vec::new() }
    }

    /// Appends a route after all routes added so far.
    pub fn add(&mut self, route: Route)
        ensures
            final(self)@ == old(self)@.push(route@),
    {
        let ghost old_routes = self.routes@;
        self.routes.push(route);
        proof {
            assert(self.routes@.map_values(|r: Route| r@) =~= old_routes.map_values(
                |r: Route| r@,
            ).push(self.routes@.last()@));
        }
    }

    /// Returns the first route, in insertion order, whose pattern matches
    /// `path`, or `None` if no route matches.
    pub fn find(&self, path: &str) -> (r: Option<&Route>)
        ensures
            match r {
                Some(route) => find_first(self@, path@) == Some(route@),
                None => find_first(self@, path@) is None,
            },
    {
        let mut i: usize = 0;
        proof {
            assert(self@.skip(0) =~= self@);
        }
        while i < self.routes.len()
            invariant
                0 <= i <= self.routes@.len(),
                self@.len() == self.routes@.len(),
                find_first(self@, path@) == find_first(self@.skip(i as int), path@),
            decreases self.routes@.len() - i,
        {
            proof {
                assert(self@[i as int] == self.routes@[i as int]@);
                assert(self@.skip(i as int)[0] == self@[i as int]);
                assert(self@.skip(i as int).skip(1) =~= self@.skip(i as int + 1));
            }
            if self.routes[i].check(path) {
                return Some(&self.routes[i]);
            }
            i += 1;
        }
        proof {
            assert(self@.skip(self.routes@.len() as int) =~= Seq::<SpecRoute>::empty());
        }
        None
    }
}

impl Default for Routes {
    /// An empty collection.
    fn default() -> (r: Self)
        ensures
            r@ == Seq::<SpecRoute>::empty(),
    {
        Self::new()
    }
}

} // verus!

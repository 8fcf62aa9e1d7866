//! What a route is known by besides its path.

use crate::method::{self, Method};
use crate::pattern;
use regex::Regex;
use vstd::prelude::*;

verus! {

/// The method, the compiled regular expression and the parameter names of a
/// route, as far as it has them.
#[derive(Debug)]
pub struct PathMeta {
    pub method: Option<Method>,
    pub regex: Option<Regex>,
    pub params: Vec<String>,
}

/// Whether a route for `route_method`, or for any method, serves `method`.
pub open spec fn method_matches(route_method: Option<Seq<char>>, method: Seq<char>) -> bool {
    route_method is None || route_method == Some(method)
}

impl PathMeta {
    pub fn new() -> (r: PathMeta)
        ensures
            r.method is None,
            r.regex is None,
            pattern::texts(r.params@) == Seq::<Seq<char>>::empty(),
    {
        let r = PathMeta { method: None, regex: None, params: Vec::new() };
        assert(pattern::texts(r.params@) =~= Seq::<Seq<char>>::empty());
        r
    }

    pub fn is_method_match(&self, method: &Method) -> (r: bool)
        ensures
            r == method_matches(method::token_of(self.method), method@),
    {
        match &self.method {
            None => true,
            Some(own) => own.same(method),
        }
    }
}

} // verus!

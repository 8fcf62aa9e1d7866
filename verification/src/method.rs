//! HTTP methods.

use vstd::prelude::*;

verus! {

/// An HTTP method, known by its token (`GET`, `POST`, ..).
#[derive(Debug)]
pub struct Method {
    token: String,
}

impl View for Method {
    type V = Seq<char>;

    closed spec fn view(&self) -> Seq<char> {
        self.token@
    }
}

impl Method {
    pub fn new(token: &str) -> (r: Method)
        ensures
            r@ == token@,
    {
        Method { token: token.to_owned() }
    }

    pub fn as_str(&self) -> (r: &str)
        ensures
            r@ == self@,
    {
        self.token.as_str()
    }

    /// Whether both are the same method. Methods are case-sensitive.
    pub fn same(&self, other: &Method) -> (r: bool)
        ensures
            r == (self@ == other@),
    {
        self.token == other.token
    }
}

impl Clone for Method {
    fn clone(&self) -> (r: Method)
        ensures
            r@ == self@,
    {
        Method { token: self.token.clone() }
    }
}

/// The token of a method, where there is one.
pub open spec fn token_of(method: Option<Method>) -> Option<Seq<char>> {
    match method {
        Some(m) => Some(m@),
        None => None,
    }
}

/// Whether `left` and `right` are the same method, or both are absent.
pub fn same_method(left: &Option<Method>, right: &Option<Method>) -> (r: bool)
    ensures
        r == (token_of(*left) == token_of(*right)),
{
    match (left, right) {
        (Some(l), Some(r)) => l.same(r),
        (None, None) => true,
        _ => false,
    }
}

} // verus!

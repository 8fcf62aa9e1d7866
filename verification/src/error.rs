//! What can go wrong, and who answers for it.

use crate::request::RequestInfo;
use vstd::prelude::*;

verus! {

/// `std::str::Utf8Error`, the reason why bytes are not UTF-8. It is carried along
/// and never looked into.
#[verifier::external_type_specification]
#[verifier::external_body]
pub struct ExUtf8Error(std::str::Utf8Error);

/// Why a request could not be routed, or a router could not be built.
#[derive(Debug)]
pub enum RouteError {
    /// The path of a request, once percent-decoded, is not UTF-8.
    InvalidPath(std::str::Utf8Error),
    /// The regular expressions of the routes do not compile.
    InvalidRoutes(regex::Error),
}

/// The handler of the errors that route handlers return: one that is given the
/// error alone, or one that is given a description of the request as well.
pub enum ErrHandler<F, G> {
    WithoutInfo(F),
    WithInfo(G),
}

/// A call of an error handler that is due.
pub enum ErrCall<'a, F, G, X> {
    WithoutInfo(&'a F, X),
    WithInfo(&'a G, X, RequestInfo),
}

impl<F, G> ErrHandler<F, G> {
    /// The call of this handler that answers `err`.
    pub open spec fn call_for<X>(&self, err: X, req_info: Option<RequestInfo>) -> ErrCall<
        '_,
        F,
        G,
        X,
    > {
        match self {
            ErrHandler::WithoutInfo(f) => ErrCall::WithoutInfo(f, err),
            ErrHandler::WithInfo(g) => ErrCall::WithInfo(g, err, req_info->0),
        }
    }

    /// The call that answers `err`.
    ///
    /// A handler that wants a description of the request must be given one.
    pub fn execute<X>(&self, err: X, req_info: Option<RequestInfo>) -> (r: ErrCall<'_, F, G, X>)
        requires
            *self is WithInfo ==> req_info is Some,
        ensures
            r == self.call_for(err, req_info),
    {
        match self {
            ErrHandler::WithoutInfo(f) => ErrCall::WithoutInfo(f, err),
            ErrHandler::WithInfo(g) => match req_info {
                Some(info) => ErrCall::WithInfo(g, err, info),
                None => vstd::pervasive::unreached(),
            },
        }
    }
}

} // verus!

//! Services: one for a server, which makes one for each connection, which routes
//! the requests of that connection.

use crate::decode::{self, percent_decode_request_path};
use crate::error::{ErrCall, ErrHandler, RouteError};
use crate::request::{Request, RequestExt, RequestInfo};
use crate::router::{Router, RouterView, Target};
use std::sync::Arc;
use vstd::prelude::*;

verus! {

/// Another pointer to the same router. Calls `Arc::clone`, which makes a pointer
/// to the same value.
#[verifier::external_body]
fn share<T>(pointer: &Arc<T>) -> (r: Arc<T>)
    ensures
        r == *pointer,
{
    pointer.clone()
}

/// Makes the services that route the requests of a connection.
pub struct RouterService<H, F, G> {
    router: Arc<Router<H, F, G>>,
}

/// Routes the requests of a connection.
pub struct RequestService<H, F, G> {
    router: Arc<Router<H, F, G>>,
}

impl<H, F, G> View for RouterService<H, F, G> {
    type V = RouterView<H, F, G>;

    closed spec fn view(&self) -> RouterView<H, F, G> {
        self.router@
    }
}

impl<H, F, G> View for RequestService<H, F, G> {
    type V = RouterView<H, F, G>;

    closed spec fn view(&self) -> RouterView<H, F, G> {
        self.router@
    }
}

impl<H, F, G> RouterService<H, F, G> {
    pub closed spec fn wf(&self) -> bool {
        self.router.wf()
    }

    pub fn new(router: Router<H, F, G>) -> (r: RouterService<H, F, G>)
        requires
            router.wf(),
        ensures
            r.wf(),
            r@ == router@,
    {
        RouterService { router: Arc::new(router) }
    }

    /// The service for a new connection.
    pub fn call(&self) -> (r: RequestService<H, F, G>)
        requires
            self.wf(),
        ensures
            r.wf(),
            r@ == self@,
    {
        RequestService { router: share(&self.router) }
    }
}

/// A request with the route that it takes.
pub struct Routed {
    pub target: Target,
    /// The request, with the parameters that the route put on it.
    pub request: Request,
    /// The description of the request, where the error handler will want one.
    pub req_info: Option<RequestInfo>,
}

/// The outcome of a route handler, settled: a response, or a call of the error
/// handler that is due and makes one.
pub enum Settled<'a, R, F, G, X> {
    Respond(R),
    Recover(ErrCall<'a, F, G, X>),
}

/// The route that a request takes: by its method, and by the decoded path of its
/// URI.
pub open spec fn target_of<H, F, G>(router: RouterView<H, F, G>, req: Request) -> Option<Target> {
    match decode::request_path(req.uri.path@) {
        Some(path) => router.resolve(req.method@, path),
        None => None,
    }
}

/// Whether `routed` is `req`, annotated for the route that it takes.
pub open spec fn is_routed<H, F, G>(
    router: RouterView<H, F, G>,
    req: Request,
    routed: Routed,
) -> bool {
    &&& target_of(router, req) == Some(routed.target)
    &&& router.has(routed.target)
    &&& routed.request == Request { meta: routed.request.meta, ..req }
    &&& if router.captures(routed.target) {
        &&& routed.request.has_params()
        &&& routed.request.params_map() == router.params(
            routed.target,
            decode::request_path(req.uri.path@)->0,
        )
    } else {
        routed.request.meta == req.meta
    }
    &&& match router.err_handler {
        Some(ErrHandler::WithInfo(_)) => routed.req_info is Some && routed.req_info->0@
            == req.info(),
        _ => routed.req_info is None,
    }
}

impl<H, F, G> RequestService<H, F, G> {
    pub closed spec fn wf(&self) -> bool {
        self.router.wf()
    }

    /// Another service for the same connection.
    pub fn share(&self) -> (r: RequestService<H, F, G>)
        requires
            self.wf(),
        ensures
            r.wf(),
            r@ == self@,
    {
        RequestService { router: share(&self.router) }
    }

    /// Routes a request, if any route serves it. It fails where the path of the
    /// URI does not decode.
    pub fn try_call(&self, req: Request) -> (r: Result<Option<Routed>, RouteError>)
        requires
            self.wf(),
        ensures
            match r {
                Err(err) => decode::request_path(req.uri.path@) is None && err
                    == RouteError::InvalidPath(decode::decode_error(req.uri.path@)),
                Ok(None) => decode::request_path(req.uri.path@) is Some && target_of(
                    self@,
                    req,
                ) is None,
                Ok(Some(routed)) => is_routed(self@, req, routed),
            },
    {
        let mut path = match percent_decode_request_path(req.uri.path.as_str()) {
            Ok(path) => path,
            Err(err) => return Err(err),
        };
        if path.as_str().is_empty() {
            path.append("/");
            assert(path@ =~= "/"@);
        }
        let req_info = match self.router.error_handler() {
            Some(ErrHandler::WithInfo(_)) => Some(RequestInfo::new_from_req(&req)),
            _ => None,
        };
        match self.router.resolve(&req.method, path.as_str()) {
            None => Ok(None),
            Some(target) => {
                let mut request = req;
                if let Some(meta) = self.router.request_meta(target, path.as_str()) {
                    request.meta = Some(meta);
                }
                Ok(Some(Routed { target, request, req_info }))
            },
        }
    }

    /// Routes a request that some route serves. It fails where the path of the
    /// URI does not decode.
    pub fn call(&self, req: Request) -> (r: Result<Routed, RouteError>)
        requires
            self.wf(),
            decode::request_path(req.uri.path@) is Some ==> target_of(self@, req) is Some,
        ensures
            match r {
                Err(err) => decode::request_path(req.uri.path@) is None && err
                    == RouteError::InvalidPath(decode::decode_error(req.uri.path@)),
                Ok(routed) => is_routed(self@, req, routed),
            },
    {
        match self.try_call(req) {
            Err(err) => Err(err),
            Ok(Some(routed)) => Ok(routed),
            Ok(None) => vstd::pervasive::unreached(),
        }
    }

    /// The handler of a route.
    pub fn handler(&self, target: Target) -> (r: &H)
        requires
            self.wf(),
            self@.has(target),
        ensures
            *r == self@.handler(target),
    {
        self.router.handler(target)
    }

    /// Whether errors that route handlers return have a handler.
    pub fn has_err_handler(&self) -> (r: bool)
        ensures
            r == (self@.err_handler is Some),
    {
        self.router.error_handler().is_some()
    }

    /// Settles the outcome of a route handler.
    pub fn finish<R, X>(&self, outcome: Result<R, X>, req_info: Option<RequestInfo>) -> (r: Settled<
        '_,
        R,
        F,
        G,
        X,
    >)
        requires
            outcome is Err ==> self@.err_handler is Some,
            outcome is Err && (self@.err_handler matches Some(ErrHandler::WithInfo(_)))
                ==> req_info is Some,
        ensures
            match outcome {
                Ok(response) => r == Settled::<R, F, G, X>::Respond(response),
                Err(err) => r == Settled::<R, F, G, X>::Recover(
                    self@.err_handler->0.call_for(err, req_info),
                ),
            },
    {
        match outcome {
            Ok(response) => Settled::Respond(response),
            Err(err) => match self.router.error_handler() {
                Some(handler) => Settled::Recover(handler.execute(err, req_info)),
                None => vstd::pervasive::unreached(),
            },
        }
    }
}

} // verus!

//! A small HTTP router: it finds the route that serves a request, takes the
//! parameters of the route from the path, and settles who answers an error.
//!
//! Handlers are values that the router keeps and hands back; it never calls them.

pub mod decode;
pub mod error;
pub mod laws;
pub mod method;
pub mod operations;
pub mod path_meta;
pub mod pattern;
pub mod plain;
pub mod reading;
pub mod regexes;
pub mod request;
pub mod response;
pub mod router;
pub mod service;
pub mod serving;

pub use crate::error::{ErrCall, ErrHandler, RouteError};
pub use crate::method::Method;
pub use crate::request::{
    Header, Request, RequestExt, RequestInfo, RequestMeta, RouteParams, Uri, Version,
};
pub use crate::response::{not_found_response, server_error_response, TextResponse};
pub use crate::router::{Defaults, Router, Target, Verb};
pub use crate::service::{RequestService, Routed, RouterService, Settled};

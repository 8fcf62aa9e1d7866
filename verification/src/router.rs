//! The routes of a service, and which of them serves a request.

use crate::error::{ErrHandler, RouteError};
use crate::method::{self, Method};
use crate::path_meta::{self, PathMeta};
use crate::pattern::{self, generate_common_regex_str, Piece};
use crate::plain::{PathMethod, PlainTable};
use crate::regexes::{self, compile_set, regex_captures, set_matches, CATCH_ALL_RE};
use crate::request::{self, RequestMeta, RouteParams};
use regex::{Regex, RegexSet};
use vstd::prelude::*;

verus! {

/// What to tell the author of a router without an error handler.
pub const NO_ERR_HANDLER_WARNING: &'static str =
    "Warning: No error handler added. It is recommended to add one to see what went wrong if any route or middleware fails.\nPlease add one by calling `.err_handler(handler)` method of the root router builder.\n";

/// A route with placeholders.
pub struct PatternRoute<H> {
    /// Its regular expression.
    pub regex: Seq<char>,
    /// The names of its parameters.
    pub names: Seq<Seq<char>>,
    /// Whether its parameters are put on the request.
    pub captures: bool,
    /// The method that it serves; `None` for any.
    pub method: Option<Seq<char>>,
    pub handler: H,
}

/// A route without placeholders.
pub struct PlainRoute<H> {
    /// The path that it serves.
    pub path: Seq<char>,
    /// The method that it serves; `None` for any.
    pub method: Option<Seq<char>>,
    pub handler: H,
}

impl<H> PlainRoute<H> {
    pub open spec fn key(self) -> PathMethod {
        (self.path, self.method)
    }
}

/// The route that serves a request: the number of a route without placeholders,
/// or of one with.
#[derive(Clone, Copy, Debug, PartialEq, Eq, Structural)]
pub enum Target {
    Plain(usize),
    Pattern(usize),
}

/// What a router holds.
pub struct RouterView<H, F, G> {
    /// The routes with placeholders, in the order in which they were added.
    pub patterns: Seq<PatternRoute<H>>,
    /// The routes without placeholders, in the order in which they were added.
    pub plains: Seq<PlainRoute<H>>,
    /// How many of the routes with placeholders are in service.
    pub live: nat,
    /// The routes without placeholders that are in service.
    pub table: Map<PathMethod, usize>,
    pub err_handler: Option<ErrHandler<F, G>>,
}

/// Whether each entry of `table` is the first of the routes that have its key.
pub open spec fn indexes_first<H>(
    table: Map<PathMethod, usize>,
    plains: Seq<PlainRoute<H>>,
) -> bool {
    forall|key: PathMethod| #[trigger]
        table.contains_key(key) ==> is_first_with(plains, key, table[key] as int)
}

/// Whether route `i` has `key` and no route before it does.
pub open spec fn is_first_with<H>(plains: Seq<PlainRoute<H>>, key: PathMethod, i: int) -> bool {
    &&& 0 <= i < plains.len()
    &&& plains[i].key() == key
    &&& forall|j: int| 0 <= j < i ==> (#[trigger] plains[j]).key() != key
}

/// Whether `table` has an entry for each of the routes.
pub open spec fn covers<H>(table: Map<PathMethod, usize>, plains: Seq<PlainRoute<H>>) -> bool {
    forall|i: int| 0 <= i < plains.len() ==> table.contains_key((#[trigger] plains[i]).key())
}

/// The regular expressions of routes, in order.
pub open spec fn regexes_of<H>(patterns: Seq<PatternRoute<H>>) -> Seq<Seq<char>> {
    Seq::new(patterns.len(), |i: int| patterns[i].regex)
}

/// Whether `route` serves requests with this method and path.
pub open spec fn serves<H>(route: PatternRoute<H>, method: Seq<char>, path: Seq<char>) -> bool {
    path_meta::method_matches(route.method, method) && pattern::accepts(route.regex, path)
}

/// Whether route `i` is the first that serves requests with this method and path.
pub open spec fn is_first_serving<H>(
    patterns: Seq<PatternRoute<H>>,
    method: Seq<char>,
    path: Seq<char>,
    i: int,
) -> bool {
    &&& 0 <= i < patterns.len()
    &&& serves(patterns[i], method, path)
    &&& forall|j: int| 0 <= j < i ==> !serves(#[trigger] patterns[j], method, path)
}

/// Whether `route` serves what a call of `any` adds a route for: any path that
/// begins with `/`, and any method.
pub open spec fn is_catch_all<H>(route: PatternRoute<H>) -> bool {
    route.regex == CATCH_ALL_RE@ && route.method is None
}

/// The route for requests that no other route serves.
pub open spec fn not_found_route<H>(handler: H) -> PatternRoute<H> {
    PatternRoute {
        regex: CATCH_ALL_RE@,
        names: Seq::empty(),
        captures: false,
        method: None,
        handler,
    }
}

/// The parameters that `route` takes from a path.
pub open spec fn params_of<H>(route: PatternRoute<H>, path: Seq<char>) -> Map<
    Seq<char>,
    Seq<char>,
> {
    let parts = pattern::parts_of(route.regex, path);
    if pattern::accepts(route.regex, path) {
        request::bound(route.names, Seq::new(parts.len(), |i: int| Some(parts[i])))
    } else {
        Map::empty()
    }
}

impl<H, F, G> RouterView<H, F, G> {
    /// Whether a route puts parameters on the request.
    pub open spec fn captures(self, target: Target) -> bool {
        target matches Target::Pattern(i) && self.patterns[i as int].captures
    }

    /// The parameters that a route puts on a request with this path.
    pub open spec fn params(self, target: Target, path: Seq<char>) -> Map<Seq<char>, Seq<char>> {
        match target {
            Target::Plain(_) => Map::empty(),
            Target::Pattern(i) => params_of(self.patterns[i as int], path),
        }
    }

    /// The route that serves a request with this method and path: the one
    /// without placeholders for this path and method, or for this path and any
    /// method; failing these, the first one with placeholders.
    pub open spec fn resolve(self, method: Seq<char>, path: Seq<char>) -> Option<Target> {
        let patterns = self.patterns.take(self.live as int);
        if self.table.contains_key((path, Some(method))) {
            Some(Target::Plain(self.table[(path, Some(method))]))
        } else if self.table.contains_key((path, None)) {
            Some(Target::Plain(self.table[(path, None)]))
        } else if exists|i: usize| is_first_serving(patterns, method, path, i as int) {
            Some(
                Target::Pattern(
                    choose|i: usize| is_first_serving(patterns, method, path, i as int),
                ),
            )
        } else {
            None
        }
    }

    /// Whether `target` is a route of this router.
    pub open spec fn has(self, target: Target) -> bool {
        match target {
            Target::Plain(i) => i < self.plains.len(),
            Target::Pattern(i) => i < self.patterns.len(),
        }
    }

    /// The handler of a route.
    pub open spec fn handler(self, target: Target) -> H {
        match target {
            Target::Plain(i) => self.plains[i as int].handler,
            Target::Pattern(i) => self.patterns[i as int].handler,
        }
    }

    /// Whether what is in service are the first of the routes with placeholders,
    /// and, for some paths and methods, the first of the routes without.
    pub open spec fn valid(self) -> bool {
        &&& self.live <= self.patterns.len()
        &&& indexes_first(self.table, self.plains)
    }

    /// Whether all routes are in service, and there are no more of them than can
    /// be numbered.
    pub open spec fn in_service(self) -> bool {
        &&& self.live == self.patterns.len() <= usize::MAX
        &&& self.plains.len() <= usize::MAX
        &&& indexes_first(self.table, self.plains)
        &&& covers(self.table, self.plains)
    }

    /// This router with one more route.
    pub open spec fn adding(
        self,
        path: Seq<char>,
        method: Option<Seq<char>>,
        handler: H,
    ) -> RouterView<H, F, G> {
        if pattern::names(path).len() > 0 {
            RouterView {
                patterns: self.patterns.push(
                    PatternRoute {
                        regex: pattern::route_regex(path),
                        names: pattern::names(path),
                        captures: true,
                        method,
                        handler,
                    },
                ),
                ..self
            }
        } else {
            RouterView {
                plains: self.plains.push(PlainRoute { path, method, handler }),
                ..self
            }
        }
    }

    /// This router with a route for all requests that no other route serves,
    /// unless it has one or there is no handler for it.
    pub open spec fn with_not_found(self, handler: Option<H>) -> RouterView<H, F, G> {
        if handler is None || exists|i: int|
            0 <= i < self.patterns.len() && is_catch_all(#[trigger] self.patterns[i]) {
            self
        } else {
            RouterView { patterns: self.patterns.push(not_found_route(handler->0)), ..self }
        }
    }

    /// This router with an error handler, unless it has one or there is none.
    pub open spec fn with_on_error(self, handler: Option<F>) -> RouterView<H, F, G> {
        if handler is None || self.err_handler is Some {
            self
        } else {
            RouterView { err_handler: Some(ErrHandler::WithoutInfo(handler->0)), ..self }
        }
    }
}

/// Why a route pattern cannot be added, if it cannot: the regular expression of
/// one with placeholders must compile.
pub open spec fn route_error(path: Seq<char>) -> Option<regex::Error> {
    if pattern::names(path).len() > 0 {
        regexes::regex_error(pattern::route_regex(path), usize::BITS as nat)
    } else {
        None
    }
}

/// Whether a route pattern can be added.
pub open spec fn registrable(path: Seq<char>) -> bool {
    route_error(path) is None
}

/// Why routes cannot be put in service together, if they cannot.
pub open spec fn routes_error<H>(patterns: Seq<PatternRoute<H>>) -> Option<regex::Error> {
    if patterns.len() > 0 {
        regexes::set_error(regexes_of(patterns), usize::BITS as nat)
    } else {
        None
    }
}

/// What a route can be added for: one method, or any.
#[derive(Clone, Copy, Debug, PartialEq, Eq, Structural)]
pub enum Verb {
    Get,
    Post,
    Put,
    Delete,
    Head,
    Trace,
    Connect,
    Patch,
    Options,
    AnyMethod,
}

impl Verb {
    /// The token of the method; `None` for any.
    pub open spec fn token(self) -> Option<Seq<char>> {
        match self {
            Verb::Get => Some("GET"@),
            Verb::Post => Some("POST"@),
            Verb::Put => Some("PUT"@),
            Verb::Delete => Some("DELETE"@),
            Verb::Head => Some("HEAD"@),
            Verb::Trace => Some("TRACE"@),
            Verb::Connect => Some("CONNECT"@),
            Verb::Patch => Some("PATCH"@),
            Verb::Options => Some("OPTIONS"@),
            Verb::AnyMethod => None,
        }
    }
}

/// The handlers that a router is completed with where it lacks them.
pub struct Defaults<H, F> {
    /// For requests that no route serves.
    pub not_found: Option<H>,
    /// For errors that route handlers return.
    pub on_error: Option<F>,
}

/// A router with route handlers `H`, and error handlers `F` or `G`: the latter
/// are given a description of the request.
pub struct Router<H, F, G> {
    meta: Vec<PathMeta>,
    meta2: Vec<PathMeta>,
    routes: Vec<String>,
    routes2: Vec<String>,
    handlers: Vec<H>,
    handlers2: Vec<H>,
    err_handler: Option<ErrHandler<F, G>>,
    regex_set: RegexSet,
    plain: PlainTable,
}

impl<H, F, G> View for Router<H, F, G> {
    type V = RouterView<H, F, G>;

    closed spec fn view(&self) -> RouterView<H, F, G> {
        RouterView {
            patterns: Seq::new(
                self.routes@.len(),
                |i: int|
                    PatternRoute {
                        regex: self.routes@[i]@,
                        names: pattern::texts(self.meta@[i].params@),
                        captures: self.meta@[i].regex is Some,
                        method: method::token_of(self.meta@[i].method),
                        handler: self.handlers@[i],
                    },
            ),
            plains: Seq::new(
                self.routes2@.len(),
                |i: int|
                    PlainRoute {
                        path: self.routes2@[i]@,
                        method: method::token_of(self.meta2@[i].method),
                        handler: self.handlers2@[i],
                    },
            ),
            live: regexes::set_patterns(self.regex_set).len(),
            table: self.plain@,
            err_handler: self.err_handler,
        }
    }
}

impl<H, F, G> Router<H, F, G> {
    /// Each route has a meta and a handler. One with placeholders is kept by its
    /// regular expression; where that is compiled, it has as many parameter names
    /// as placeholders. One without has no regular expression and no names. What
    /// is in service are the first of the routes with placeholders, and the first
    /// of the routes without for each path and method.
    pub closed spec fn wf(&self) -> bool {
        &&& self.meta@.len() == self.routes@.len()
        &&& self.handlers@.len() == self.routes@.len()
        &&& self.meta2@.len() == self.routes2@.len()
        &&& self.handlers2@.len() == self.routes2@.len()
        &&& forall|i: int|
            0 <= i < self.routes@.len() ==> pattern::is_route_regex((#[trigger] self.routes@[i])@)
        &&& forall|i: int|
            0 <= i < self.routes@.len() ==> ((#[trigger] self.meta@[i]).regex matches Some(re) ==>
                regexes::regex_source(re) == self.routes@[i]@)
        &&& forall|i: int, pieces: Seq<Piece>|
            0 <= i < self.routes@.len() && (#[trigger] self.meta@[i]).regex is Some
                && #[trigger] pattern::anchored(pieces) == self.routes@[i]@
                ==> self.meta@[i].params@.len() == pattern::holes(pieces)
        &&& forall|i: int|
            0 <= i < self.routes2@.len() ==> (#[trigger] self.meta2@[i]).regex is None
                && self.meta2@[i].params@.len() == 0
        &&& regexes::set_patterns(self.regex_set).len() <= self.routes@.len()
        &&& forall|i: int|
            0 <= i < regexes::set_patterns(self.regex_set).len() ==> #[trigger]
            regexes::set_patterns(self.regex_set)[i] == self.routes@[i]@
        &&& indexes_first(self@.table, self@.plains)
    }

    /// What is in service are routes of the router.
    pub proof fn law_in_service_are_routes(&self)
        requires
            self.wf(),
        ensures
            self@.valid(),
    {
    }

    /// A route that puts parameters on the request has a name for each placeholder
    /// of its pattern, and so for each part that the pattern captures.
    pub proof fn law_names_match_placeholders(&self, i: int, pieces: Seq<Piece>)
        requires
            self.wf(),
            0 <= i < self@.patterns.len(),
            self@.patterns[i].captures,
            self@.patterns[i].regex == pattern::anchored(pieces),
        ensures
            self@.patterns[i].names.len() == pattern::holes(pieces),
            forall|text: Seq<char>, parts: Seq<Seq<char>>| #[trigger]
                pattern::captured(pieces, text, parts) ==> parts.len()
                    == self@.patterns[i].names.len(),
    {
        assert(self.meta@[i].regex is Some);
        assert forall|text: Seq<char>, parts: Seq<Seq<char>>| #[trigger]
            pattern::captured(pieces, text, parts) implies parts.len() == pattern::holes(
            pieces,
        ) by {
            pattern::lemma_fits_fill(pieces, parts, text);
        }
    }

    /// A router without routes.
    pub fn new() -> (r: Router<H, F, G>)
        ensures
            r.wf(),
            r@.patterns == Seq::<PatternRoute<H>>::empty(),
            r@.plains == Seq::<PlainRoute<H>>::empty(),
            r@.live == 0,
            r@.table == Map::<PathMethod, usize>::empty(),
            r@.err_handler is None,
    {
        let r = Router {
            meta: Vec::new(),
            routes: Vec::new(),
            handlers: Vec::new(),
            meta2: Vec::new(),
            routes2: Vec::new(),
            handlers2: Vec::new(),
            err_handler: None,
            regex_set: RegexSet::empty(),
            plain: PlainTable::new(),
        };
        assert(r@.patterns =~= Seq::<PatternRoute<H>>::empty());
        assert(r@.plains =~= Seq::<PlainRoute<H>>::empty());
        r
    }

    /// Has `handler` answer the errors that route handlers return.
    pub fn err_handler(self, handler: F) -> (r: Router<H, F, G>)
        requires
            self.wf(),
        ensures
            r.wf(),
            r@ == (RouterView { err_handler: Some(ErrHandler::WithoutInfo(handler)), ..self@ }),
    {
        let mut r = self;
        r.err_handler = Some(ErrHandler::WithoutInfo(handler));
        assert(r@.patterns =~= self@.patterns);
        assert(r@.plains =~= self@.plains);
        r
    }

    /// Has `handler` answer the errors that route handlers return, given a
    /// description of the request.
    pub fn err_handler_with_info(self, handler: G) -> (r: Router<H, F, G>)
        requires
            self.wf(),
        ensures
            r.wf(),
            r@ == (RouterView { err_handler: Some(ErrHandler::WithInfo(handler)), ..self@ }),
    {
        let mut r = self;
        r.err_handler = Some(ErrHandler::WithInfo(handler));
        assert(r@.patterns =~= self@.patterns);
        assert(r@.plains =~= self@.plains);
        r
    }

    fn add(self, path: &str, method: Option<Method>, handler: H) -> (r: Router<H, F, G>)
        requires
            self.wf(),
            registrable(path@),
        ensures
            r.wf(),
            r@ == self@.adding(path@, method::token_of(method), handler),
    {
        let mut r = self;
        let mut meta = PathMeta::new();
        meta.method = method;
        assert(pattern::texts(meta.params@).len() == meta.params@.len());
        let (regex_str, params) = generate_common_regex_str(path);
        assert(pattern::texts(params@).len() == params@.len());
        if params.len() > 0 {
            let re_str = anchor(regex_str.as_str());
            match Regex::new(re_str.as_str()) {
                Ok(re) => {
                    meta.regex = Some(re);
                },
                Err(_) => vstd::pervasive::unreached(),
            }
            meta.params = params;
            r.meta.push(meta);
            r.routes.push(re_str);
            r.handlers.push(handler);
            proof {
                pattern::lemma_accepts(pattern::pieces(path@), Seq::empty());
                pattern::lemma_names_holes(path@, 0);
                assert forall|pieces: Seq<Piece>| #[trigger]
                    pattern::anchored(pieces) == re_str@ implies pieces == pattern::pieces(
                    path@,
                ) by {
                    pattern::lemma_anchored_injective(pieces, pattern::pieces(path@));
                }
                assert(r@.plains =~= self@.plains);
                assert(r@.patterns =~= self@.adding(
                    path@,
                    method::token_of(method),
                    handler,
                ).patterns);
            }
        } else {
            r.meta2.push(meta);
            r.routes2.push(path.to_owned());
            r.handlers2.push(handler);
            proof {
                assert(r@.patterns =~= self@.patterns);
                assert(r@.plains =~= self@.adding(
                    path@,
                    method::token_of(method),
                    handler,
                ).plains);
                lemma_still_first(self@.table, self@.plains, r@.plains.last());
                assert(r@.plains =~= self@.plains.push(r@.plains.last()));
            }
        }
        r
    }

    /// Adds a route for `GET` requests.
    pub fn get(self, path: &str, handler: H) -> (r: Router<H, F, G>)
        requires
            self.wf(),
            registrable(path@),
        ensures
            r.wf(),
            r@ == self@.adding(path@, Some("GET"@), handler),
    {
        self.add(path, Some(Method::new("GET")), handler)
    }

    /// Adds a route for `POST` requests.
    pub fn post(self, path: &str, handler: H) -> (r: Router<H, F, G>)
        requires
            self.wf(),
            registrable(path@),
        ensures
            r.wf(),
            r@ == self@.adding(path@, Some("POST"@), handler),
    {
        self.add(path, Some(Method::new("POST")), handler)
    }

    /// Adds a route for `PUT` requests.
    pub fn put(self, path: &str, handler: H) -> (r: Router<H, F, G>)
        requires
            self.wf(),
            registrable(path@),
        ensures
            r.wf(),
            r@ == self@.adding(path@, Some("PUT"@), handler),
    {
        self.add(path, Some(Method::new("PUT")), handler)
    }

    /// Adds a route for `DELETE` requests.
    pub fn delete(self, path: &str, handler: H) -> (r: Router<H, F, G>)
        requires
            self.wf(),
            registrable(path@),
        ensures
            r.wf(),
            r@ == self@.adding(path@, Some("DELETE"@), handler),
    {
        self.add(path, Some(Method::new("DELETE")), handler)
    }

    /// Adds a route for `HEAD` requests.
    pub fn head(self, path: &str, handler: H) -> (r: Router<H, F, G>)
        requires
            self.wf(),
            registrable(path@),
        ensures
            r.wf(),
            r@ == self@.adding(path@, Some("HEAD"@), handler),
    {
        self.add(path, Some(Method::new("HEAD")), handler)
    }

    /// Adds a route for `TRACE` requests.
    pub fn trace(self, path: &str, handler: H) -> (r: Router<H, F, G>)
        requires
            self.wf(),
            registrable(path@),
        ensures
            r.wf(),
            r@ == self@.adding(path@, Some("TRACE"@), handler),
    {
        self.add(path, Some(Method::new("TRACE")), handler)
    }

    /// Adds a route for `CONNECT` requests.
    pub fn connect(self, path: &str, handler: H) -> (r: Router<H, F, G>)
        requires
            self.wf(),
            registrable(path@),
        ensures
            r.wf(),
            r@ == self@.adding(path@, Some("CONNECT"@), handler),
    {
        self.add(path, Some(Method::new("CONNECT")), handler)
    }

    /// Adds a route for `PATCH` requests.
    pub fn patch(self, path: &str, handler: H) -> (r: Router<H, F, G>)
        requires
            self.wf(),
            registrable(path@),
        ensures
            r.wf(),
            r@ == self@.adding(path@, Some("PATCH"@), handler),
    {
        self.add(path, Some(Method::new("PATCH")), handler)
    }

    /// Adds a route for `OPTIONS` requests.
    pub fn options(self, path: &str, handler: H) -> (r: Router<H, F, G>)
        requires
            self.wf(),
            registrable(path@),
        ensures
            r.wf(),
            r@ == self@.adding(path@, Some("OPTIONS"@), handler),
    {
        self.add(path, Some(Method::new("OPTIONS")), handler)
    }

    /// Adds the route pattern `/*` for any method: it serves all requests whose
    /// path begins with `/` and that neither a route without placeholders nor an
    /// earlier route with placeholders serves. Later routes with placeholders
    /// yield to it.
    pub fn any(self, handler: H) -> (r: Router<H, F, G>)
        requires
            self.wf(),
        ensures
            r.wf(),
            r@ == self@.adding("/*"@, None, handler),
    {
        // This pattern can always be added.
        let _ = Self::check_route("/*");
        self.add("/*", None, handler)
    }

    /// Adds a route for requests of any method.
    pub fn any_method(self, path: &str, handler: H) -> (r: Router<H, F, G>)
        requires
            self.wf(),
            registrable(path@),
        ensures
            r.wf(),
            r@ == self@.adding(path@, None, handler),
    {
        self.add(path, None, handler)
    }

    /// Whether a route pattern can be added.
    pub fn check_route(path: &str) -> (r: Result<(), RouteError>)
        ensures
            match r {
                Ok(_) => registrable(path@),
                Err(err) => route_error(path@) matches Some(e) && err
                    == RouteError::InvalidRoutes(e),
            },
            path@ == "/*"@ ==> r is Ok,
    {
        let (regex_str, params) = generate_common_regex_str(path);
        assert(pattern::texts(params@).len() == params@.len());
        proof {
            if path@ == "/*"@ {
                pattern::lemma_catch_all();
            }
        }
        if params.len() > 0 {
            match Regex::new(anchor(regex_str.as_str()).as_str()) {
                Ok(_) => Ok(()),
                Err(err) => Err(RouteError::InvalidRoutes(err)),
            }
        } else {
            Ok(())
        }
    }

    /// Adds a route for one method, or for any, if the route pattern can be added.
    pub fn try_route(self, verb: Verb, path: &str, handler: H) -> (r: Result<
        Router<H, F, G>,
        RouteError,
    >)
        requires
            self.wf(),
        ensures
            match r {
                Ok(router) => registrable(path@) && router.wf() && router@ == self@.adding(
                    path@,
                    verb.token(),
                    handler,
                ),
                Err(err) => route_error(path@) matches Some(e) && err
                    == RouteError::InvalidRoutes(e),
            },
    {
        match Self::check_route(path) {
            Err(err) => Err(err),
            Ok(_) => Ok(
                match verb {
                    Verb::Get => self.get(path, handler),
                    Verb::Post => self.post(path, handler),
                    Verb::Put => self.put(path, handler),
                    Verb::Delete => self.delete(path, handler),
                    Verb::Head => self.head(path, handler),
                    Verb::Trace => self.trace(path, handler),
                    Verb::Connect => self.connect(path, handler),
                    Verb::Patch => self.patch(path, handler),
                    Verb::Options => self.options(path, handler),
                    Verb::AnyMethod => self.any_method(path, handler),
                },
            ),
        }
    }

    /// Adds the route for requests that no other route serves.
    pub fn init_default_404_route(&mut self, handler: Option<H>)
        requires
            old(self).wf(),
        ensures
            final(self).wf(),
            final(self)@ == old(self)@.with_not_found(handler),
    {
        let mut i: usize = 0;
        while i < self.routes.len()
            invariant
                *self == *old(self),
                self.wf(),
                i <= self.routes@.len(),
                forall|k: int| 0 <= k < i ==> !is_catch_all(#[trigger] self@.patterns[k]),
            decreases self.routes@.len() - i,
        {
            if self.routes[i] == CATCH_ALL_RE.to_owned() && self.meta[i].method.is_none() {
                assert(is_catch_all(self@.patterns[i as int]));
                return;
            }
            i = i + 1;
        }
        if let Some(handler) = handler {
            self.meta.push(PathMeta::new());
            self.routes.push(CATCH_ALL_RE.to_owned());
            self.handlers.push(handler);
            proof {
                pattern::lemma_catch_all();
                pattern::lemma_accepts(pattern::pieces("/*"@), Seq::empty());
                assert(self@.plains =~= old(self)@.plains);
                assert(self@.patterns =~= old(self)@.patterns.push(not_found_route(handler)));
            }
        }
    }

    /// Sets the handler for errors that route handlers return, where none is set.
    pub fn init_err_handler(&mut self, handler: Option<F>)
        requires
            old(self).wf(),
        ensures
            final(self).wf(),
            final(self)@ == old(self)@.with_on_error(handler),
    {
        if self.err_handler.is_some() {
            return;
        }
        if let Some(handler) = handler {
            self.err_handler = Some(ErrHandler::WithoutInfo(handler));
            assert(self@.patterns =~= old(self)@.patterns);
            assert(self@.plains =~= old(self)@.plains);
        }
    }

    /// The handler for errors that route handlers return.
    pub fn error_handler(&self) -> (r: Option<&ErrHandler<F, G>>)
        ensures
            match self@.err_handler {
                Some(handler) => r == Some(&handler),
                None => r is None,
            },
    {
        match &self.err_handler {
            Some(handler) => Some(handler),
            None => None,
        }
    }

    /// What to tell the author of a router that, even with `defaults`, has no
    /// error handler.
    pub fn err_handler_warning(&self, defaults: &Defaults<H, F>) -> (r: Option<&'static str>)
        ensures
            r == (if self@.with_on_error(defaults.on_error).err_handler is None {
                Some(NO_ERR_HANDLER_WARNING)
            } else {
                None
            }),
    {
        if self.err_handler.is_some() || defaults.on_error.is_some() {
            None
        } else {
            Some(NO_ERR_HANDLER_WARNING)
        }
    }

    /// Completes the router with `defaults` and puts its routes in service.
    pub fn build(self, defaults: Defaults<H, F>) -> (r: Result<Router<H, F, G>, RouteError>)
        requires
            self.wf(),
        ensures
            ({
                let complete = self@.with_not_found(defaults.not_found).with_on_error(
                    defaults.on_error,
                );
                match r {
                    Ok(router) => {
                        &&& routes_error(complete.patterns) is None
                        &&& router.wf()
                        &&& router@.in_service()
                        &&& router@ == RouterView {
                            live: router@.live,
                            table: router@.table,
                            ..complete
                        }
                    },
                    Err(err) => routes_error(complete.patterns) matches Some(e) && err
                        == RouteError::InvalidRoutes(e),
                }
            }),
    {
        let mut r = self;
        r.init_default_404_route(defaults.not_found);
        r.init_err_handler(defaults.on_error);
        let ghost complete = r@;
        let mut i: usize = 0;
        while i < r.routes2.len()
            invariant
                i <= r.routes2@.len(),
                r.wf(),
                r@ == (RouterView { table: r@.table, ..complete }),
                forall|k: int|
                    0 <= k < i ==> r@.table.contains_key((#[trigger] r@.plains[k]).key()),
            decreases r.routes2@.len() - i,
        {
            let ghost key = r@.plains[i as int].key();
            if r.plain.get(r.routes2[i].as_str(), &r.meta2[i].method).is_none() {
                let ghost before = r@;
                let path = r.routes2[i].clone();
                let method = match &r.meta2[i].method {
                    Some(m) => Some(m.clone()),
                    None => None,
                };
                r.plain.insert(path.as_str(), &method, i);
                proof {
                    assert(r@.patterns =~= before.patterns);
                    assert(r@.plains =~= before.plains);
                    assert(r@.table == before.table.insert(key, i));
                    assert forall|other: PathMethod| #[trigger]
                        r@.table.contains_key(other) implies is_first_with(
                        r@.plains,
                        other,
                        r@.table[other] as int,
                    ) by {
                        if other != key {
                            assert(before.table.contains_key(other));
                        }
                    }
                }
            }
            i = i + 1;
        }
        if r.routes.len() > 0 {
            match compile_set(&r.routes) {
                Ok(set) => {
                    let ghost before = r@;
                    r.regex_set = set;
                    proof {
                        assert(r@.patterns =~= before.patterns);
                        assert(r@.plains =~= before.plains);
                        assert(pattern::texts(r.routes@) =~= regexes_of(complete.patterns));
                    }
                },
                Err(err) => {
                    assert(pattern::texts(r.routes@) =~= regexes_of(complete.patterns));
                    return Err(RouteError::InvalidRoutes(err));
                },
            }
        }
        Ok(r)
    }

    /// The route that serves a request with this method and path, if any.
    pub fn resolve(&self, method: &Method, path: &str) -> (r: Option<Target>)
        requires
            self.wf(),
        ensures
            r == self@.resolve(method@, path@),
            r matches Some(target) ==> self@.has(target),
    {
        if let Some(i) = self.plain.get(path, &Some(method.clone())) {
            assert(is_first_with(self@.plains, (path@, Some(method@)), i as int));
            return Some(Target::Plain(i));
        }
        if let Some(i) = self.plain.get(path, &None) {
            assert(is_first_with(self@.plains, (path@, None), i as int));
            return Some(Target::Plain(i));
        }
        let matching = set_matches(&self.regex_set, path);
        let ghost patterns = self@.patterns.take(self@.live as int);
        proof {
            let set = regexes::set_patterns(self.regex_set);
            assert forall|j: int| 0 <= j < patterns.len() implies (#[trigger] patterns[j]).regex
                == set[j] by {}
        }
        let mut k: usize = 0;
        while k < matching.len()
            invariant
                k <= matching@.len(),
                self.wf(),
                patterns == self@.patterns.take(self@.live as int),
                !self@.table.contains_key((path@, Some(method@))),
                !self@.table.contains_key((path@, None)),
                forall|i: int, j: int| 0 <= i < j < matching@.len() ==> matching@[i] < matching@[j],
                forall|i: int|
                    0 <= i < matching@.len() ==> #[trigger] matching@[i] < patterns.len()
                        && pattern::accepts(patterns[matching@[i] as int].regex, path@),
                forall|j: int|
                    0 <= j < patterns.len() && pattern::accepts(
                        (#[trigger] patterns[j]).regex,
                        path@,
                    ) ==> exists|i: int| 0 <= i < matching@.len() && matching@[i] == j,
                forall|i: int|
                    0 <= i < k ==> !path_meta::method_matches(
                        patterns[#[trigger] matching@[i] as int].method,
                        method@,
                    ),
            decreases matching@.len() - k,
        {
            let i: usize = matching[k];
            if self.meta[i].is_method_match(method) {
                proof {
                    assert forall|j: int| 0 <= j < i implies !serves(
                        #[trigger] patterns[j],
                        method@,
                        path@,
                    ) by {
                        if pattern::accepts(patterns[j].regex, path@) {
                            let n = choose|n: int| 0 <= n < matching@.len() && matching@[n] == j;
                            assert(n < k);
                        }
                    }
                    assert(is_first_serving(patterns, method@, path@, i as int));
                    lemma_first_serving_unique(patterns, method@, path@);
                }
                return Some(Target::Pattern(i));
            }
            k = k + 1;
        }
        proof {
            assert forall|i: usize| !is_first_serving(patterns, method@, path@, i as int) by {
                if is_first_serving(patterns, method@, path@, i as int) {
                    let n = choose|n: int| 0 <= n < matching@.len() && matching@[n] == i;
                    assert(!path_meta::method_matches(
                        patterns[matching@[n] as int].method,
                        method@,
                    ));
                }
            }
        }
        None
    }

    /// What a route puts on a request with this path.
    pub fn request_meta(&self, target: Target, path: &str) -> (r: Option<RequestMeta>)
        requires
            self.wf(),
            self@.has(target),
        ensures
            r is Some <==> self@.captures(target),
            r matches Some(meta) ==> meta.route_params is Some && meta.route_params->0@
                == self@.params(target, path@),
    {
        match target {
            Target::Plain(_) => None,
            Target::Pattern(i) => match &self.meta[i].regex {
                None => None,
                Some(re) => {
                    let groups = match regex_captures(re, path) {
                        Some(groups) => groups,
                        None => Vec::new(),
                    };
                    let params = RouteParams::bind(&self.meta[i].params, &groups);
                    proof {
                        let route = self@.patterns[i as int];
                        if pattern::accepts(route.regex, path@) {
                            let parts = choose|parts: Seq<Seq<char>>| #[trigger]
                                pattern::captures_parts(route.regex, path@, parts) && groups@.len()
                                    == parts.len() + 1 && forall|k: int|
                                    0 <= k < parts.len() ==> (#[trigger] groups@[k + 1] matches Some(
                                        part,
                                    ) && part@ == parts[k]);
                            pattern::lemma_captures_unique(
                                route.regex,
                                path@,
                                parts,
                                pattern::parts_of(route.regex, path@),
                            );
                            assert(request::group_values(groups@) =~= Seq::new(
                                parts.len(),
                                |k: int| Some(parts[k]),
                            ));
                        } else {
                            request::lemma_bound_nothing(
                                route.names,
                                request::group_values(groups@),
                            );
                        }
                    }
                    Some(RequestMeta { route_params: Some(params) })
                },
            },
        }
    }

    /// The handler of a route.
    pub fn handler(&self, target: Target) -> (r: &H)
        requires
            self.wf(),
            self@.has(target),
        ensures
            *r == self@.handler(target),
    {
        match target {
            Target::Plain(i) => &self.handlers2[i],
            Target::Pattern(i) => &self.handlers[i],
        }
    }
}

/// The regular expression that a text as a whole must match.
fn anchor(regex_str: &str) -> (r: String)
    ensures
        r@ == "(?s)^"@ + regex_str@ + "$"@,
{
    let mut r = "(?s)^".to_owned();
    r.append(regex_str);
    r.append("$");
    r
}

/// There is one first route.
pub proof fn lemma_first_serving_unique<H>(
    patterns: Seq<PatternRoute<H>>,
    method: Seq<char>,
    path: Seq<char>,
)
    ensures
        forall|i: int, j: int| #[trigger]
            is_first_serving(patterns, method, path, i) && #[trigger] is_first_serving(
                patterns,
                method,
                path,
                j,
            ) ==> i == j,
{
}

proof fn lemma_still_first<H>(
    table: Map<PathMethod, usize>,
    plains: Seq<PlainRoute<H>>,
    route: PlainRoute<H>,
)
    requires
        indexes_first(table, plains),
    ensures
        indexes_first(table, plains.push(route)),
{
    assert forall|key: PathMethod| #[trigger] table.contains_key(key) implies is_first_with(
        plains.push(route),
        key,
        table[key] as int,
    ) by {
        assert(is_first_with(plains, key, table[key] as int));
    }
}

} // verus!

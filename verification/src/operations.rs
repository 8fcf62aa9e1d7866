//! What each operation does, said of its arguments and its result.
//!
//! In these laws `call_ensures(f, args, r)` says that a call of `f` with `args`
//! may return `r`, and `call_requires(f, args)` that the call may be made.

use crate::decode::{self, percent_decode_request_path};
use crate::error::{ErrCall, ErrHandler, RouteError};
use crate::laws;
use crate::method::{same_method, Method};
use crate::path_meta::PathMeta;
use crate::pattern::{self, generate_common_regex_str};
use crate::reading;
use crate::regexes;
use crate::request::{
    self, Header, Request, RequestExt, RequestInfo, RequestMeta, RouteParams, Uri, Version,
};
use crate::response::{not_found_response, server_error_response, TextResponse};
use crate::router::{self, Defaults, Router, RouterView, Target, Verb};
use crate::service::{RequestService, Routed, RouterService, Settled};
use vstd::prelude::*;

verus! {

// Adding routes.

/// Whether `after` is `before` with one more route, which is this one.
pub open spec fn appended<H, F, G>(
    before: RouterView<H, F, G>,
    path: Seq<char>,
    method: Option<Seq<char>>,
    handler: H,
    after: RouterView<H, F, G>,
) -> bool {
    &&& after.live == before.live
    &&& after.table == before.table
    &&& after.err_handler == before.err_handler
    &&& pattern::names(path).len() > 0 ==> {
        &&& after.plains == before.plains
        &&& after.patterns.len() == before.patterns.len() + 1
        &&& after.patterns.drop_last() == before.patterns
        &&& after.patterns.last().regex == pattern::route_regex(path)
        &&& after.patterns.last().names == pattern::names(path)
        &&& after.patterns.last().captures
        &&& after.patterns.last().method == method
        &&& after.patterns.last().handler == handler
    }
    &&& pattern::names(path).len() == 0 ==> {
        &&& after.patterns == before.patterns
        &&& after.plains.len() == before.plains.len() + 1
        &&& after.plains.drop_last() == before.plains
        &&& after.plains.last().path == path
        &&& after.plains.last().method == method
        &&& after.plains.last().handler == handler
    }
}

proof fn lemma_appended<H, F, G>(
    before: RouterView<H, F, G>,
    path: Seq<char>,
    method: Option<Seq<char>>,
    handler: H,
)
    ensures
        appended(before, path, method, handler, before.adding(path, method, handler)),
{
    let after = before.adding(path, method, handler);
    if pattern::names(path).len() > 0 {
        assert(after.patterns.drop_last() =~= before.patterns);
    } else {
        assert(after.plains.drop_last() =~= before.plains);
    }
}

/// A new router has no routes, serves nothing and has no error handler.
pub proof fn law_new_router_is_empty<H, F, G>(
    r: Router<H, F, G>,
    method: Seq<char>,
    path: Seq<char>,
)
    requires
        call_ensures(Router::<H, F, G>::new, (), r),
    ensures
        r.wf(),
        r@.patterns.len() == 0,
        r@.plains.len() == 0,
        r@.err_handler is None,
        r@.resolve(method, path) is None,
{
}

/// Each verb adds one route with the given pattern and handler for its own method,
/// behind the routes that are there.
pub proof fn law_verbs_add_their_routes<H, F, G>(
    router: Router<H, F, G>,
    path: &str,
    handler: H,
    r: Router<H, F, G>,
)
    ensures
        call_ensures(Router::<H, F, G>::get, (router, path, handler), r) ==> r.wf() && appended(
            router@,
            path@,
            Some("GET"@),
            handler,
            r@,
        ),
        call_ensures(Router::<H, F, G>::post, (router, path, handler), r) ==> r.wf() && appended(
            router@,
            path@,
            Some("POST"@),
            handler,
            r@,
        ),
        call_ensures(Router::<H, F, G>::put, (router, path, handler), r) ==> r.wf() && appended(
            router@,
            path@,
            Some("PUT"@),
            handler,
            r@,
        ),
        call_ensures(Router::<H, F, G>::delete, (router, path, handler), r) ==> r.wf() && appended(
            router@,
            path@,
            Some("DELETE"@),
            handler,
            r@,
        ),
        call_ensures(Router::<H, F, G>::head, (router, path, handler), r) ==> r.wf() && appended(
            router@,
            path@,
            Some("HEAD"@),
            handler,
            r@,
        ),
        call_ensures(Router::<H, F, G>::trace, (router, path, handler), r) ==> r.wf() && appended(
            router@,
            path@,
            Some("TRACE"@),
            handler,
            r@,
        ),
        call_ensures(Router::<H, F, G>::connect, (router, path, handler), r) ==> r.wf() && appended(
            router@,
            path@,
            Some("CONNECT"@),
            handler,
            r@,
        ),
        call_ensures(Router::<H, F, G>::patch, (router, path, handler), r) ==> r.wf() && appended(
            router@,
            path@,
            Some("PATCH"@),
            handler,
            r@,
        ),
        call_ensures(Router::<H, F, G>::options, (router, path, handler), r) ==> r.wf() && appended(
            router@,
            path@,
            Some("OPTIONS"@),
            handler,
            r@,
        ),
        call_ensures(Router::<H, F, G>::any_method, (router, path, handler), r) ==> r.wf()
            && appended(router@, path@, None, handler, r@),
        call_ensures(Router::<H, F, G>::any, (router, handler), r) ==> r.wf() && appended(
            router@,
            "/*"@,
            None,
            handler,
            r@,
        ),
{
    lemma_appended(router@, path@, Some("GET"@), handler);
    lemma_appended(router@, path@, Some("POST"@), handler);
    lemma_appended(router@, path@, Some("PUT"@), handler);
    lemma_appended(router@, path@, Some("DELETE"@), handler);
    lemma_appended(router@, path@, Some("HEAD"@), handler);
    lemma_appended(router@, path@, Some("TRACE"@), handler);
    lemma_appended(router@, path@, Some("CONNECT"@), handler);
    lemma_appended(router@, path@, Some("PATCH"@), handler);
    lemma_appended(router@, path@, Some("OPTIONS"@), handler);
    lemma_appended(router@, path@, None, handler);
    lemma_appended(router@, "/*"@, None, handler);
}

/// Whether the `regex` crate compiles the regular expression of a route pattern,
/// where it has one.
pub open spec fn compiles(path: Seq<char>) -> bool {
    pattern::names(path).len() > 0 ==> regexes::regex_error(
        pattern::route_regex(path),
        usize::BITS as nat,
    ) is None
}

/// Every pattern without placeholders can be added, and every one with
/// placeholders whose regular expression compiles; `any` can always be called.
pub proof fn law_routes_can_be_added<H, F, G>(router: Router<H, F, G>, path: &str, handler: H)
    requires
        router.wf(),
    ensures
        call_requires(Router::<H, F, G>::any, (router, handler)),
        compiles(path@) ==> {
            &&& call_requires(Router::<H, F, G>::get, (router, path, handler))
            &&& call_requires(Router::<H, F, G>::post, (router, path, handler))
            &&& call_requires(Router::<H, F, G>::put, (router, path, handler))
            &&& call_requires(Router::<H, F, G>::delete, (router, path, handler))
            &&& call_requires(Router::<H, F, G>::head, (router, path, handler))
            &&& call_requires(Router::<H, F, G>::trace, (router, path, handler))
            &&& call_requires(Router::<H, F, G>::connect, (router, path, handler))
            &&& call_requires(Router::<H, F, G>::patch, (router, path, handler))
            &&& call_requires(Router::<H, F, G>::options, (router, path, handler))
            &&& call_requires(Router::<H, F, G>::any_method, (router, path, handler))
        },
{
}

/// `check_route` accepts just the patterns that can be added, and else reports why
/// the regular expression does not compile.
pub proof fn law_check_route<H, F, G>(path: &str, r: Result<(), RouteError>)
    requires
        call_ensures(Router::<H, F, G>::check_route, (path,), r),
    ensures
        r is Ok <==> compiles(path@),
        r matches Err(err) ==> err matches RouteError::InvalidRoutes(e) && Some(e)
            == regexes::regex_error(pattern::route_regex(path@), usize::BITS as nat),
{
}

/// `try_route` adds what the verb says just where the pattern can be added.
pub proof fn law_try_route<H, F, G>(
    router: Router<H, F, G>,
    verb: Verb,
    path: &str,
    handler: H,
    r: Result<Router<H, F, G>, RouteError>,
)
    requires
        call_ensures(Router::<H, F, G>::try_route, (router, verb, path, handler), r),
    ensures
        r is Ok <==> compiles(path@),
        r matches Err(err) ==> err matches RouteError::InvalidRoutes(e) && Some(e)
            == regexes::regex_error(pattern::route_regex(path@), usize::BITS as nat),
        r matches Ok(added) ==> added.wf() && appended(
            router@,
            path@,
            match verb {
                Verb::Get => Some("GET"@),
                Verb::Post => Some("POST"@),
                Verb::Put => Some("PUT"@),
                Verb::Delete => Some("DELETE"@),
                Verb::Head => Some("HEAD"@),
                Verb::Trace => Some("TRACE"@),
                Verb::Connect => Some("CONNECT"@),
                Verb::Patch => Some("PATCH"@),
                Verb::Options => Some("OPTIONS"@),
                Verb::AnyMethod => None,
            },
            handler,
            added@,
        ),
{
    lemma_appended(router@, path@, verb.token(), handler);
}

/// A pattern turns into the text of its regular expression, and as many names as
/// it has placeholders, each in its place.
pub proof fn law_pattern_text_and_names(path: &str, r: (String, Vec<String>))
    requires
        call_ensures(generate_common_regex_str, (path,), r),
    ensures
        "(?s)^"@ + r.0@ + "$"@ == pattern::route_regex(path@),
        r.1@.len() == pattern::names(path@).len() == pattern::holes(pattern::pieces(path@)),
        forall|k: int| 0 <= k < r.1@.len() ==> (#[trigger] r.1@[k])@ == pattern::names(path@)[k],
{
    pattern::lemma_names_holes(path@, 0);
    assert(pattern::texts(r.1@).len() == r.1@.len());
    assert forall|k: int| 0 <= k < r.1@.len() implies (#[trigger] r.1@[k])@ == pattern::names(
        path@,
    )[k] by {
        assert(pattern::texts(r.1@)[k] == r.1@[k]@);
    }
}

// Error handlers.

/// An error handler replaces the one before it, of either kind, and changes
/// nothing else.
pub proof fn law_err_handler_is_set<H, F, G>(
    router: Router<H, F, G>,
    bare: F,
    informed: G,
    r: Router<H, F, G>,
)
    ensures
        call_ensures(Router::<H, F, G>::err_handler, (router, bare), r) ==> r.wf()
            && r@.err_handler == Some(ErrHandler::<F, G>::WithoutInfo(bare)) && r@.patterns
            == router@.patterns && r@.plains == router@.plains && r@.live == router@.live
            && r@.table == router@.table,
        call_ensures(Router::<H, F, G>::err_handler_with_info, (router, informed), r) ==> r.wf()
            && r@.err_handler == Some(ErrHandler::<F, G>::WithInfo(informed)) && r@.patterns
            == router@.patterns && r@.plains == router@.plains && r@.live == router@.live
            && r@.table == router@.table,
{
}

/// The error handler is given out as it was set.
pub proof fn law_error_handler_is_given_out<H, F, G>(
    router: &Router<H, F, G>,
    r: Option<&ErrHandler<F, G>>,
)
    requires
        call_ensures(Router::<H, F, G>::error_handler, (router,), r),
    ensures
        r is Some <==> router@.err_handler is Some,
        r matches Some(handler) ==> router@.err_handler == Some(*handler),
{
}

/// The author is warned just where neither the router nor the defaults hold an
/// error handler.
pub proof fn law_warning_without_err_handler<H, F, G>(
    router: &Router<H, F, G>,
    defaults: &Defaults<H, F>,
    r: Option<&'static str>,
)
    requires
        call_ensures(Router::<H, F, G>::err_handler_warning, (router, defaults), r),
    ensures
        r is Some <==> router@.err_handler is None && defaults.on_error is None,
        r matches Some(warning) ==> warning@
            == "Warning: No error handler added. It is recommended to add one to see what went wrong if any route or middleware fails.\nPlease add one by calling `.err_handler(handler)` method of the root router builder.\n"@,
{
}

/// A handler that wants no description is called with the error alone, one that
/// wants a description with the error and that description.
pub proof fn law_err_handler_is_called<F, G, X>(
    handler: &ErrHandler<F, G>,
    err: X,
    req_info: Option<RequestInfo>,
    r: ErrCall<'_, F, G, X>,
)
    requires
        call_ensures(ErrHandler::<F, G>::execute::<X>, (handler, err, req_info), r),
        *handler is WithInfo ==> req_info is Some,
    ensures
        match *handler {
            ErrHandler::WithoutInfo(f) => r matches ErrCall::WithoutInfo(called, with) && *called
                == f && with == err,
            ErrHandler::WithInfo(g) => r matches ErrCall::WithInfo(called, with, info) && *called
                == g && with == err && req_info == Some(info),
        },
{
}

/// A response passes as it is; an error goes to the error handler, with the
/// description of the request where the handler wants one.
pub proof fn law_outcomes_are_settled<H, F, G, R, X>(
    service: &RequestService<H, F, G>,
    outcome: Result<R, X>,
    req_info: Option<RequestInfo>,
    r: Settled<'_, R, F, G, X>,
)
    requires
        call_ensures(
            RequestService::<H, F, G>::finish::<R, X>,
            (service, outcome, req_info),
            r,
        ),
        outcome is Err ==> service@.err_handler is Some,
    ensures
        match outcome {
            Ok(response) => r matches Settled::Respond(passed) && passed == response,
            Err(err) => match service@.err_handler->0 {
                ErrHandler::WithoutInfo(f) => r matches Settled::Recover(
                    ErrCall::WithoutInfo(called, with),
                ) && *called == f && with == err,
                ErrHandler::WithInfo(g) => req_info is Some ==> (r matches Settled::Recover(
                    ErrCall::WithInfo(called, with, info),
                ) && *called == g && with == err && req_info == Some(info)),
            },
        },
{
}

/// A response can always be settled, and an error wherever there is a handler and,
/// if it wants one, a description.
pub proof fn law_outcomes_can_be_settled<H, F, G, R, X>(
    service: &RequestService<H, F, G>,
    outcome: Result<R, X>,
    req_info: Option<RequestInfo>,
)
    requires
        outcome is Err ==> service@.err_handler is Some,
        outcome is Err && service@.err_handler->0 is WithInfo ==> req_info is Some,
    ensures
        call_requires(RequestService::<H, F, G>::finish::<R, X>, (service, outcome, req_info)),
{
}

// Building.

/// Building keeps all routes in their order, and the error handler if there is
/// one. It adds a route for any method and all paths that begin with `/`, for
/// requests that no other route serves, where it is given a handler for them and
/// there is no such route. It fails just where the routes with placeholders do
/// not compile together.
pub proof fn law_build_keeps_and_completes<H, F, G>(
    router: Router<H, F, G>,
    defaults: Defaults<H, F>,
    r: Result<Router<H, F, G>, RouteError>,
)
    requires
        call_ensures(Router::<H, F, G>::build, (router, defaults), r),
    ensures
        ({
            let old_patterns = router@.patterns;
            let own = exists|i: int|
                0 <= i < old_patterns.len() && #[trigger] old_patterns[i].regex == "(?s)^/(.*)$"@
                    && old_patterns[i].method is None;
            let added = defaults.not_found is Some && !own;
            let count = old_patterns.len() + if added {
                1nat
            } else {
                0
            };
            let regexes = Seq::new(
                count,
                |i: int|
                    if i < old_patterns.len() {
                        old_patterns[i].regex
                    } else {
                        "(?s)^/(.*)$"@
                    },
            );
            let refused = regexes::set_error(regexes, usize::BITS as nat);
            &&& r is Ok <==> count == 0 || refused is None
            &&& r matches Err(err) ==> err matches RouteError::InvalidRoutes(e) && refused == Some(
                e,
            )
            &&& r matches Ok(built) ==> {
                &&& built.wf()
                &&& built@.plains == router@.plains
                &&& built@.patterns.len() == count
                &&& forall|i: int|
                    0 <= i < old_patterns.len() ==> #[trigger] built@.patterns[i]
                        == old_patterns[i]
                &&& added ==> {
                    &&& built@.patterns.last().regex == "(?s)^/(.*)$"@
                    &&& built@.patterns.last().method is None
                    &&& !built@.patterns.last().captures
                    &&& Some(built@.patterns.last().handler) == defaults.not_found
                }
                &&& router@.err_handler is Some ==> built@.err_handler == router@.err_handler
                &&& router@.err_handler is None ==> match defaults.on_error {
                    Some(f) => built@.err_handler == Some(ErrHandler::<F, G>::WithoutInfo(f)),
                    None => built@.err_handler is None,
                }
            }
        }),
{
    let old_patterns = router@.patterns;
    let own = exists|i: int|
        0 <= i < old_patterns.len() && #[trigger] old_patterns[i].regex == "(?s)^/(.*)$"@
            && old_patterns[i].method is None;
    assert(own == exists|i: int|
        0 <= i < old_patterns.len() && router::is_catch_all(#[trigger] old_patterns[i])) by {
        if own {
            let i = choose|i: int|
                0 <= i < old_patterns.len() && #[trigger] old_patterns[i].regex == "(?s)^/(.*)$"@
                    && old_patterns[i].method is None;
            assert(router::is_catch_all(old_patterns[i]));
        }
    }
    let complete = router@.with_not_found(defaults.not_found).with_on_error(defaults.on_error);
    let added = defaults.not_found is Some && !own;
    let count = old_patterns.len() + if added {
        1nat
    } else {
        0
    };
    assert(router::regexes_of(complete.patterns) =~= Seq::new(
        count,
        |i: int|
            if i < old_patterns.len() {
                old_patterns[i].regex
            } else {
                "(?s)^/(.*)$"@
            },
    ));
}

/// The regular expression of the route for unserved requests accepts just the
/// paths that begin with `/`.
pub proof fn law_unserved_paths(path: Seq<char>)
    ensures
        pattern::accepts("(?s)^/(.*)$"@, path) <==> path.len() > 0 && path[0] == '/',
{
    pattern::lemma_catch_all();
    let pieces = pattern::pieces("/*"@);
    pattern::lemma_accepts(pieces, path);
    assert(pieces =~= seq![pattern::Piece::Char('/')] + seq![pattern::Piece::Rest]);
    reading::law_character_fits_itself('/', seq![pattern::Piece::Rest], path, Seq::empty());
    if path.len() > 0 {
        let none = Seq::<pattern::Piece>::empty();
        let tail = path.skip(1);
        assert(seq![pattern::Piece::Rest] + none =~= seq![pattern::Piece::Rest]);
        reading::law_rest_fits(none, tail);
        reading::law_nothing_fits_nothing(tail.skip(tail.len() as int), Seq::empty());
        assert(pattern::matches(none, tail.skip(tail.len() as int)));
    }
}

// Finding the route.

/// The route that a request takes is for its path and for its method or any, and
/// it is the first of its kind.
pub proof fn law_route_found<H, F, G>(
    router: RouterView<H, F, G>,
    method: Seq<char>,
    path: Seq<char>,
)
    requires
        router.valid(),
    ensures
        match router.resolve(method, path) {
            Some(Target::Plain(i)) => {
                &&& i < router.plains.len()
                &&& router.plains[i as int].path == path
                &&& router.plains[i as int].method is None || router.plains[i as int].method
                    == Some(method)
                &&& forall|j: int|
                    0 <= j < i ==> !(#[trigger] router.plains[j].path == path
                        && router.plains[j].method == router.plains[i as int].method)
            },
            Some(Target::Pattern(i)) => {
                &&& i < router.live
                &&& pattern::accepts(router.patterns[i as int].regex, path)
                &&& router.patterns[i as int].method is None || router.patterns[i as int].method
                    == Some(method)
                &&& forall|j: int|
                    0 <= j < i && pattern::accepts(#[trigger] router.patterns[j].regex, path)
                        ==> router.patterns[j].method is Some && router.patterns[j].method != Some(
                        method,
                    )
            },
            None => router.live <= usize::MAX ==> forall|j: int|
                0 <= j < router.live && pattern::accepts(#[trigger] router.patterns[j].regex, path)
                    ==> router.patterns[j].method is Some && router.patterns[j].method != Some(
                    method,
                ),
        },
{
    let patterns = router.patterns.take(router.live as int);
    if router.table.contains_key((path, Some(method))) {
        let i = router.table[(path, Some(method))] as int;
        assert(router::is_first_with(router.plains, (path, Some(method)), i));
        assert forall|j: int| 0 <= j < i implies !(#[trigger] router.plains[j].path == path
            && router.plains[j].method == router.plains[i].method) by {
            assert(router.plains[j].key() != (path, Some(method)));
        }
    } else if router.table.contains_key((path, None)) {
        let i = router.table[(path, None)] as int;
        assert(router::is_first_with(router.plains, (path, None), i));
        assert forall|j: int| 0 <= j < i implies !(#[trigger] router.plains[j].path == path
            && router.plains[j].method == router.plains[i].method) by {
            assert(router.plains[j].key() != (path, None::<Seq<char>>));
        }
    } else if exists|i: usize| router::is_first_serving(patterns, method, path, i as int) {
        let i = choose|i: usize| router::is_first_serving(patterns, method, path, i as int);
        assert forall|j: int|
            0 <= j < i && pattern::accepts(
                #[trigger] router.patterns[j].regex,
                path,
            ) implies router.patterns[j].method is Some && router.patterns[j].method != Some(
            method,
        ) by {
            assert(!router::serves(patterns[j], method, path));
        }
    } else if router.live <= usize::MAX {
        assert forall|j: int|
            0 <= j < router.live && pattern::accepts(
                #[trigger] router.patterns[j].regex,
                path,
            ) implies router.patterns[j].method is Some && router.patterns[j].method != Some(
            method,
        ) by {
            if router::serves(patterns[j], method, path) {
                let first = laws::lemma_some_first(patterns, method, path, j);
                assert(router::is_first_serving(patterns, method, path, (first as usize) as int));
            }
        }
    }
}

/// `resolve` gives the number of a route that the router has: a route for this
/// path, and for this method or any, with no such route before it.
pub proof fn law_resolve<H, F, G>(
    router: Router<H, F, G>,
    method: &Method,
    path: &str,
    r: Option<Target>,
)
    requires
        router.wf(),
        call_ensures(Router::<H, F, G>::resolve, (&router, method, path), r),
    ensures
        match r {
            Some(Target::Plain(i)) => {
                &&& i < router@.plains.len()
                &&& router@.plains[i as int].path == path@
                &&& router@.plains[i as int].method is None || router@.plains[i as int].method
                    == Some(method@)
            },
            Some(Target::Pattern(i)) => {
                &&& i < router@.patterns.len()
                &&& pattern::accepts(router@.patterns[i as int].regex, path@)
                &&& router@.patterns[i as int].method is None || router@.patterns[i as int].method
                    == Some(method@)
                &&& forall|j: int|
                    0 <= j < i && pattern::accepts(#[trigger] router@.patterns[j].regex, path@)
                        ==> router@.patterns[j].method is Some && router@.patterns[j].method
                        != Some(method@)
            },
            None => true,
        },
        r == router@.resolve(method@, path@),
{
    router.law_in_service_are_routes();
    law_route_found(router@, method@, path@);
}

/// In a router that has been built, a route for the path of the request and its
/// method comes first, then one for the path and any method, then the first route
/// with placeholders that fits; a request without a route has none that fits.
pub proof fn law_built_router_resolves<H, F, G>(
    router: Router<H, F, G>,
    defaults: Defaults<H, F>,
    built: Router<H, F, G>,
    method: Seq<char>,
    path: Seq<char>,
)
    requires
        call_ensures(Router::<H, F, G>::build, (router, defaults), Ok(built)),
    ensures
        built@.valid(),
        built@.live == built@.patterns.len(),
        match built@.resolve(method, path) {
            Some(Target::Plain(i)) => built@.plains[i as int].method is None ==> forall|j: int|
                0 <= j < built@.plains.len() ==> !(#[trigger] built@.plains[j].path == path
                    && built@.plains[j].method == Some(method)),
            _ => forall|j: int|
                0 <= j < built@.plains.len() && #[trigger] built@.plains[j].path == path
                    ==> built@.plains[j].method is Some && built@.plains[j].method != Some(method),
        },
        built@.resolve(method, path) is None ==> forall|j: int|
            0 <= j < built@.patterns.len() && pattern::accepts(
                #[trigger] built@.patterns[j].regex,
                path,
            ) ==> built@.patterns[j].method is Some && built@.patterns[j].method != Some(method),
{
    let view = built@;
    assert(view.valid());
    law_route_found(view, method, path);
    assert forall|j: int| 0 <= j < view.plains.len() implies view.table.contains_key(
        (#[trigger] view.plains[j].path, view.plains[j].method),
    ) by {
        assert(view.table.contains_key(view.plains[j].key()));
    }
    if view.resolve(method, path) matches Some(Target::Plain(i)) {
        if view.table.contains_key((path, Some(method))) {
            let first = view.table[(path, Some(method))] as int;
            assert(router::is_first_with(view.plains, (path, Some(method)), first));
        }
    }
}

/// A route's handler is the one that it was added with.
pub proof fn law_handler_of_a_route<H, F, G>(
    router: &Router<H, F, G>,
    service: &RequestService<H, F, G>,
    target: Target,
    r: &H,
)
    ensures
        call_ensures(Router::<H, F, G>::handler, (router, target), r) ==> match target {
            Target::Plain(i) => *r == router@.plains[i as int].handler,
            Target::Pattern(i) => *r == router@.patterns[i as int].handler,
        },
        call_ensures(RequestService::<H, F, G>::handler, (service, target), r) ==> match target {
            Target::Plain(i) => *r == service@.plains[i as int].handler,
            Target::Pattern(i) => *r == service@.patterns[i as int].handler,
        },
{
}

/// Every router can be built, asked for a route, made a service of and given an
/// error handler, and each of its routes can be asked for its handler and for what
/// it puts on a request.
pub proof fn law_routers_can_be_asked<H, F, G>(
    router: Router<H, F, G>,
    service: RequestService<H, F, G>,
    defaults: Defaults<H, F>,
    bare: F,
    informed: G,
    method: &Method,
    path: &str,
    target: Target,
)
    requires
        router.wf(),
        service.wf(),
    ensures
        call_requires(Router::<H, F, G>::build, (router, defaults)),
        call_requires(Router::<H, F, G>::err_handler, (router, bare)),
        call_requires(Router::<H, F, G>::err_handler_with_info, (router, informed)),
        call_requires(Router::<H, F, G>::resolve, (&router, method, path)),
        call_requires(RouterService::<H, F, G>::new, (router,)),
        match target {
            Target::Plain(i) => i < router@.plains.len(),
            Target::Pattern(i) => i < router@.patterns.len(),
        } ==> call_requires(Router::<H, F, G>::handler, (&router, target)) && call_requires(
            Router::<H, F, G>::request_meta,
            (&router, target, path),
        ),
        match target {
            Target::Plain(i) => i < service@.plains.len(),
            Target::Pattern(i) => i < service@.patterns.len(),
        } ==> call_requires(RequestService::<H, F, G>::handler, (&service, target)),
{
}

// Parameters.

/// Whether `params` holds the parts that the placeholders of the route pattern
/// `source` capture from `path`: there is a value under each of its names and
/// under no other, and the value of a name is the part of the last placeholder
/// with that name.
pub open spec fn holds_parts(
    params: Map<Seq<char>, Seq<char>>,
    source: Seq<char>,
    path: Seq<char>,
    parts: Seq<Seq<char>>,
) -> bool {
    let names = pattern::names(source);
    &&& pattern::captured(pattern::pieces(source), path, parts)
    &&& parts.len() == names.len()
    &&& forall|name: Seq<char>| params.contains_key(name) <==> #[trigger] names.contains(name)
    &&& forall|i: int|
        0 <= i < names.len() && (forall|j: int| i < j < names.len() ==> #[trigger] names[j]
            != names[i]) ==> params[#[trigger] names[i]] == parts[i]
}

/// The parameters that a route puts on a request are the parts that its pattern
/// captures from the path, each under its own name.
pub proof fn law_params_of_a_route<H, F, G>(
    router: RouterView<H, F, G>,
    i: usize,
    source: Seq<char>,
    path: Seq<char>,
)
    requires
        i < router.patterns.len(),
        router.patterns[i as int].regex == pattern::route_regex(source),
        router.patterns[i as int].names == pattern::names(source),
        pattern::matches(pattern::pieces(source), path),
    ensures
        exists|parts: Seq<Seq<char>>|
            holds_parts(router.params(Target::Pattern(i), path), source, path, parts),
{
    let route = router.patterns[i as int];
    pattern::lemma_accepts(pattern::pieces(source), path);
    laws::law_params_are_the_parts(route, source, path);
    let parts = pattern::parts_of(route.regex, path);
    let params = router.params(Target::Pattern(i), path);
    assert forall|name: Seq<char>|
        params.contains_key(name) <==> #[trigger] pattern::names(source).contains(name) by {
        assert(params.contains_key(name) == route.names.contains(name));
    }
    assert(holds_parts(params, source, path, parts));
}

/// `request_meta` puts parameters on a request just where the route captures
/// some: the parts that its pattern captures from the path, or none where the path
/// does not fit.
pub proof fn law_request_meta<H, F, G>(
    router: &Router<H, F, G>,
    target: Target,
    path: &str,
    source: Seq<char>,
    r: Option<RequestMeta>,
)
    requires
        call_ensures(Router::<H, F, G>::request_meta, (router, target, path), r),
        target matches Target::Pattern(i) ==> i < router@.patterns.len()
            && router@.patterns[i as int].regex == pattern::route_regex(source)
            && router@.patterns[i as int].names == pattern::names(source),
    ensures
        match target {
            Target::Plain(_) => r is None,
            Target::Pattern(i) => {
                &&& r is Some <==> router@.patterns[i as int].captures
                &&& r matches Some(meta) ==> meta.route_params matches Some(params) && if pattern::matches(
                    pattern::pieces(source),
                    path@,
                ) {
                    exists|parts: Seq<Seq<char>>| holds_parts(params@, source, path@, parts)
                } else {
                    forall|name: Seq<char>| !params@.contains_key(name)
                }
            },
        },
{
    if let Target::Pattern(i) = target {
        pattern::lemma_accepts(pattern::pieces(source), path@);
        if pattern::matches(pattern::pieces(source), path@) {
            law_params_of_a_route(router@, i, source, path@);
        }
    }
}

spec fn has_value(
    names: Seq<Seq<char>>,
    values: Seq<Option<Seq<char>>>,
    name: Seq<char>,
    k: int,
) -> bool {
    0 <= k < names.len() && names[k] == name && k < values.len() && values[k] is Some
}

proof fn lemma_bound_last(
    names: Seq<Seq<char>>,
    values: Seq<Option<Seq<char>>>,
    name: Seq<char>,
)
    ensures
        request::bound(names, values).contains_key(name) <==> exists|k: int| #[trigger]
            has_value(names, values, name, k),
        forall|k: int| #[trigger]
            has_value(names, values, name, k) && (forall|j: int|
                k < j ==> !#[trigger] has_value(names, values, name, j)) ==> request::bound(
                names,
                values,
            )[name] == values[k]->0,
    decreases names.len(),
{
    let map = request::bound(names, values);
    if names.len() > 0 {
        let short = names.drop_last();
        lemma_bound_last(short, values, name);
        let last = names.len() - 1;
        assert forall|k: int| k != last implies #[trigger] has_value(names, values, name, k)
            == has_value(short, values, name, k) by {
            if 0 <= k < short.len() {
                assert(short[k] == names[k]);
            }
        }
        if exists|k: int| #[trigger] has_value(short, values, name, k) {
            let k = choose|k: int| #[trigger] has_value(short, values, name, k);
            assert(has_value(names, values, name, k));
        }
        if exists|k: int| #[trigger] has_value(names, values, name, k) {
            let k = choose|k: int| #[trigger] has_value(names, values, name, k);
            if k != last {
                assert(has_value(short, values, name, k));
            }
        }
        assert(map.contains_key(name) <==> has_value(names, values, name, last) || request::bound(
            short,
            values,
        ).contains_key(name));
        assert forall|k: int| #[trigger]
            has_value(names, values, name, k) && (forall|j: int|
                k < j ==> !#[trigger] has_value(names, values, name, j)) implies map[name]
            == values[k]->0 by {
            if k != last {
                assert(!has_value(names, values, name, last));
                assert(has_value(short, values, name, k));
                assert forall|j: int| k < j implies !#[trigger] has_value(
                    short,
                    values,
                    name,
                    j,
                ) by {
                    assert(!has_value(names, values, name, j));
                }
            }
        }
    }
}

/// Whether name `k` is `name`, and a group stands in its place behind the first
/// one.
pub open spec fn has_group(
    names: Seq<String>,
    groups: Seq<Option<String>>,
    name: Seq<char>,
    k: int,
) -> bool {
    0 <= k < names.len() && names[k]@ == name && k + 1 < groups.len() && groups[k + 1] is Some
}

/// A parameter that is looked up after the groups of a match have been named has
/// the text of the group behind the first that stands where its name stands; of
/// equal names the last one with a group counts, and without one there is no
/// value.
pub proof fn law_named_groups_are_found(
    names: &Vec<String>,
    groups: &Vec<Option<String>>,
    params: RouteParams,
    name: &str,
    r: Option<&String>,
)
    requires
        call_ensures(RouteParams::bind, (names, groups), params),
        call_ensures(RouteParams::get, (&params, name), r),
    ensures
        r is Some <==> exists|k: int| #[trigger] has_group(names@, groups@, name@, k),
        forall|k: int| #[trigger]
            has_group(names@, groups@, name@, k) && (forall|j: int|
                k < j ==> !#[trigger] has_group(names@, groups@, name@, j)) ==> r->0@ == groups@[k
                + 1]->0@,
{
    let texts = pattern::texts(names@);
    let values = request::group_values(groups@);
    lemma_bound_last(texts, values, name@);
    assert forall|k: int|
        #![trigger has_group(names@, groups@, name@, k)]
        #![trigger has_value(texts, values, name@, k)]
        has_group(names@, groups@, name@, k) == has_value(texts, values, name@, k) && (has_group(
            names@,
            groups@,
            name@,
            k,
        ) ==> values[k]->0 == groups@[k + 1]->0@) by {}
    if exists|k: int| #[trigger] has_group(names@, groups@, name@, k) {
        let k = choose|k: int| #[trigger] has_group(names@, groups@, name@, k);
        assert(has_value(texts, values, name@, k));
    }
    if exists|k: int| #[trigger] has_value(texts, values, name@, k) {
        let k = choose|k: int| #[trigger] has_value(texts, values, name@, k);
        assert(has_group(names@, groups@, name@, k));
    }
    assert forall|k: int| #[trigger]
        has_group(names@, groups@, name@, k) && (forall|j: int|
            k < j ==> !#[trigger] has_group(names@, groups@, name@, j)) implies r->0@ == groups@[k
        + 1]->0@ by {
        assert(has_value(texts, values, name@, k));
        assert forall|j: int| k < j implies !#[trigger] has_value(texts, values, name@, j) by {
            assert(!has_group(names@, groups@, name@, j));
        }
    }
}

/// The parameters of a request, and each of them by its name, are those that
/// routing left on it.
pub proof fn law_request_params(
    req: &Request,
    name: &str,
    all: &RouteParams,
    one: Option<&String>,
    same: Option<&String>,
)
    requires
        req.meta is Some,
        req.meta->0.route_params is Some,
        call_ensures(<Request as RequestExt>::params, (req,), all),
        call_ensures(<Request as RequestExt>::param, (req, name), one),
        call_ensures(RouteParams::get, (all, name), same),
    ensures
        all@ == req.meta->0.route_params->0@,
        one is Some <==> same is Some,
        one is Some ==> one->0@ == same->0@,
        call_requires(<Request as RequestExt>::params, (req,)),
        call_requires(<Request as RequestExt>::param, (req, name)),
{
}

/// What routing left on a request is given out as it is.
pub proof fn law_route_params_are_given_out(meta: &RequestMeta, r: Option<&RouteParams>)
    requires
        call_ensures(RequestMeta::route_params, (meta,), r),
    ensures
        r is Some <==> meta.route_params is Some,
        r matches Some(params) ==> meta.route_params == Some(*params),
{
}

// Descriptions of requests.

/// The description of a request has the method, the URI, the version and all
/// headers of the request, in order.
pub proof fn law_request_is_described(
    req: &Request,
    info: RequestInfo,
    headers: &Vec<Header>,
    method: &Method,
    uri: &Uri,
    version: Version,
)
    requires
        call_ensures(RequestInfo::new_from_req, (req,), info),
        call_ensures(RequestInfo::headers, (&info,), headers),
        call_ensures(RequestInfo::method, (&info,), method),
        call_ensures(RequestInfo::uri, (&info,), uri),
        call_ensures(RequestInfo::version, (&info,), version),
    ensures
        headers@.len() == req.headers@.len(),
        forall|k: int|
            0 <= k < headers@.len() ==> (#[trigger] headers@[k]).name@ == req.headers@[k].name@
                && headers@[k].value@ == req.headers@[k].value@,
        method@ == req.method@,
        uri.scheme == req.uri.scheme,
        uri.authority == req.uri.authority,
        uri.path@ == req.uri.path@,
        uri.query == req.uri.query,
        version == req.version,
{
    lemma_same_fields(headers@, req.headers@);
}

proof fn lemma_same_fields(left: Seq<Header>, right: Seq<Header>)
    requires
        request::header_fields(left) == request::header_fields(right),
    ensures
        left.len() == right.len(),
        forall|k: int|
            0 <= k < left.len() ==> (#[trigger] left[k]).name@ == right[k].name@ && left[k].value@
                == right[k].value@,
{
    assert(request::header_fields(left).len() == left.len());
    assert(request::header_fields(right).len() == right.len());
    assert forall|k: int| 0 <= k < left.len() implies (#[trigger] left[k]).name@ == right[k].name@
        && left[k].value@ == right[k].value@ by {
        assert(request::header_fields(left)[k] == left[k]@);
        assert(request::header_fields(right)[k] == right[k]@);
    }
}

/// Copies of headers, URIs and methods are the same as what was copied.
pub proof fn law_copies_are_the_same(
    header: &Header,
    header_copy: Header,
    uri: &Uri,
    uri_copy: Uri,
    method: &Method,
    method_copy: Method,
)
    ensures
        call_ensures(<Header as Clone>::clone, (header,), header_copy) ==> header_copy.name@
            == header.name@ && header_copy.value@ == header.value@,
        call_ensures(<Uri as Clone>::clone, (uri,), uri_copy) ==> uri_copy.scheme == uri.scheme
            && uri_copy.authority == uri.authority && uri_copy.path@ == uri.path@ && uri_copy.query
            == uri.query,
        call_ensures(<Method as Clone>::clone, (method,), method_copy) ==> method_copy@ == method@,
{
}

// Methods.

/// A method is known by its token, letter for letter.
pub proof fn law_methods_are_their_tokens(
    left: &str,
    right: &str,
    left_method: Method,
    right_method: Method,
    token: &str,
    same: bool,
)
    requires
        call_ensures(Method::new, (left,), left_method),
        call_ensures(Method::new, (right,), right_method),
        call_ensures(Method::as_str, (&left_method,), token),
        call_ensures(Method::same, (&left_method, &right_method), same),
    ensures
        token@ == left@,
        same <==> left@ == right@,
{
}

/// Two methods that may be absent are the same if both are absent or both are
/// there and the same.
pub proof fn law_same_method(left: &Option<Method>, right: &Option<Method>, r: bool)
    requires
        call_ensures(same_method, (left, right), r),
    ensures
        match (*left, *right) {
            (Some(l), Some(o)) => r == (l@ == o@),
            (None, None) => r,
            _ => !r,
        },
{
}

/// A new route meta is for any method and has no regular expression and no names;
/// a route for any method matches each, one for a method just that one.
pub proof fn law_path_meta(fresh: PathMeta, meta: &PathMeta, method: &Method, r: bool)
    ensures
        call_ensures(PathMeta::new, (), fresh) ==> fresh.method is None && fresh.regex is None
            && fresh.params@.len() == 0,
        call_ensures(PathMeta::is_method_match, (meta, method), r) ==> match meta.method {
            Some(own) => r == (own@ == method@),
            None => r,
        },
{
    assert(pattern::texts(fresh.params@).len() == fresh.params@.len());
}

// Responses.

/// The answer to an unserved request is a plain text with the status 404; the
/// answer to an error is one with the status 500 that ends in the error's text.
pub proof fn law_own_responses(err: &str, missing: TextResponse, failed: TextResponse)
    ensures
        call_ensures(not_found_response, (), missing) ==> missing.status == 404
            && missing.content_type@ == "text/plain"@ && missing.body@ == "Not Found"@,
        call_ensures(server_error_response, (err,), failed) ==> failed.status == 500
            && failed.content_type@ == "text/plain"@ && failed.body@
            == "Internal Server Error: "@ + err@,
{
    reveal_strlit("Internal Server Error");
    reveal_strlit(": ");
    reveal_strlit("Internal Server Error: ");
    assert("Internal Server Error"@ + ": "@ =~= "Internal Server Error: "@);
}

// Services.

/// The services of a server and of its connections route by the router that the
/// server was given.
pub proof fn law_services_share_the_router<H, F, G>(
    router: Router<H, F, G>,
    server: RouterService<H, F, G>,
    connection: RequestService<H, F, G>,
    other: RequestService<H, F, G>,
    handled: bool,
)
    requires
        call_ensures(RouterService::<H, F, G>::new, (router,), server),
        call_ensures(RouterService::<H, F, G>::call, (&server,), connection),
        call_ensures(RequestService::<H, F, G>::share, (&connection,), other),
        call_ensures(RequestService::<H, F, G>::has_err_handler, (&other,), handled),
    ensures
        server.wf(),
        connection.wf(),
        other.wf(),
        connection@ == router@,
        other@ == router@,
        handled <==> router@.err_handler is Some,
{
}

/// A request path decodes to the text whose UTF-8 encoding its percent sequences
/// and other bytes spell, and to nothing where they spell no text.
pub proof fn law_request_path_decodes(val: &str, r: Result<String, RouteError>)
    requires
        call_ensures(percent_decode_request_path, (val,), r),
    ensures
        ({
            let bytes = decode::percent_decoded(vstd::utf8::encode_utf8(val@));
            &&& r is Ok <==> vstd::utf8::valid_utf8(bytes)
            &&& r matches Ok(path) ==> vstd::utf8::encode_utf8(path@) == bytes
            &&& r matches Err(err) ==> err == RouteError::InvalidPath(decode::decode_error(val@))
        }),
{
    match r {
        Ok(path) => reading::law_decoded_text_is_spelled(val@, path@),
        Err(_) => reading::law_decoded_text_is_spelled(val@, Seq::empty()),
    }
}

/// Whether `routed` is `req` with the route that a request with this path takes,
/// which puts the parameters that it captures on the request and changes nothing
/// else. There is a description of the request just where the error handler wants
/// one.
pub open spec fn takes_its_route<H, F, G>(
    router: RouterView<H, F, G>,
    req: Request,
    path: Seq<char>,
    routed: Routed,
) -> bool {
    &&& router.resolve(req.method@, path) == Some(routed.target)
    &&& routed.request.method == req.method
    &&& routed.request.uri == req.uri
    &&& routed.request.version == req.version
    &&& routed.request.headers == req.headers
    &&& match routed.target {
        Target::Plain(i) => i < router.plains.len() && routed.request.meta == req.meta,
        Target::Pattern(i) => {
            &&& i < router.patterns.len()
            &&& !router.patterns[i as int].captures ==> routed.request.meta == req.meta
            &&& forall|source: Seq<char>|
                router.patterns[i as int].captures && router.patterns[i as int].regex
                    == #[trigger] pattern::route_regex(source) && router.patterns[i as int].names
                    == pattern::names(source) && pattern::matches(pattern::pieces(source), path)
                    ==> routed.request.meta is Some && routed.request.meta->0.route_params is Some
                    && exists|parts: Seq<Seq<char>>|
                    holds_parts(
                        routed.request.meta->0.route_params->0@,
                        source,
                        path,
                        parts,
                    )
        },
    }
    &&& routed.req_info is Some <==> (router.err_handler matches Some(ErrHandler::WithInfo(_)))
    &&& forall|headers: &Vec<Header>| #[trigger]
        call_ensures(RequestInfo::headers, (&routed.req_info->0,), headers)
            && routed.req_info is Some ==> {
            &&& headers@.len() == req.headers@.len()
            &&& forall|k: int|
                0 <= k < headers@.len() ==> (#[trigger] headers@[k]).name@
                    == req.headers@[k].name@ && headers@[k].value@ == req.headers@[k].value@
        }
    &&& forall|method: &Method| #[trigger]
        call_ensures(RequestInfo::method, (&routed.req_info->0,), method)
            && routed.req_info is Some ==> method@ == req.method@
    &&& forall|uri: &Uri| #[trigger]
        call_ensures(RequestInfo::uri, (&routed.req_info->0,), uri) && routed.req_info is Some
            ==> *uri == req.uri
    &&& forall|version: Version| #[trigger]
        call_ensures(RequestInfo::version, (&routed.req_info->0,), version)
            && routed.req_info is Some ==> version == req.version
}

/// A request is routed by its method and by the text that the path of its URI
/// decodes to, character for character, or by `/` where that text is empty. It is
/// refused just where the path does not decode.
pub proof fn law_requests_are_routed<H, F, G>(
    service: &RequestService<H, F, G>,
    req: Request,
    text: Seq<char>,
    tried: Result<Option<Routed>, RouteError>,
    called: Result<Routed, RouteError>,
)
    ensures
        ({
            let bytes = decode::percent_decoded(vstd::utf8::encode_utf8(req.uri.path@));
            let path = if text.len() == 0 {
                seq!['/']
            } else {
                text
            };
            &&& call_ensures(RequestService::<H, F, G>::try_call, (service, req), tried) ==> {
                &&& tried is Err <==> !vstd::utf8::valid_utf8(bytes)
                &&& tried matches Err(err) ==> err == RouteError::InvalidPath(
                    decode::decode_error(req.uri.path@),
                )
                &&& vstd::utf8::encode_utf8(text) == bytes ==> match tried {
                    Err(_) => false,
                    Ok(None) => service@.resolve(req.method@, path) is None,
                    Ok(Some(routed)) => takes_its_route(service@, req, path, routed),
                }
            }
            &&& call_ensures(RequestService::<H, F, G>::call, (service, req), called) ==> {
                &&& called is Err <==> !vstd::utf8::valid_utf8(bytes)
                &&& called matches Err(err) ==> err == RouteError::InvalidPath(
                    decode::decode_error(req.uri.path@),
                )
                &&& vstd::utf8::encode_utf8(text) == bytes ==> match called {
                    Err(_) => false,
                    Ok(routed) => takes_its_route(service@, req, path, routed),
                }
            }
        }),
{
    let path = if text.len() == 0 {
        seq!['/']
    } else {
        text
    };
    reveal_strlit("/");
    assert("/"@ =~= seq!['/']);
    reading::law_decoded_text_is_spelled(req.uri.path@, text);
    let decoded = decode::decoded(req.uri.path@) == Some(text);
    if decoded && call_ensures(RequestService::<H, F, G>::try_call, (service, req), tried) {
        if let Ok(Some(routed)) = tried {
            lemma_takes_its_route(service@, req, path, routed);
        }
    }
    if decoded && call_ensures(RequestService::<H, F, G>::call, (service, req), called) {
        if let Ok(routed) = called {
            lemma_takes_its_route(service@, req, path, routed);
        }
    }
}

proof fn lemma_takes_its_route<H, F, G>(
    router: RouterView<H, F, G>,
    req: Request,
    path: Seq<char>,
    routed: Routed,
)
    requires
        crate::service::is_routed(router, req, routed),
        decode::request_path(req.uri.path@) == Some(path),
    ensures
        takes_its_route(router, req, path, routed),
{
    if let Target::Pattern(i) = routed.target {
        assert forall|source: Seq<char>|
            router.patterns[i as int].captures && router.patterns[i as int].regex
                == #[trigger] pattern::route_regex(source) && router.patterns[i as int].names
                == pattern::names(source) && pattern::matches(
                pattern::pieces(source),
                path,
            ) implies routed.request.meta is Some && routed.request.meta->0.route_params is Some
            && exists|parts: Seq<Seq<char>>|
            holds_parts(routed.request.meta->0.route_params->0@, source, path, parts) by {
            law_params_of_a_route(router, i, source, path);
        }
    }
    if routed.req_info is Some {
        assert forall|headers: &Vec<Header>| #[trigger]
            call_ensures(RequestInfo::headers, (&routed.req_info->0,), headers) implies {
            &&& headers@.len() == req.headers@.len()
            &&& forall|k: int|
                0 <= k < headers@.len() ==> (#[trigger] headers@[k]).name@
                    == req.headers@[k].name@ && headers@[k].value@ == req.headers@[k].value@
        } by {
            lemma_same_fields(headers@, req.headers@);
        }
    }
}

/// A request can be routed wherever its path does not decode or some route serves
/// it; trying needs no more than a service.
pub proof fn law_requests_can_be_routed<H, F, G>(
    service: &RequestService<H, F, G>,
    req: Request,
    text: Seq<char>,
)
    requires
        service.wf(),
    ensures
        call_requires(RequestService::<H, F, G>::try_call, (service, req)),
        ({
            let bytes = decode::percent_decoded(vstd::utf8::encode_utf8(req.uri.path@));
            let path = if text.len() == 0 {
                seq!['/']
            } else {
                text
            };
            !vstd::utf8::valid_utf8(bytes) || (vstd::utf8::encode_utf8(text) == bytes
                && service@.resolve(req.method@, path) is Some) ==> call_requires(
                RequestService::<H, F, G>::call,
                (service, req),
            )
        }),
{
    reveal_strlit("/");
    assert("/"@ =~= seq!['/']);
    reading::law_decoded_text_is_spelled(req.uri.path@, text);
}

} // verus!

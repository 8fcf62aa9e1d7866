//! Which of the routes that were added serves a request, from the first call on a
//! new router to the handler that is given the request.

use crate::decode;
use crate::error::RouteError;
use crate::laws;
use crate::operations;
use crate::pattern;
use crate::reading;
use crate::request::{Request, RequestExt};
use crate::router::{Defaults, Router, RouterView, Target};
use crate::service::{RequestService, Routed, RouterService};
use vstd::prelude::*;

verus! {

/// A route as it was added: a pattern, a method or none for any, and a handler.
pub struct Route<H> {
    pub path: Seq<char>,
    pub method: Option<Seq<char>>,
    pub handler: H,
}

/// Whether `states` are the states of a router, without routes at first, to which
/// `routes` were added one by one.
pub open spec fn added_in_turn<H, F, G>(
    states: Seq<RouterView<H, F, G>>,
    routes: Seq<Route<H>>,
) -> bool {
    &&& states.len() == routes.len() + 1
    &&& states[0].patterns.len() == 0
    &&& states[0].plains.len() == 0
    &&& forall|k: int|
        0 <= k < routes.len() ==> operations::appended(
            states[k],
            (#[trigger] routes[k]).path,
            routes[k].method,
            routes[k].handler,
            states[k + 1],
        )
}

/// Whether a route is for this method and its pattern fits this path.
pub open spec fn is_for<H>(route: Route<H>, method: Seq<char>, path: Seq<char>) -> bool {
    &&& route.method is None || route.method == Some(method)
    &&& pattern::matches(pattern::pieces(route.path), path)
}

/// What comes first: routes without placeholders for a method, then those for any
/// method, then routes with placeholders.
pub open spec fn rank<H>(route: Route<H>) -> int {
    if pattern::names(route.path).len() > 0 {
        2
    } else if route.method is None {
        1
    } else {
        0
    }
}

/// Whether route `k` is for this method and path, and comes before all others
/// that are: by its rank, and among those of the same rank by its place.
pub open spec fn is_served_by<H>(
    routes: Seq<Route<H>>,
    method: Seq<char>,
    path: Seq<char>,
    k: int,
) -> bool {
    &&& 0 <= k < routes.len()
    &&& is_for(routes[k], method, path)
    &&& forall|j: int|
        0 <= j < routes.len() && j != k && is_for(#[trigger] routes[j], method, path) ==> rank(
            routes[k],
        ) < rank(routes[j]) || rank(routes[k]) == rank(routes[j]) && k < j
}

/// Whether none of the routes is for this method and path.
pub open spec fn is_unserved<H>(
    routes: Seq<Route<H>>,
    method: Seq<char>,
    path: Seq<char>,
) -> bool {
    forall|j: int| 0 <= j < routes.len() ==> !is_for(#[trigger] routes[j], method, path)
}

/// How many of the first `n` routes have placeholders.
spec fn pattern_count<H>(routes: Seq<Route<H>>, n: int) -> int
    decreases n,
{
    if n <= 0 {
        0
    } else {
        pattern_count(routes, n - 1) + if pattern::names(routes[n - 1].path).len() > 0 {
            1int
        } else {
            0
        }
    }
}

proof fn lemma_count_grows<H>(routes: Seq<Route<H>>, j: int, k: int)
    requires
        0 <= j < k,
    ensures
        0 <= pattern_count(routes, j) <= pattern_count(routes, k),
        j - pattern_count(routes, j) <= k - pattern_count(routes, k),
        pattern::names(routes[j].path).len() > 0 ==> pattern_count(routes, j) < pattern_count(
            routes,
            k,
        ),
        pattern::names(routes[j].path).len() == 0 ==> j - pattern_count(routes, j) < k
            - pattern_count(routes, k),
    decreases k,
{
    if j < k - 1 {
        lemma_count_grows(routes, j, k - 1);
    } else {
        lemma_count_bounds(routes, j);
    }
}

proof fn lemma_count_bounds<H>(routes: Seq<Route<H>>, n: int)
    requires
        0 <= n,
    ensures
        0 <= pattern_count(routes, n) <= n,
    decreases n,
{
    if n > 0 {
        lemma_count_bounds(routes, n - 1);
    }
}

/// Whether the router holds route `k` among its routes with placeholders, or among
/// those without, behind as many as were added before it.
spec fn is_held<H, F, G>(router: RouterView<H, F, G>, routes: Seq<Route<H>>, k: int) -> bool {
    let i = pattern_count(routes, k);
    let route = routes[k];
    if pattern::names(route.path).len() > 0 {
        &&& 0 <= i < router.patterns.len()
        &&& router.patterns[i].regex == pattern::route_regex(route.path)
        &&& router.patterns[i].names == pattern::names(route.path)
        &&& router.patterns[i].captures
        &&& router.patterns[i].method == route.method
        &&& router.patterns[i].handler == route.handler
    } else {
        &&& 0 <= k - i < router.plains.len()
        &&& router.plains[k - i].path == route.path
        &&& router.plains[k - i].method == route.method
        &&& router.plains[k - i].handler == route.handler
    }
}

/// Whether route `k` has placeholders, and `i` routes with placeholders were added
/// before it.
spec fn is_pattern_at<H>(routes: Seq<Route<H>>, k: int, i: int) -> bool {
    pattern::names(routes[k].path).len() > 0 && pattern_count(routes, k) == i
}

/// Whether route `k` has no placeholders, and `i` routes without placeholders were
/// added before it.
spec fn is_plain_at<H>(routes: Seq<Route<H>>, k: int, i: int) -> bool {
    pattern::names(routes[k].path).len() == 0 && k - pattern_count(routes, k) == i
}

spec fn some_pattern_at<H>(routes: Seq<Route<H>>, n: int, i: int) -> bool {
    exists|k: int| 0 <= k < n && #[trigger] is_pattern_at(routes, k, i)
}

spec fn some_plain_at<H>(routes: Seq<Route<H>>, n: int, i: int) -> bool {
    exists|k: int| 0 <= k < n && #[trigger] is_plain_at(routes, k, i)
}

proof fn lemma_routes_held<H, F, G>(
    states: Seq<RouterView<H, F, G>>,
    routes: Seq<Route<H>>,
    n: int,
)
    requires
        added_in_turn(states, routes),
        0 <= n <= routes.len(),
    ensures
        states[n].patterns.len() == pattern_count(routes, n),
        states[n].plains.len() == n - pattern_count(routes, n),
        forall|k: int| 0 <= k < n ==> #[trigger] is_held(states[n], routes, k),
        forall|i: int|
            0 <= i < states[n].patterns.len() ==> #[trigger] some_pattern_at(routes, n, i),
        forall|i: int|
            0 <= i < states[n].plains.len() ==> #[trigger] some_plain_at(routes, n, i),
    decreases n,
{
    if n > 0 {
        let m = n - 1;
        lemma_routes_held(states, routes, m);
        let route = routes[m];
        let before = states[m];
        let after = states[m + 1];
        assert(operations::appended(before, route.path, route.method, route.handler, after));
        lemma_count_bounds(routes, m);
        if pattern::names(route.path).len() > 0 {
            assert forall|i: int| 0 <= i < before.patterns.len() implies #[trigger] after.patterns[i]
                == before.patterns[i] by {
                assert(after.patterns.drop_last()[i] == after.patterns[i]);
            }
            assert(is_pattern_at(routes, m, before.patterns.len() as int));
        } else {
            assert forall|i: int| 0 <= i < before.plains.len() implies #[trigger] after.plains[i]
                == before.plains[i] by {
                assert(after.plains.drop_last()[i] == after.plains[i]);
            }
            assert(is_plain_at(routes, m, before.plains.len() as int));
        }
        assert forall|k: int| 0 <= k < n implies #[trigger] is_held(states[n], routes, k) by {
            if k < m {
                assert(is_held(before, routes, k));
            }
        }
        assert forall|i: int| 0 <= i < after.patterns.len() implies #[trigger] some_pattern_at(
            routes,
            n,
            i,
        ) by {
            if i < before.patterns.len() {
                assert(some_pattern_at(routes, m, i));
                let k = choose|k: int| 0 <= k < m && #[trigger] is_pattern_at(routes, k, i);
                assert(0 <= k < n && is_pattern_at(routes, k, i));
            }
        }
        assert forall|i: int| 0 <= i < after.plains.len() implies #[trigger] some_plain_at(
            routes,
            n,
            i,
        ) by {
            if i < before.plains.len() {
                assert(some_plain_at(routes, m, i));
                let k = choose|k: int| 0 <= k < m && #[trigger] is_plain_at(routes, k, i);
                assert(0 <= k < n && is_plain_at(routes, k, i));
            }
        }
    }
}

/// Whether `target` is where the router holds `route`.
pub open spec fn is_target<H, F, G>(
    router: RouterView<H, F, G>,
    target: Target,
    route: Route<H>,
) -> bool {
    match target {
        Target::Plain(i) => {
            &&& pattern::names(route.path).len() == 0
            &&& i < router.plains.len()
            &&& router.plains[i as int].path == route.path
            &&& router.plains[i as int].method == route.method
            &&& router.plains[i as int].handler == route.handler
        },
        Target::Pattern(i) => {
            &&& pattern::names(route.path).len() > 0
            &&& i < router.patterns.len()
            &&& router.patterns[i as int].regex == pattern::route_regex(route.path)
            &&& router.patterns[i as int].names == pattern::names(route.path)
            &&& router.patterns[i as int].captures
            &&& router.patterns[i as int].method == route.method
            &&& router.patterns[i as int].handler == route.handler
        },
    }
}

/// Of the routes that were added, the one that is for the method and path of a
/// request and comes first serves it, once the router is built: routes without
/// placeholders come before those with, and among them those for a method before
/// those for any; else the one that was added first does. A request that no route
/// is for goes to the default route if there is one and its path begins with `/`.
pub proof fn law_added_routes_serve<H, F, G>(
    states: Seq<RouterView<H, F, G>>,
    routes: Seq<Route<H>>,
    router: Router<H, F, G>,
    defaults: Defaults<H, F>,
    built: Router<H, F, G>,
    method: Seq<char>,
    path: Seq<char>,
)
    requires
        added_in_turn(states, routes),
        router@.patterns == states.last().patterns,
        router@.plains == states.last().plains,
        call_ensures(Router::<H, F, G>::build, (router, defaults), Ok(built)),
    ensures
        match built@.resolve(method, path) {
            Some(target) => {
                ||| exists|k: int| #[trigger]
                    is_served_by(routes, method, path, k) && is_target(built@, target, routes[k])
                ||| {
                    &&& is_unserved(routes, method, path)
                    &&& path.len() > 0 && path[0] == '/'
                    &&& target matches Target::Pattern(i) && i < built@.patterns.len()
                        && !built@.patterns[i as int].captures && Some(
                        built@.patterns[i as int].handler,
                    ) == defaults.not_found
                }
            },
            None => {
                &&& is_unserved(routes, method, path)
                &&& defaults.not_found is None || path.len() == 0 || path[0] != '/'
            },
        },
{
    let n = routes.len() as int;
    let view = built@;
    lemma_routes_held(states, routes, n);
    operations::law_build_keeps_and_completes(router, defaults, Ok(built));
    operations::law_built_router_resolves(router, defaults, built, method, path);
    operations::law_route_found(view, method, path);
    operations::law_unserved_paths(path);
    let old_len = router@.patterns.len() as int;
    assert forall|k: int| 0 <= k < n implies #[trigger] is_held(view, routes, k) by {
        assert(is_held(states[n], routes, k));
    }
    assert forall|k: int| 0 <= k < n implies (pattern::accepts(
        pattern::route_regex((#[trigger] routes[k]).path),
        path,
    ) <==> pattern::matches(pattern::pieces(routes[k].path), path)) && (pattern::names(
        routes[k].path,
    ).len() == 0 ==> (pattern::matches(pattern::pieces(routes[k].path), path) <==> path
        == routes[k].path)) by {
        reading::law_regex_accepts_what_fits(routes[k].path, path);
        if pattern::names(routes[k].path).len() == 0 {
            laws::law_plain_pattern_is_its_text(routes[k].path, path);
        }
    }
    match view.resolve(method, path) {
        Some(Target::Plain(i)) => {
            assert(some_plain_at(routes, n, i as int));
            let k = choose|k: int| 0 <= k < n && #[trigger] is_plain_at(routes, k, i as int);
            assert(is_held(view, routes, k));
            assert forall|j: int|
                0 <= j < n && j != k && is_for(
                    #[trigger] routes[j],
                    method,
                    path,
                ) implies rank(routes[k]) < rank(routes[j]) || rank(routes[k]) == rank(routes[j])
                && k < j by {
                assert(is_held(view, routes, j));
                if j < k {
                    lemma_count_grows(routes, j, k);
                }
            }
            assert(is_served_by(routes, method, path, k));
            assert(is_target(view, Target::Plain(i), routes[k]));
        },
        Some(Target::Pattern(i)) => {
            assert forall|j: int|
                0 <= j < n && is_for(#[trigger] routes[j], method, path) implies pattern::names(
                routes[j].path,
            ).len() > 0 && pattern_count(routes, j) >= i by {
                assert(is_held(view, routes, j));
            }
            if i < old_len {
                assert(some_pattern_at(routes, n, i as int));
                let k = choose|k: int| 0 <= k < n && #[trigger] is_pattern_at(routes, k, i as int);
                assert(is_held(view, routes, k));
                assert forall|j: int|
                    0 <= j < n && j != k && is_for(
                        #[trigger] routes[j],
                        method,
                        path,
                    ) implies rank(routes[k]) < rank(routes[j]) || rank(routes[k]) == rank(
                    routes[j],
                ) && k < j by {
                    if j < k {
                        lemma_count_grows(routes, j, k);
                    }
                }
                assert(is_served_by(routes, method, path, k));
                assert(is_target(view, Target::Pattern(i), routes[k]));
            } else {
                assert forall|j: int| 0 <= j < n implies !is_for(
                    #[trigger] routes[j],
                    method,
                    path,
                ) by {
                    assert(is_held(view, routes, j));
                    if is_for(routes[j], method, path) {
                        lemma_count_grows(routes, j, n);
                    }
                }
            }
        },
        None => {
            assert forall|j: int| 0 <= j < n implies !is_for(
                #[trigger] routes[j],
                method,
                path,
            ) by {
                assert(is_held(view, routes, j));
            }
            if defaults.not_found is Some && path.len() > 0 && path[0] == '/' {
                if view.patterns.len() > old_len {
                    assert(view.patterns[old_len].regex == "(?s)^/(.*)$"@);
                } else {
                    let own = choose|i: int|
                        0 <= i < old_len && #[trigger] router@.patterns[i].regex
                            == "(?s)^/(.*)$"@ && router@.patterns[i].method is None;
                    assert(view.patterns[own] == router@.patterns[own]);
                    assert(pattern::accepts(view.patterns[own].regex, path));
                }
            }
        },
    }
}

/// A route that is for the method and path of a request and comes before all others
/// that are takes the request, whatever the default is.
pub proof fn law_first_route_takes_the_request<H, F, G>(
    states: Seq<RouterView<H, F, G>>,
    routes: Seq<Route<H>>,
    router: Router<H, F, G>,
    defaults: Defaults<H, F>,
    built: Router<H, F, G>,
    method: Seq<char>,
    path: Seq<char>,
    k: int,
)
    requires
        added_in_turn(states, routes),
        router@.patterns == states.last().patterns,
        router@.plains == states.last().plains,
        call_ensures(Router::<H, F, G>::build, (router, defaults), Ok(built)),
        is_served_by(routes, method, path, k),
    ensures
        built@.resolve(method, path) matches Some(target) && is_target(built@, target, routes[k]),
{
    law_added_routes_serve(states, routes, router, defaults, built, method, path);
    assert(!is_unserved(routes, method, path)) by {
        assert(is_for(routes[k], method, path));
    }
    assert forall|other: int| #[trigger] is_served_by(routes, method, path, other) implies other
        == k by {
        assert(is_for(routes[k], method, path) && is_for(routes[other], method, path));
    }
}

/// Whether `value` is what a parameter is when the placeholders of the pattern
/// `source` have captured `parts`: the part of the last placeholder with its name.
pub open spec fn is_param(
    source: Seq<char>,
    parts: Seq<Seq<char>>,
    name: Seq<char>,
    value: Option<&String>,
) -> bool {
    let names = pattern::names(source);
    &&& value is Some <==> names.contains(name)
    &&& forall|i: int|
        0 <= i < names.len() && #[trigger] names[i] == name && (forall|j: int|
            i < j < names.len() ==> #[trigger] names[j] != name) ==> value->0@ == parts[i]
}

/// A request that reaches a server whose router was built from these routes is
/// handed to the handler of the route that serves its method and decoded path,
/// and finds the parts that the pattern of the route captured as its parameters.
/// One that no route is for goes to the default handler, as it is, or to none.
pub proof fn law_requests_reach_their_handlers<H, F, G>(
    states: Seq<RouterView<H, F, G>>,
    routes: Seq<Route<H>>,
    router: Router<H, F, G>,
    defaults: Defaults<H, F>,
    built: Router<H, F, G>,
    server: RouterService<H, F, G>,
    connection: RequestService<H, F, G>,
    req: Request,
    text: Seq<char>,
    path: Seq<char>,
    r: Result<Option<Routed>, RouteError>,
    handler: &H,
    name: &str,
    value: Option<&String>,
)
    requires
        added_in_turn(states, routes),
        router@.patterns == states.last().patterns,
        router@.plains == states.last().plains,
        call_ensures(Router::<H, F, G>::build, (router, defaults), Ok(built)),
        call_ensures(RouterService::<H, F, G>::new, (built,), server),
        call_ensures(RouterService::<H, F, G>::call, (&server,), connection),
        vstd::utf8::encode_utf8(text) == decode::percent_decoded(
            vstd::utf8::encode_utf8(req.uri.path@),
        ),
        text.len() == 0 ==> path == seq!['/'],
        text.len() > 0 ==> path == text,
        call_ensures(RequestService::<H, F, G>::try_call, (&connection, req), r),
        r matches Ok(Some(routed)) ==> call_ensures(
            RequestService::<H, F, G>::handler,
            (&connection, routed.target),
            handler,
        ) && call_ensures(<Request as RequestExt>::param, (&routed.request, name), value),
    ensures
        match r {
            Err(_) => false,
            Ok(None) => is_unserved(routes, req.method@, path) && (defaults.not_found is None
                || path[0] != '/'),
            Ok(Some(routed)) => {
                ||| exists|k: int| #[trigger]
                    is_served_by(routes, req.method@, path, k) && *handler == routes[k].handler
                        && if pattern::names(routes[k].path).len() > 0 {
                        exists|parts: Seq<Seq<char>>| #[trigger]
                            pattern::captured(pattern::pieces(routes[k].path), path, parts)
                                && parts.len() == pattern::names(routes[k].path).len()
                                && is_param(routes[k].path, parts, name@, value)
                    } else {
                        routed.request.meta == req.meta
                    }
                ||| is_unserved(routes, req.method@, path) && path[0] == '/' && Some(*handler)
                    == defaults.not_found && routed.request.meta == req.meta
            },
        },
{
    vstd::utf8::encode_utf8_valid_utf8(text);
    law_added_routes_serve(states, routes, router, defaults, built, req.method@, path);
    operations::law_requests_are_routed(&connection, req, text, r, Err(arbitrary()));
    if let Ok(Some(routed)) = r {
        let target = routed.target;
        assert(operations::takes_its_route(built@, req, path, routed));
        if exists|k: int| #[trigger]
            is_served_by(routes, req.method@, path, k) && is_target(built@, target, routes[k]) {
            let k = choose|k: int| #[trigger]
                is_served_by(routes, req.method@, path, k) && is_target(
                    built@,
                    target,
                    routes[k],
                );
            let source = routes[k].path;
            if let Target::Pattern(i) = target {
                assert(built@.patterns[i as int].regex == pattern::route_regex(source));
                let params = routed.request.meta->0.route_params->0@;
                let parts = choose|parts: Seq<Seq<char>>|
                    operations::holds_parts(params, source, path, parts);
                assert(pattern::captured(pattern::pieces(source), path, parts));
                assert(is_param(source, parts, name@, value)) by {
                    let names = pattern::names(source);
                    assert(params.contains_key(name@) == names.contains(name@));
                    assert forall|i: int|
                        0 <= i < names.len() && #[trigger] names[i] == name@ && (forall|j: int|
                            i < j < names.len() ==> #[trigger] names[j]
                                != name@) implies value->0@ == parts[i] by {
                        assert(names.contains(names[i]));
                        assert(params[names[i]] == parts[i]);
                    }
                }
            }
        }
    }
}

} // verus!

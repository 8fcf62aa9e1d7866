use routerify_lite::plain::PlainTable;
use routerify_lite::router::NO_ERR_HANDLER_WARNING;
use routerify_lite::{
    not_found_response, server_error_response, Defaults, ErrCall, ErrHandler, Header, Method,
    Request, RequestExt, RequestInfo, RequestMeta, RouteError, RouteParams, Router, RouterService,
    Settled, Target, Uri, Verb, Version,
};

type Plain = Router<&'static str, &'static str, &'static str>;

fn built(router: Plain) -> Plain {
    router
        .build(Defaults { not_found: Some("default"), on_error: Some("oops") })
        .unwrap()
}

fn bare(router: Plain) -> Plain {
    router.build(Defaults { not_found: None, on_error: None }).unwrap()
}

fn handler(router: &Plain, method: &str, path: &str) -> Option<&'static str> {
    let target = router.resolve(&Method::new(method), path)?;
    Some(*router.handler(target))
}

fn param(router: &Plain, method: &str, path: &str, name: &str) -> Option<String> {
    let target = router.resolve(&Method::new(method), path).unwrap();
    let meta: RequestMeta = router.request_meta(target, path).unwrap();
    let params: &RouteParams = meta.route_params().unwrap();
    params.get(name).cloned()
}

fn request(method: &str, path: &str) -> Request {
    Request {
        method: Method::new(method),
        uri: Uri {
            scheme: None,
            authority: Some("example.org".to_string()),
            path: path.to_string(),
            query: Some("q=1".to_string()),
        },
        version: Version::Http11,
        headers: vec![Header { name: "host".to_string(), value: b"example.org".to_vec() }],
        meta: None,
    }
}

#[test]
fn home_hello_and_catch_all() {
    let router = built(
        Plain::new()
            .get("/", "home")
            .get("/hello/:name", "hello")
            .any_method("/any_method", "any method")
            .any("none"),
    );
    assert_eq!(handler(&router, "GET", "/"), Some("home"));
    assert_eq!(handler(&router, "GET", "/hello/world"), Some("hello"));
    assert_eq!(param(&router, "GET", "/hello/world", "name").unwrap(), "world");
    assert_eq!(handler(&router, "POST", "/any_method"), Some("any method"));
    assert_eq!(handler(&router, "GET", "/nowhere"), Some("none"));
    assert_eq!(handler(&router, "POST", "/"), Some("none"));
    assert_eq!(handler(&router, "GET", "/hello/"), Some("none"));
    assert_eq!(handler(&router, "GET", "/hello/a/b"), Some("none"));
    assert_eq!(handler(&router, "GET", "*"), None);
}

#[test]
fn each_verb_has_its_method() {
    let router = built(
        Plain::new()
            .get("/x", "get")
            .post("/x", "post")
            .put("/x", "put")
            .delete("/x", "delete")
            .head("/x", "head")
            .trace("/x", "trace")
            .connect("/x", "connect")
            .patch("/x", "patch")
            .options("/x", "options"),
    );
    for name in ["get", "post", "put", "delete", "head", "trace", "connect", "patch", "options"] {
        assert_eq!(handler(&router, &name.to_uppercase(), "/x"), Some(name));
        assert_eq!(handler(&router, name, "/x"), Some("default"));
    }
}

#[test]
fn try_route_adds_what_the_verb_says() {
    let verbs = [
        (Verb::Get, "GET"),
        (Verb::Post, "POST"),
        (Verb::Put, "PUT"),
        (Verb::Delete, "DELETE"),
        (Verb::Head, "HEAD"),
        (Verb::Trace, "TRACE"),
        (Verb::Connect, "CONNECT"),
        (Verb::Patch, "PATCH"),
        (Verb::Options, "OPTIONS"),
    ];
    let mut router = Plain::new();
    for (verb, token) in verbs {
        router = router.try_route(verb, "/:p", token).unwrap();
    }
    let router = built(router.try_route(Verb::AnyMethod, "/:p", "any").unwrap());
    for (_, token) in verbs {
        assert_eq!(handler(&router, token, "/x"), Some(token));
    }
    assert_eq!(handler(&router, "PROPFIND", "/x"), Some("any"));
}

#[test]
fn pattern_that_is_too_large_is_refused() {
    let path = "/:p".repeat(100_000);
    assert!(matches!(Plain::check_route(&path), Err(RouteError::InvalidRoutes(_))));
    assert!(matches!(
        Plain::new().try_route(Verb::Get, &path, "h"),
        Err(RouteError::InvalidRoutes(_))
    ));
    let plain = "/p".repeat(100_000);
    assert!(Plain::check_route(&plain).is_ok());
}

#[test]
fn routes_that_are_too_large_together_are_refused() {
    let path = "/:p".repeat(1000);
    let mut router = Plain::new();
    for i in 0..60 {
        router = router.try_route(Verb::Get, &(path.clone() + &i.to_string()), "h").unwrap();
    }
    let outcome = router.build(Defaults { not_found: None, on_error: None });
    assert!(matches!(outcome, Err(RouteError::InvalidRoutes(_))));
}

#[test]
fn first_plain_route_serves() {
    let router = built(Plain::new().get("/x", "first").get("/x", "second"));
    assert_eq!(router.resolve(&Method::new("GET"), "/x"), Some(Target::Plain(0)));
    assert_eq!(handler(&router, "GET", "/x"), Some("first"));
}

#[test]
fn own_method_comes_before_any_method() {
    let router = built(Plain::new().any_method("/x", "any").get("/x", "get"));
    assert_eq!(handler(&router, "GET", "/x"), Some("get"));
    assert_eq!(handler(&router, "POST", "/x"), Some("any"));
}

#[test]
fn plain_route_comes_before_patterns() {
    let router = built(Plain::new().get("/:p", "pattern").any_method("/x", "plain"));
    assert_eq!(handler(&router, "GET", "/x"), Some("plain"));
    assert_eq!(handler(&router, "GET", "/y"), Some("pattern"));
}

#[test]
fn first_pattern_route_serves() {
    let router = built(
        Plain::new().post("/:p", "post").get("/a*", "star").get("/:p", "param").any("rest"),
    );
    assert_eq!(handler(&router, "GET", "/abc"), Some("star"));
    assert_eq!(handler(&router, "GET", "/xyz"), Some("param"));
    assert_eq!(handler(&router, "POST", "/abc"), Some("post"));
    assert_eq!(handler(&router, "GET", "/x/y"), Some("rest"));
}

#[test]
fn route_added_last_yields() {
    let small = built(Plain::new().get("/a/*", "a").any("any"));
    let large = built(Plain::new().get("/a/*", "a").any("any").get("/a/:p", "late"));
    for path in ["/a/b", "/c"] {
        assert_eq!(handler(&small, "GET", path), handler(&large, "GET", path));
    }
}

#[test]
fn plain_path_with_meta_characters_serves_itself() {
    let router = built(Plain::new().get("/foo-bar", "dash").get("/a.b", "dot"));
    assert_eq!(handler(&router, "GET", "/foo-bar"), Some("dash"));
    assert_eq!(handler(&router, "GET", r"/foo\-bar"), Some("default"));
    assert_eq!(handler(&router, "GET", "/a.b"), Some("dot"));
    assert_eq!(handler(&router, "GET", "/axb"), Some("default"));
}

#[test]
fn dot_star_matches_anything() {
    let router = built(Plain::new().get("/files/.*", "files").any_method("/.*", "rest"));
    assert_eq!(handler(&router, "GET", "/files/a/b.txt"), Some("files"));
    assert_eq!(param(&router, "GET", "/files/a/b.txt", "*").unwrap(), "a/b.txt");
    assert_eq!(handler(&router, "GET", "/foo"), Some("rest"));
    assert_eq!(param(&router, "GET", "/foo", "*").unwrap(), "foo");
    assert_eq!(handler(&router, "POST", "/"), Some("rest"));
    assert_eq!(handler(&router, "POST", "/.x"), Some("rest"));
}

#[test]
fn pattern_with_meta_characters_is_literal() {
    let router = built(Plain::new().get("/v1.0/:p", "dot"));
    assert_eq!(handler(&router, "GET", "/v1.0/x"), Some("dot"));
    assert_eq!(handler(&router, "GET", "/v1x0/x"), Some("default"));
}

#[test]
fn default_serves_what_no_route_serves() {
    let router = built(Plain::new().get("/x", "x"));
    assert_eq!(handler(&router, "GET", "/y"), Some("default"));
    assert_eq!(handler(&router, "POST", "/x"), Some("default"));
    assert_eq!(handler(&router, "GET", "/a\nb"), Some("default"));
    let target = router.resolve(&Method::new("GET"), "/y").unwrap();
    assert!(router.request_meta(target, "/y").is_none());
}

#[test]
fn without_a_default_nothing_serves_the_rest() {
    let router = bare(Plain::new().get("/x", "x"));
    assert_eq!(handler(&router, "GET", "/x"), Some("x"));
    assert_eq!(handler(&router, "GET", "/y"), None);
}

#[test]
fn own_catch_all_keeps_the_default_out() {
    let router = built(Plain::new().any("own").get("/late/:p", "late"));
    assert_eq!(handler(&router, "GET", "/late/1"), Some("own"));
    let only_get = built(Plain::new().get("/*", "own"));
    assert_eq!(handler(&only_get, "GET", "/x"), Some("own"));
    assert_eq!(handler(&only_get, "POST", "/x"), Some("default"));
}

#[test]
fn building_twice_changes_nothing() {
    let router = built(built(Plain::new().get("/x", "x").get("/:p", "p")));
    assert_eq!(router.resolve(&Method::new("GET"), "/x"), Some(Target::Plain(0)));
    assert_eq!(router.resolve(&Method::new("GET"), "/y"), Some(Target::Pattern(0)));
    assert_eq!(router.resolve(&Method::new("GET"), "/y/z"), Some(Target::Pattern(1)));
}

#[test]
fn routes_are_in_service_once_built() {
    let router = Plain::new().get("/x", "x").get("/:p", "p");
    assert_eq!(handler(&router, "GET", "/x"), None);
    assert_eq!(handler(&router, "GET", "/y"), None);
}

#[test]
fn route_added_after_build_waits_for_the_next() {
    let router = built(Plain::new().get("/a/:p", "a"))
        .get("/x", "x")
        .get("/b/:p", "b")
        .post("/a/:p", "post");
    assert_eq!(handler(&router, "GET", "/x"), Some("default"));
    assert_eq!(handler(&router, "GET", "/b/1"), Some("default"));
    assert_eq!(handler(&router, "POST", "/a/1"), Some("default"));
    assert_eq!(handler(&router, "GET", "/a/1"), Some("a"));
    assert_eq!(param(&router, "GET", "/a/1", "p").unwrap(), "1");
    let router = built(router);
    assert_eq!(handler(&router, "GET", "/x"), Some("x"));
    assert_eq!(handler(&router, "GET", "/a/1"), Some("a"));
    assert_eq!(handler(&router, "GET", "/b/1"), Some("default"));
}

#[test]
fn greedy_parts() {
    let router = built(Plain::new().get("/:a-:b/*x*", "h"));
    let path = "/1-2/axbxc";
    assert_eq!(param(&router, "GET", path, "*").unwrap(), "c");
    let dashes = built(Plain::new().get("/f*-*", "h"));
    assert_eq!(param(&dashes, "GET", "/f1-2-3", "*").unwrap(), "3");
}

#[test]
fn each_param_under_its_name() {
    let router = built(Plain::new().get("/u/:id/*/p/:post", "h"));
    let path = "/u/7/a/b/p/x y";
    assert_eq!(param(&router, "GET", path, "id").unwrap(), "7");
    assert_eq!(param(&router, "GET", path, "*").unwrap(), "a/b");
    assert_eq!(param(&router, "GET", path, "post").unwrap(), "x y");
    assert!(param(&router, "GET", path, "other").is_none());
}

#[test]
fn last_of_equal_names_counts() {
    let router = built(Plain::new().get("/:a/:a", "h"));
    assert_eq!(param(&router, "GET", "/1/2", "a").unwrap(), "2");
}

#[test]
fn empty_rest_is_a_part() {
    let router = built(Plain::new().get("/a*", "h"));
    assert_eq!(param(&router, "GET", "/a", "*").unwrap(), "");
}

#[test]
fn request_is_routed_by_its_decoded_path() {
    let service = RouterService::new(built(Plain::new().get("/hello/:name", "hello"))).call();
    let routed = service.call(request("GET", "/hello/J%C3%BCrgen%2FX")).unwrap();
    assert_eq!(service.handler(routed.target), &"default");
    let routed = service.call(request("GET", "/hello/J%C3%BCrgen")).unwrap();
    assert_eq!(service.handler(routed.target), &"hello");
    assert_eq!(routed.request.param("name").unwrap(), "J\u{fc}rgen");
    assert!(routed.request.params().get("other").is_none());
    assert_eq!(routed.request.uri.path, "/hello/J%C3%BCrgen");
    assert!(routed.req_info.is_none());
}

#[test]
fn empty_path_is_the_root() {
    let service = RouterService::new(built(Plain::new().get("/", "home"))).call();
    let routed = service.call(request("GET", "")).unwrap();
    assert_eq!(routed.target, Target::Plain(0));
    assert!(routed.request.meta.is_none());
}

#[test]
fn request_with_an_undecodable_path_is_refused() {
    let service = RouterService::new(built(Plain::new())).call();
    assert!(matches!(service.call(request("GET", "/%ff")), Err(RouteError::InvalidPath(_))));
    assert!(matches!(service.try_call(request("GET", "/%ff")), Err(RouteError::InvalidPath(_))));
}

#[test]
fn unserved_request_has_no_route() {
    let service = RouterService::new(built(Plain::new())).call();
    assert!(matches!(service.try_call(request("OPTIONS", "*")), Ok(None)));
    assert!(matches!(service.share().try_call(request("OPTIONS", "/")), Ok(Some(_))));
}

#[test]
fn responses_pass_and_errors_recover() {
    let service = RouterService::new(built(Plain::new())).call();
    assert!(service.has_err_handler());
    match service.finish::<u8, u8>(Ok(1), None) {
        Settled::Respond(response) => assert_eq!(response, 1),
        Settled::Recover(_) => panic!("no error"),
    }
    match service.finish::<u8, u8>(Err(2), None) {
        Settled::Recover(ErrCall::WithoutInfo(handler, err)) => {
            assert_eq!((*handler, err), ("oops", 2))
        }
        _ => panic!("an error"),
    }
}

#[test]
fn err_handler_with_info_is_given_the_request() {
    let router = built(Plain::new().err_handler("first").err_handler_with_info("second"));
    let service = RouterService::new(router).call();
    let routed = service.call(request("PUT", "/x")).unwrap();
    assert!(matches!(service.finish::<u8, u8>(Ok(1), None), Settled::Respond(1)));
    match service.finish::<u8, u8>(Err(2), routed.req_info) {
        Settled::Recover(ErrCall::WithInfo(handler, err, info)) => {
            assert_eq!((*handler, err), ("second", 2));
            assert_eq!(info.method().as_str(), "PUT");
            assert_eq!(info.uri().path, "/x");
            assert_eq!(info.uri().query.as_ref().unwrap(), "q=1");
            assert_eq!(info.version(), Version::Http11);
            assert_eq!(info.headers().len(), 1);
            assert_eq!(info.headers()[0].name, "host");
            assert_eq!(info.headers()[0].value, b"example.org".to_vec());
        }
        _ => panic!("an error with a description"),
    }
}

#[test]
fn description_of_a_request() {
    let req = request("GET", "/y");
    let info = RequestInfo::new_from_req(&req);
    assert_eq!(info.uri().authority.as_ref().unwrap(), "example.org");
    assert!(info.uri().scheme.is_none());
    assert!(info.method().same(&Method::new("GET")));
    assert!(!info.method().same(&Method::new("get")));
}

#[test]
fn own_err_handler_stays() {
    let router = built(Plain::new().err_handler("own"));
    match router.error_handler() {
        Some(ErrHandler::WithoutInfo(handler)) => assert_eq!(*handler, "own"),
        _ => panic!("the handler that was set"),
    }
}

#[test]
fn missing_err_handler_is_warned_of() {
    let with = Defaults { not_found: None, on_error: Some("oops") };
    let without = Defaults { not_found: None, on_error: None };
    assert!(Plain::new().err_handler_warning(&with).is_none());
    assert_eq!(Plain::new().err_handler_warning(&without), Some(NO_ERR_HANDLER_WARNING));
    assert!(NO_ERR_HANDLER_WARNING.starts_with("Warning: No error handler added. It is"));
    assert!(Plain::new().err_handler("own").err_handler_warning(&without).is_none());
    let service = RouterService::new(bare(Plain::new())).call();
    assert!(!service.has_err_handler());
}

#[test]
fn error_handler_calls() {
    let without: ErrHandler<&str, &str> = ErrHandler::WithoutInfo("f");
    assert!(matches!(without.execute(1, None), ErrCall::WithoutInfo(&"f", 1)));
    let with: ErrHandler<&str, &str> = ErrHandler::WithInfo("g");
    let info = RequestInfo::new_from_req(&request("GET", "/"));
    assert!(matches!(with.execute(1, Some(info)), ErrCall::WithInfo(&"g", 1, _)));
}

#[test]
fn default_responses() {
    let not_found = not_found_response();
    assert_eq!(not_found.status, 404);
    assert_eq!(not_found.content_type, "text/plain");
    assert_eq!(not_found.body, "Not Found");
    let server_error = server_error_response("Some errors");
    assert_eq!(server_error.status, 500);
    assert_eq!(server_error.content_type, "text/plain");
    assert_eq!(server_error.body, "Internal Server Error: Some errors");
}

#[test]
fn every_ascii_character_is_literal_in_a_pattern() {
    for byte in 1u8..=127 {
        let c = byte as char;
        if c == '*' || c == ':' || c == '/' {
            continue;
        }
        let router = bare(Plain::new().get(&format!("/<{}>/:p", c), "h"));
        assert_eq!(handler(&router, "GET", &format!("/<{}>/x", c)), Some("h"));
        assert_eq!(handler(&router, "GET", "/<>/x"), None);
        assert_eq!(handler(&router, "GET", &format!("/<{}{}>/x", c, c)), None);
        assert_eq!(handler(&router, "GET", "/<\u{e9}>/x"), None);
    }
}

#[test]
fn param_inside_a_segment_reads_back() {
    let router = bare(Plain::new().get("/x:y", "h"));
    assert_eq!(param(&router, "GET", "/x\n\u{20ac} z", "y").unwrap(), "\n\u{20ac} z");
    assert_eq!(handler(&router, "GET", "/x"), None);
    assert_eq!(handler(&router, "GET", "/x1/2"), None);
}

#[test]
fn patterns_match_whole_paths_only() {
    let router = bare(Plain::new().get("/a/:p", "h"));
    assert_eq!(handler(&router, "GET", "/b/a/c"), None);
    assert_eq!(handler(&router, "GET", "/a/c\n"), Some("h"));
    assert_eq!(param(&router, "GET", "/a/c\n", "p").unwrap(), "c\n");
    assert_eq!(handler(&router, "GET", "/a/c/"), None);
}

#[test]
fn star_after_a_lone_colon_is_a_name() {
    let router = bare(Plain::new().get("/a:*", "h"));
    assert_eq!(handler(&router, "GET", "/a:x"), Some("h"));
    assert_eq!(param(&router, "GET", "/a:x", "*").unwrap(), ":x");
    assert_eq!(handler(&router, "GET", "/ax/y"), None);
}

#[test]
fn table_of_plain_routes() {
    let get = Some(Method::new("GET"));
    let mut table = PlainTable::new();
    assert!(table.get("/x", &None).is_none());
    table.insert("/x", &None, 3);
    table.insert("/x", &get, 5);
    table.insert("/y", &get, 7);
    assert_eq!(table.get("/x", &None), Some(3));
    assert_eq!(table.get("/x", &get), Some(5));
    assert_eq!(table.get("/y", &get), Some(7));
    assert!(table.get("/y", &None).is_none());
    assert!(table.get("/x", &Some(Method::new("PUT"))).is_none());
}

use routerify_lite::decode::percent_decode_request_path;
use routerify_lite::pattern::generate_common_regex_str;
use routerify_lite::{RouteError, RouteParams};

fn common(path: &str) -> (String, Vec<String>) {
    generate_common_regex_str(path)
}

fn strings(names: &[&str]) -> Vec<String> {
    names.iter().map(|name| name.to_string()).collect()
}

#[test]
fn literal_path_has_no_params() {
    assert_eq!(common("/hello/world"), ("/hello/world".to_string(), vec![]));
    assert_eq!(common(""), (String::new(), vec![]));
}

#[test]
fn meta_characters_are_escaped() {
    assert_eq!(common("/a.b-c"), (r"/a\.b\-c".to_string(), vec![]));
    assert_eq!(
        common(r"\+?()|[]{}^$#&~"),
        (r"\\\+\?\(\)\|\[\]\{\}\^\$\#\&\~".to_string(), vec![])
    );
}

#[test]
fn param_becomes_a_segment_group() {
    assert_eq!(common("/hello/:name"), ("/hello/([^/]+)".to_string(), strings(&["name"])));
    assert_eq!(
        common("/u/:id/posts/:post"),
        ("/u/([^/]+)/posts/([^/]+)".to_string(), strings(&["id", "post"]))
    );
}

#[test]
fn star_becomes_a_rest_group() {
    assert_eq!(common("/*"), ("/(.*)".to_string(), strings(&["*"])));
    assert_eq!(common("/a*b*"), ("/a(.*)b(.*)".to_string(), strings(&["*", "*"])));
}

#[test]
fn dot_before_a_star_belongs_to_it() {
    assert_eq!(common("/.*"), ("/(.*)".to_string(), strings(&["*"])));
    assert_eq!(common(".*"), ("(.*)".to_string(), strings(&["*"])));
    assert_eq!(common("/a.*b"), ("/a(.*)b".to_string(), strings(&["*"])));
    assert_eq!(common("*.*"), ("(.*)(.*)".to_string(), strings(&["*", "*"])));
    assert_eq!(common("/..*"), (r"/\.(.*)".to_string(), strings(&["*"])));
    assert_eq!(common(".**"), ("(.*)(.*)".to_string(), strings(&["*", "*"])));
    assert_eq!(common("/\u{e9}.*"), ("/\u{e9}(.*)".to_string(), strings(&["*"])));
}

#[test]
fn other_dots_are_literal() {
    assert_eq!(common("/*.html"), (r"/(.*)\.html".to_string(), strings(&["*"])));
    assert_eq!(common("/a.:b"), (r"/a\.([^/]+)".to_string(), strings(&["b"])));
    assert_eq!(common("/:a.*"), ("/([^/]+)".to_string(), strings(&["a.*"])));
    assert_eq!(common("/:a/.*"), ("/([^/]+)/(.*)".to_string(), strings(&["a", "*"])));
}

#[test]
fn colon_without_a_name_is_literal() {
    assert_eq!(common("/a:/b"), ("/a:/b".to_string(), vec![]));
    assert_eq!(common("/a:"), ("/a:".to_string(), vec![]));
    assert_eq!(common(":/:x"), (":/([^/]+)".to_string(), strings(&["x"])));
}

#[test]
fn name_runs_to_the_next_slash() {
    assert_eq!(common("/:a*b:c/d"), ("/([^/]+)/d".to_string(), strings(&["a*b:c"])));
    assert_eq!(common("/x:y"), ("/x([^/]+)".to_string(), strings(&["y"])));
    assert_eq!(common("::x"), ("([^/]+)".to_string(), strings(&[":x"])));
    assert_eq!(common("*:x"), ("(.*)([^/]+)".to_string(), strings(&["*", "x"])));
}

#[test]
fn text_beyond_ascii_is_sliced_at_characters() {
    assert_eq!(
        common("/\u{fc}\u{20ac}/:\u{1f496}n/\u{e9}*\u{e8}"),
        ("/\u{fc}\u{20ac}/([^/]+)/\u{e9}(.*)\u{e8}".to_string(), strings(&["\u{1f496}n", "*"]))
    );
}

#[test]
fn newlines_are_part_of_names() {
    assert_eq!(common("/:a\nb"), ("/([^/]+)".to_string(), strings(&["a\nb"])));
}

#[test]
fn percent_sequences_are_decoded() {
    assert_eq!(percent_decode_request_path("/foo%20bar%3f").unwrap(), "/foo bar?");
    assert_eq!(percent_decode_request_path("/%F0%9F%92%96").unwrap(), "/\u{1f496}");
    assert_eq!(percent_decode_request_path("").unwrap(), "");
}

#[test]
fn path_without_percent_is_kept() {
    assert_eq!(percent_decode_request_path("/a+b/\u{e9}").unwrap(), "/a+b/\u{e9}");
}

#[test]
fn incomplete_percent_sequences_are_kept() {
    assert_eq!(percent_decode_request_path("/%").unwrap(), "/%");
    assert_eq!(percent_decode_request_path("/%4").unwrap(), "/%4");
    assert_eq!(percent_decode_request_path("/%zz%4g").unwrap(), "/%zz%4g");
    assert_eq!(percent_decode_request_path("/%%41").unwrap(), "/%A");
}

#[test]
fn path_that_is_not_utf8_is_refused() {
    let err = percent_decode_request_path("/%00%9F%92%96").unwrap_err();
    match err {
        RouteError::InvalidPath(utf8) => assert_eq!(utf8.valid_up_to(), 2),
        RouteError::InvalidRoutes(_) => panic!("not about routes"),
    }
}

#[test]
fn groups_are_bound_to_names() {
    let groups = vec![
        Some("/a/b".to_string()),
        Some("a".to_string()),
        None,
        Some("b".to_string()),
    ];
    let params = RouteParams::bind(&strings(&["x", "y", "x", "z"]), &groups);
    assert_eq!(params.get("x").unwrap(), "b");
    assert!(params.get("y").is_none());
    assert!(params.get("z").is_none());
    assert!(RouteParams::bind(&strings(&["x"]), &vec![]).get("x").is_none());
}

//! What holds of the router as a whole.

use crate::decode;
use crate::error::ErrHandler;
use crate::pattern::{self, Piece};
use crate::plain::PathMethod;
use crate::request::{self, Request};
use crate::router::{self, PatternRoute, PlainRoute, RouterView, Target};
use crate::service;
use vstd::prelude::*;

verus! {

// Patterns.

/// The parts that the placeholders of a pattern capture, put in place of the
/// placeholders, give the text back.
pub proof fn law_parts_rebuild_text(
    pieces: Seq<Piece>,
    text: Seq<char>,
    parts: Seq<Seq<char>>,
)
    requires
        pattern::captured(pieces, text, parts),
    ensures
        pattern::fill(pieces, parts) == text,
        parts.len() == pattern::holes(pieces),
{
    pattern::lemma_fits_fill(pieces, parts, text);
}

/// A text that fits a pattern gives each placeholder a part, in one way only.
pub proof fn law_parts_determined(pieces: Seq<Piece>, text: Seq<char>)
    requires
        pattern::matches(pieces, text),
    ensures
        exists|parts: Seq<Seq<char>>| pattern::captured(pieces, text, parts),
        forall|left: Seq<Seq<char>>, right: Seq<Seq<char>>| #[trigger]
            pattern::captured(pieces, text, left) && #[trigger] pattern::captured(
                pieces,
                text,
                right,
            ) ==> left == right,
{
    pattern::lemma_captured_exists(pieces, text);
    assert forall|left: Seq<Seq<char>>, right: Seq<Seq<char>>| #[trigger]
        pattern::captured(pieces, text, left) && #[trigger] pattern::captured(
            pieces,
            text,
            right,
        ) implies left == right by {
        pattern::lemma_captured_unique(pieces, text, left, right);
    }
}

/// Patterns are read segment by segment: what stands behind a `/` reads as if it
/// stood alone.
pub proof fn law_segments_independent(prefix: Seq<char>, rest: Seq<char>)
    requires
        prefix.len() > 0,
        prefix.last() == '/',
    ensures
        pattern::pieces(prefix + rest) == pattern::pieces(prefix) + pattern::pieces(rest),
        pattern::names(prefix + rest) == pattern::names(prefix) + pattern::names(rest),
{
    pattern::lemma_pieces_compose(prefix, rest);
}

/// `:name` at the end of a pattern takes one or more characters other than `/`,
/// whatever they are, and all that is left of the text.
pub proof fn law_param_takes_a_segment(prefix: Seq<char>, name: Seq<char>, text: Seq<char>)
    requires
        pattern::names(prefix).len() == 0,
        prefix.len() > 0 ==> prefix.last() != ':',
        name.len() > 0,
        !name.contains('/'),
    ensures
        ({
            let path = prefix + (seq![':'] + name);
            let rest = text.subrange(prefix.len() as int, text.len() as int);
            &&& pattern::names(path) == seq![name]
            &&& pattern::matches(pattern::pieces(path), text) <==> prefix.is_prefix_of(text)
                && rest.len() > 0 && !rest.contains('/')
            &&& pattern::matches(pattern::pieces(path), text) ==> pattern::captured(
                pattern::pieces(path),
                text,
                seq![rest],
            )
        }),
{
    pattern::lemma_pieces_after_plain(prefix, seq![':'] + name);
    pattern::lemma_pieces_param(name);
    lemma_one_hole(prefix, Piece::Segment, text);
}

/// `.*` at the end of a pattern takes any text.
pub proof fn law_dot_star_takes_the_rest(prefix: Seq<char>, text: Seq<char>)
    requires
        pattern::names(prefix).len() == 0,
        prefix.len() > 0 ==> prefix.last() != ':',
    ensures
        ({
            let path = prefix + ".*"@;
            let rest = text.subrange(prefix.len() as int, text.len() as int);
            &&& pattern::names(path) == seq!["*"@]
            &&& pattern::matches(pattern::pieces(path), text) <==> prefix.is_prefix_of(text)
            &&& pattern::matches(pattern::pieces(path), text) ==> pattern::captured(
                pattern::pieces(path),
                text,
                seq![rest],
            )
        }),
{
    reveal_strlit(".*");
    pattern::lemma_pieces_after_plain(prefix, ".*"@);
    pattern::lemma_pieces_star();
    lemma_one_hole(prefix, Piece::Rest, text);
}

/// `*` without a dot before it takes any text, too.
pub proof fn law_star_takes_the_rest(prefix: Seq<char>, text: Seq<char>)
    requires
        pattern::names(prefix).len() == 0,
        prefix.len() > 0 ==> prefix.last() != ':' && prefix.last() != '.',
    ensures
        ({
            let path = prefix + "*"@;
            let rest = text.subrange(prefix.len() as int, text.len() as int);
            &&& pattern::names(path) == seq!["*"@]
            &&& pattern::matches(pattern::pieces(path), text) <==> prefix.is_prefix_of(text)
            &&& pattern::matches(pattern::pieces(path), text) ==> pattern::captured(
                pattern::pieces(path),
                text,
                seq![rest],
            )
        }),
{
    pattern::lemma_pieces_after_plain(prefix, "*"@);
    pattern::lemma_pieces_star();
    lemma_one_hole(prefix, Piece::Rest, text);
}

/// A pattern without placeholders fits its own text, character for character, and
/// no other.
pub proof fn law_plain_pattern_is_its_text(path: Seq<char>, text: Seq<char>)
    requires
        pattern::names(path).len() == 0,
    ensures
        pattern::matches(pattern::pieces(path), text) <==> text == path,
{
    pattern::lemma_plain(path);
    let none = Seq::<Piece>::empty();
    let rest = text.subrange(path.len() as int, text.len() as int);
    assert(pattern::literal(path) + none =~= pattern::literal(path));
    assert forall|parts: Seq<Seq<char>>| #[trigger]
        pattern::fits(pattern::literal(path), parts, text) implies text == path by {
        pattern::lemma_fits_literal(path, none, parts, text);
        assert(text =~= path);
    }
    if text == path {
        pattern::lemma_fits_literal(path, none, Seq::empty(), text);
        assert(path =~= text.subrange(0, path.len() as int));
        assert(pattern::fits(none, Seq::empty(), rest));
        assert(pattern::fits(pattern::literal(path), Seq::empty(), text));
    }
}

proof fn lemma_one_hole(prefix: Seq<char>, hole: Piece, text: Seq<char>)
    requires
        !(hole is Char),
    ensures
        ({
            let pieces = pattern::literal(prefix) + seq![hole];
            let rest = text.subrange(prefix.len() as int, text.len() as int);
            &&& pattern::matches(pieces, text) <==> prefix.is_prefix_of(text) && pattern::admits(
                hole,
                rest,
            )
            &&& pattern::matches(pieces, text) ==> pattern::captured(pieces, text, seq![rest])
        }),
{
    let pieces = pattern::literal(prefix) + seq![hole];
    let rest = text.subrange(prefix.len() as int, text.len() as int);
    let none = Seq::<Piece>::empty();
    assert(seq![hole].drop_first() =~= none);
    assert forall|parts: Seq<Seq<char>>| #[trigger]
        pattern::fits(pieces, parts, text) <==> prefix.is_prefix_of(text) && pattern::admits(
            hole,
            rest,
        ) && parts == seq![rest] by {
        pattern::lemma_fits_literal(prefix, seq![hole], parts, text);
        if prefix.is_prefix_of(text) {
            if pattern::fits(seq![hole], parts, rest) {
                let tail = rest.subrange(parts[0].len() as int, rest.len() as int);
                assert(pattern::fits(none, parts.drop_first(), tail));
                assert(parts[0] =~= rest);
                assert(parts =~= seq![rest]);
            }
            if pattern::admits(hole, rest) && parts == seq![rest] {
                assert(parts.drop_first() =~= Seq::<Seq<char>>::empty());
                assert(rest.is_prefix_of(rest)) by {
                    assert(rest =~= rest.subrange(0, rest.len() as int));
                }
                let tail = rest.subrange(rest.len() as int, rest.len() as int);
                assert(pattern::fits(none, parts.drop_first(), tail));
            }
        }
    }
    if pattern::matches(pieces, text) {
        pattern::lemma_captured_exists(pieces, text);
        let parts = choose|parts: Seq<Seq<char>>| pattern::captured(pieces, text, parts);
        assert(parts == seq![rest]);
    } else {
        assert(!pattern::fits(pieces, seq![rest], text));
    }
}

// Routing.

/// Of several routes without placeholders for the same path and method, the one
/// that was added first serves the request.
pub proof fn law_first_plain_route_serves<H, F, G>(
    router: RouterView<H, F, G>,
    method: Seq<char>,
    path: Seq<char>,
    i: int,
)
    requires
        router.in_service(),
        0 <= i < router.plains.len(),
        router.plains[i].key() == (path, Some(method)),
    ensures
        router.resolve(method, path) matches Some(Target::Plain(first)) && router::is_first_with(
            router.plains,
            (path, Some(method)),
            first as int,
        ),
{
    assert(router.table.contains_key(router.plains[i].key()));
}

/// Where no route without placeholders is for the method of the request, the
/// first one for its path and any method serves it.
pub proof fn law_any_method_route_serves<H, F, G>(
    router: RouterView<H, F, G>,
    method: Seq<char>,
    path: Seq<char>,
    i: int,
)
    requires
        router.in_service(),
        0 <= i < router.plains.len(),
        router.plains[i].key() == (path, None::<Seq<char>>),
        forall|j: int|
            0 <= j < router.plains.len() ==> (#[trigger] router.plains[j]).key() != (
                path,
                Some(method),
            ),
    ensures
        router.resolve(method, path) matches Some(Target::Plain(first)) && router::is_first_with(
            router.plains,
            (path, None),
            first as int,
        ),
{
    assert(router.table.contains_key(router.plains[i].key()));
    if router.table.contains_key((path, Some(method))) {
        assert(router::is_first_with(
            router.plains,
            (path, Some(method)),
            router.table[(path, Some(method))] as int,
        ));
    }
}

/// Whether a route without placeholders serves requests with this method and
/// path.
pub open spec fn plain_serves<H>(
    route: PlainRoute<H>,
    method: Seq<char>,
    path: Seq<char>,
) -> bool {
    route.path == path && crate::path_meta::method_matches(route.method, method)
}

/// Where no route without placeholders serves a request, the first one with
/// placeholders that serves it does.
pub proof fn law_first_pattern_route_serves<H, F, G>(
    router: RouterView<H, F, G>,
    method: Seq<char>,
    path: Seq<char>,
    i: int,
)
    requires
        router.in_service(),
        forall|j: int|
            0 <= j < router.plains.len() ==> !plain_serves(
                #[trigger] router.plains[j],
                method,
                path,
            ),
        0 <= i < router.patterns.len(),
        router::serves(router.patterns[i], method, path),
    ensures
        router.resolve(method, path) matches Some(Target::Pattern(first))
            && router::is_first_serving(router.patterns, method, path, first as int),
{
    lemma_no_plain(router, method, path);
    let patterns = router.patterns.take(router.live as int);
    assert(patterns =~= router.patterns);
    let first = lemma_some_first(patterns, method, path, i);
    assert(router::is_first_serving(patterns, method, path, (first as usize) as int));
}

proof fn lemma_no_plain<H, F, G>(
    router: RouterView<H, F, G>,
    method: Seq<char>,
    path: Seq<char>,
)
    requires
        router.in_service(),
        forall|j: int|
            0 <= j < router.plains.len() ==> !plain_serves(
                #[trigger] router.plains[j],
                method,
                path,
            ),
    ensures
        !router.table.contains_key((path, Some(method))),
        !router.table.contains_key((path, None)),
{
    if router.table.contains_key((path, Some(method))) {
        let i = router.table[(path, Some(method))] as int;
        assert(router::is_first_with(router.plains, (path, Some(method)), i));
        assert(plain_serves(router.plains[i], method, path));
    }
    if router.table.contains_key((path, None)) {
        let i = router.table[(path, None)] as int;
        assert(router::is_first_with(router.plains, (path, None), i));
        assert(plain_serves(router.plains[i], method, path));
    }
}

pub proof fn lemma_some_first<H>(
    patterns: Seq<PatternRoute<H>>,
    method: Seq<char>,
    path: Seq<char>,
    i: int,
) -> (first: int)
    requires
        0 <= i < patterns.len(),
        router::serves(patterns[i], method, path),
    ensures
        router::is_first_serving(patterns, method, path, first),
        first <= i,
    decreases i,
{
    if exists|j: int| 0 <= j < i && router::serves(#[trigger] patterns[j], method, path) {
        let j = choose|j: int| 0 <= j < i && router::serves(#[trigger] patterns[j], method, path);
        lemma_some_first(patterns, method, path, j)
    } else {
        i
    }
}

/// The route that a request takes serves its method and its path.
pub proof fn law_route_taken_serves<H, F, G>(
    router: RouterView<H, F, G>,
    method: Seq<char>,
    path: Seq<char>,
)
    requires
        router.in_service(),
        router.resolve(method, path) is Some,
    ensures
        router.has(router.resolve(method, path)->0),
        match router.resolve(method, path)->0 {
            Target::Plain(i) => plain_serves(router.plains[i as int], method, path),
            Target::Pattern(i) => router::serves(router.patterns[i as int], method, path),
        },
{
    let patterns = router.patterns.take(router.live as int);
    assert(patterns =~= router.patterns);
    if router.table.contains_key((path, Some(method))) {
        assert(router::is_first_with(
            router.plains,
            (path, Some(method)),
            router.table[(path, Some(method))] as int,
        ));
    } else if router.table.contains_key((path, None)) {
        assert(router::is_first_with(
            router.plains,
            (path, None),
            router.table[(path, None)] as int,
        ));
    }
}

/// A request finds no route just where no route serves it.
pub proof fn law_unrouted_means_unserved<H, F, G>(
    router: RouterView<H, F, G>,
    method: Seq<char>,
    path: Seq<char>,
)
    requires
        router.in_service(),
    ensures
        router.resolve(method, path) is None <==> (forall|i: int|
            0 <= i < router.plains.len() ==> !plain_serves(
                #[trigger] router.plains[i],
                method,
                path,
            )) && (forall|i: int|
            0 <= i < router.patterns.len() ==> !router::serves(
                #[trigger] router.patterns[i],
                method,
                path,
            )),
{
    if router.resolve(method, path) is Some {
        law_route_taken_serves(router, method, path);
    } else {
        assert forall|i: int| 0 <= i < router.plains.len() implies !plain_serves(
            #[trigger] router.plains[i],
            method,
            path,
        ) by {
            assert(router.table.contains_key(router.plains[i].key()));
        }
        assert forall|i: int| 0 <= i < router.patterns.len() implies !router::serves(
            #[trigger] router.patterns[i],
            method,
            path,
        ) by {
            if router::serves(router.patterns[i], method, path) {
                law_first_pattern_route_serves(router, method, path, i);
            }
        }
    }
}

/// A route with placeholders that is added last serves just the requests that no
/// other route serves.
pub proof fn law_later_pattern_yields<H, F, G>(
    router: RouterView<H, F, G>,
    route: PatternRoute<H>,
    larger: RouterView<H, F, G>,
    method: Seq<char>,
    path: Seq<char>,
)
    requires
        router.in_service(),
        larger.in_service(),
        larger.patterns == router.patterns.push(route),
        larger.plains == router.plains,
    ensures
        larger.resolve(method, path) == (if router.resolve(method, path) is Some {
            router.resolve(method, path)
        } else if router::serves(route, method, path) {
            Some(Target::Pattern(router.patterns.len() as usize))
        } else {
            None
        }),
{
    lemma_one_table(router, larger);
    let patterns = router.patterns.take(router.live as int);
    let more = larger.patterns.take(larger.live as int);
    assert(patterns =~= router.patterns);
    assert(more =~= larger.patterns);
    let n = router.patterns.len() as int;
    assert forall|i: int| 0 <= i < n implies router::is_first_serving(
        more,
        method,
        path,
        i,
    ) == router::is_first_serving(patterns, method, path, i) by {
        assert forall|j: int| 0 <= j <= i implies #[trigger] more[j] == patterns[j] by {}
        if router::is_first_serving(more, method, path, i) {
            assert forall|j: int| 0 <= j < i implies !router::serves(
                #[trigger] patterns[j],
                method,
                path,
            ) by {
                assert(more[j] == patterns[j]);
            }
        }
    }
    if exists|i: usize| router::is_first_serving(patterns, method, path, i as int) {
        let i = choose|i: usize| router::is_first_serving(patterns, method, path, i as int);
        assert(router::is_first_serving(more, method, path, i as int));
        let k = choose|k: usize| router::is_first_serving(more, method, path, k as int);
        assert(k == i) by {
            router::lemma_first_serving_unique(more, method, path);
        }
    } else {
        assert forall|j: int| 0 <= j < n implies !router::serves(
            #[trigger] patterns[j],
            method,
            path,
        ) by {
            if router::serves(patterns[j], method, path) {
                let first = lemma_some_first(patterns, method, path, j);
                assert(router::is_first_serving(patterns, method, path, (first as usize) as int));
            }
        }
        assert forall|j: int| 0 <= j < n implies #[trigger] more[j] == patterns[j] by {}
        if router::serves(route, method, path) {
            assert(router::is_first_serving(more, method, path, (n as usize) as int));
            let k = choose|k: usize| router::is_first_serving(more, method, path, k as int);
            assert(k == n) by {
                router::lemma_first_serving_unique(more, method, path);
            }
        } else {
            assert forall|k: usize| !router::is_first_serving(more, method, path, k as int) by {
                if k < n {
                    assert(more[k as int] == patterns[k as int]);
                }
            }
        }
    }
}

proof fn lemma_one_table<H, F, G>(left: RouterView<H, F, G>, right: RouterView<H, F, G>)
    requires
        left.in_service(),
        right.in_service(),
        left.plains == right.plains,
    ensures
        left.table == right.table,
{
    assert forall|key: PathMethod|
        #![trigger left.table.contains_key(key)]
        #![trigger right.table.contains_key(key)]
        left.table.contains_key(key) == right.table.contains_key(key) && (left.table.contains_key(
            key,
        ) ==> left.table[key] == right.table[key]) by {
        if left.table.contains_key(key) {
            let i = left.table[key] as int;
            assert(router::is_first_with(left.plains, key, i));
            assert(right.table.contains_key(right.plains[i].key()));
        }
        if right.table.contains_key(key) {
            let i = right.table[key] as int;
            assert(router::is_first_with(right.plains, key, i));
            assert(left.table.contains_key(left.plains[i].key()));
        }
        if left.table.contains_key(key) && right.table.contains_key(key) {
            let i = left.table[key] as int;
            let j = right.table[key] as int;
            assert(router::is_first_with(left.plains, key, i));
            assert(router::is_first_with(left.plains, key, j));
        }
    }
    assert(left.table =~= right.table);
}

proof fn lemma_catch_all_serves<H>(route: PatternRoute<H>, method: Seq<char>, path: Seq<char>)
    requires
        router::is_catch_all(route),
    ensures
        router::serves(route, method, path) == (path.len() > 0 && path[0] == '/'),
{
    pattern::lemma_catch_all();
    let pieces = pattern::pieces("/*"@);
    pattern::lemma_accepts(pieces, path);
    assert(pattern::literal(seq!['/']) + seq![Piece::Rest] =~= pieces);
    lemma_one_hole(seq!['/'], Piece::Rest, path);
    if path.len() > 0 && path[0] == '/' {
        assert(seq!['/'] =~= path.subrange(0, 1));
    }
    if seq!['/'].is_prefix_of(path) {
        assert(path[0] == seq!['/'][0]);
    }
}

/// In a router with a route for all requests, such as `any` adds, every request
/// whose path begins with `/` finds a route, whatever its method.
pub proof fn law_catch_all_leaves_none_out<H, F, G>(
    router: RouterView<H, F, G>,
    i: int,
    method: Seq<char>,
    path: Seq<char>,
)
    requires
        router.in_service(),
        0 <= i < router.patterns.len(),
        router::is_catch_all(router.patterns[i]),
        path.len() > 0,
        path[0] == '/',
    ensures
        router.resolve(method, path) is Some,
{
    lemma_catch_all_serves(router.patterns[i], method, path);
    law_unrouted_means_unserved(router, method, path);
}

/// A router that is completed with a handler for unserved requests has a route
/// for all requests.
pub proof fn law_completed_router_catches_all<H, F, G>(router: RouterView<H, F, G>, handler: H)
    ensures
        exists|i: int|
            0 <= i < router.with_not_found(Some(handler)).patterns.len() && router::is_catch_all(
                #[trigger] router.with_not_found(Some(handler)).patterns[i],
            ),
{
    if !(exists|i: int|
        0 <= i < router.patterns.len() && router::is_catch_all(#[trigger] router.patterns[i])) {
        let patterns = router.with_not_found(Some(handler)).patterns;
        assert(patterns.last() == router::not_found_route(handler));
        assert(router::is_catch_all(patterns[patterns.len() - 1]));
    }
}

/// The handler that a router without a route for all requests is completed with
/// answers the requests that no other route serves, and no others.
pub proof fn law_not_found_answers_the_unserved<H, F, G>(
    router: RouterView<H, F, G>,
    handler: H,
    completed: RouterView<H, F, G>,
    method: Seq<char>,
    path: Seq<char>,
)
    requires
        router.in_service(),
        completed.in_service(),
        completed.patterns == router.with_not_found(Some(handler)).patterns,
        completed.plains == router.plains,
        forall|i: int|
            0 <= i < router.patterns.len() ==> !router::is_catch_all(#[trigger] router.patterns[i]),
        path.len() > 0,
        path[0] == '/',
    ensures
        match router.resolve(method, path) {
            Some(target) => completed.resolve(method, path) == Some(target),
            None => completed.resolve(method, path) matches Some(target) && completed.handler(
                target,
            ) == handler && !completed.captures(target),
        },
{
    let route = router::not_found_route(handler);
    law_later_pattern_yields(router, route, completed, method, path);
    lemma_catch_all_serves(route, method, path);
    assert(completed.patterns[router.patterns.len() as int] == route);
}

/// Just the patterns `/*` and `/.*` for any method make a route for all requests.
pub proof fn law_catch_all_patterns<H, F, G>(
    router: RouterView<H, F, G>,
    path: Seq<char>,
    method: Option<Seq<char>>,
    handler: H,
)
    requires
        pattern::names(path).len() > 0,
    ensures
        router::is_catch_all(router.adding(path, method, handler).patterns.last()) <==> (path
            == "/*"@ || path == "/.*"@) && method is None,
{
    pattern::lemma_catch_all();
    if pattern::route_regex(path) == pattern::route_regex("/*"@) {
        pattern::lemma_anchored_injective(pattern::pieces(path), pattern::pieces("/*"@));
    }
    pattern::lemma_is_catch_all(path);
}

/// A router with a route for all requests is not given another.
pub proof fn law_catch_all_kept<H, F, G>(
    router: RouterView<H, F, G>,
    i: int,
    handler: Option<H>,
)
    requires
        0 <= i < router.patterns.len(),
        router::is_catch_all(router.patterns[i]),
    ensures
        router.with_not_found(handler) == router,
{
}

/// To complete a router twice is to complete it once.
pub proof fn law_completing_is_idempotent<H, F, G>(
    router: RouterView<H, F, G>,
    not_found: Option<H>,
    on_error: Option<F>,
)
    ensures
        ({
            let once = router.with_not_found(not_found).with_on_error(on_error);
            once.with_not_found(not_found).with_on_error(on_error) == once
        }),
{
    if let Some(handler) = not_found {
        law_completed_router_catches_all(router, handler);
    }
}

/// An error handler that was set stays, and one that was not set is the default.
pub proof fn law_own_err_handler_stays<H, F, G>(
    router: RouterView<H, F, G>,
    not_found: Option<H>,
    on_error: Option<F>,
)
    ensures
        ({
            let complete = router.with_not_found(not_found).with_on_error(on_error);
            match (router.err_handler, on_error) {
                (Some(handler), _) => complete.err_handler == Some(handler),
                (None, Some(handler)) => complete.err_handler == Some(
                    ErrHandler::<F, G>::WithoutInfo(handler),
                ),
                (None, None) => complete.err_handler is None,
            }
        }),
{
}

/// A route without placeholders serves the requests for its path and method,
/// unless one for the same path and method was added before it.
pub proof fn law_plain_route_serves_its_path<H, F, G>(
    before: RouterView<H, F, G>,
    path: Seq<char>,
    method: Seq<char>,
    handler: H,
    router: RouterView<H, F, G>,
)
    requires
        pattern::names(path).len() == 0,
        router.in_service(),
        before.adding(path, Some(method), handler).plains.is_prefix_of(router.plains),
        forall|i: int|
            0 <= i < before.plains.len() ==> (#[trigger] before.plains[i]).key() != (
                path,
                Some(method),
            ),
    ensures
        router.resolve(method, path) == Some(Target::Plain(before.plains.len() as usize)),
        router.handler(router.resolve(method, path)->0) == handler,
{
    let added = before.adding(path, Some(method), handler).plains;
    let n = before.plains.len() as int;
    assert(router.plains[n] == added[n]);
    law_first_plain_route_serves(router, method, path, n);
    let first = router.resolve(method, path)->0->Plain_0 as int;
    if first < n {
        assert(router.plains[first] == added[first]);
        assert(before.plains[first] == added[first]);
    }
}

/// A route that is added serves nothing until the router is built: each request
/// takes the route that it took before, to the same handler and with the same
/// parameters. This holds of the larger router in turn.
pub proof fn law_added_route_waits_for_build<H, F, G>(
    router: RouterView<H, F, G>,
    path: Seq<char>,
    method: Option<Seq<char>>,
    handler: H,
    request_method: Seq<char>,
    request_path: Seq<char>,
)
    requires
        router.valid(),
    ensures
        ({
            let larger = router.adding(path, method, handler);
            &&& larger.valid()
            &&& larger.resolve(request_method, request_path) == router.resolve(
                request_method,
                request_path,
            )
            &&& router.resolve(request_method, request_path) matches Some(target) ==> {
                &&& larger.handler(target) == router.handler(target)
                &&& larger.captures(target) == router.captures(target)
                &&& larger.params(target, request_path) == router.params(target, request_path)
            }
        }),
{
    let larger = router.adding(path, method, handler);
    assert(larger.patterns.take(larger.live as int) =~= router.patterns.take(router.live as int));
    assert forall|key: PathMethod| #[trigger]
        larger.table.contains_key(key) implies router::is_first_with(
        larger.plains,
        key,
        larger.table[key] as int,
    ) by {
        let i = router.table[key] as int;
        assert(router::is_first_with(router.plains, key, i));
        assert forall|j: int| 0 <= j <= i implies #[trigger] larger.plains[j]
            == router.plains[j] by {}
    }
}

// Parameters.

proof fn lemma_bound(names: Seq<Seq<char>>, values: Seq<Option<Seq<char>>>, count: int)
    requires
        0 <= count <= names.len(),
        names.len() == values.len(),
        forall|i: int| 0 <= i < values.len() ==> (#[trigger] values[i]) is Some,
    ensures
        forall|name: Seq<char>|
            request::bound(names.take(count), values).contains_key(name) <==> #[trigger] names.take(
                count,
            ).contains(name),
        forall|i: int|
            0 <= i < count && (forall|j: int| i < j < count ==> #[trigger] names[j] != names[i])
                ==> request::bound(names.take(count), values)[#[trigger] names[i]] == values[i]->0,
    decreases count,
{
    let taken = names.take(count);
    if count > 0 {
        lemma_bound(names, values, count - 1);
        let rest = names.take(count - 1);
        assert(taken.drop_last() =~= rest);
        assert(taken =~= rest.push(names[count - 1]));
        let map = request::bound(taken, values);
        assert(map == request::bound(rest, values).insert(names[count - 1], values[count - 1]->0));
        assert forall|name: Seq<char>|
            map.contains_key(name) <==> #[trigger] taken.contains(name) by {
            assert(rest.contains(name) == request::bound(rest, values).contains_key(name));
            if taken.contains(name) {
                let k = choose|k: int| 0 <= k < taken.len() && taken[k] == name;
                if k < count - 1 {
                    assert(rest[k] == name);
                }
            }
            if rest.contains(name) {
                let k = choose|k: int| 0 <= k < rest.len() && rest[k] == name;
                assert(taken[k] == name);
            }
            assert(taken[count - 1] == names[count - 1]);
        }
        assert forall|i: int|
            0 <= i < count && (forall|j: int| i < j < count ==> #[trigger] names[j]
                != names[i]) implies map[#[trigger] names[i]] == values[i]->0 by {
            if i < count - 1 {
                assert(names[count - 1] != names[i]);
            }
        }
    }
}

/// The parameters that a route takes from a path are the parts that its
/// placeholders capture, each under its own name: put back in place of the
/// placeholders they give the path. Of placeholders with the same name the last
/// one counts.
pub proof fn law_params_are_the_parts<H>(
    route: PatternRoute<H>,
    source: Seq<char>,
    path: Seq<char>,
)
    requires
        route.regex == pattern::route_regex(source),
        route.names == pattern::names(source),
        pattern::accepts(route.regex, path),
    ensures
        ({
            let parts = pattern::parts_of(route.regex, path);
            let params = router::params_of(route, path);
            &&& pattern::captured(pattern::pieces(source), path, parts)
            &&& parts.len() == route.names.len()
            &&& pattern::fill(pattern::pieces(source), parts) == path
            &&& forall|name: Seq<char>|
                params.contains_key(name) <==> #[trigger] route.names.contains(name)
            &&& forall|i: int|
                0 <= i < parts.len() && (forall|j: int|
                    i < j < parts.len() ==> #[trigger] route.names[j] != route.names[i])
                    ==> params[#[trigger] route.names[i]] == parts[i]
        }),
{
    let pieces = pattern::pieces(source);
    pattern::lemma_accepts(pieces, path);
    pattern::lemma_captured_exists(pieces, path);
    let some = choose|parts: Seq<Seq<char>>| pattern::captured(pieces, path, parts);
    assert(pattern::captures_parts(route.regex, path, some));
    let parts = pattern::parts_of(route.regex, path);
    assert(pattern::captures_parts(route.regex, path, parts));
    pattern::lemma_fits_fill(pieces, parts, path);
    pattern::lemma_names_holes(source, 0);
    let values = Seq::new(parts.len(), |i: int| Some(parts[i]));
    let n = route.names.len() as int;
    lemma_bound(route.names, values, n);
    assert(route.names.take(n) =~= route.names);
}

/// A route whose pattern ends in `:name` gives the segment in that place back
/// under that name.
pub proof fn law_param_reads_back<H>(
    route: PatternRoute<H>,
    prefix: Seq<char>,
    name: Seq<char>,
    segment: Seq<char>,
)
    requires
        pattern::names(prefix).len() == 0,
        prefix.len() > 0 ==> prefix.last() != ':',
        name.len() > 0,
        !name.contains('/'),
        segment.len() > 0,
        !segment.contains('/'),
        route.regex == pattern::route_regex(prefix + (seq![':'] + name)),
        route.names == pattern::names(prefix + (seq![':'] + name)),
    ensures
        pattern::accepts(route.regex, prefix + segment),
        router::params_of(route, prefix + segment) == map![name => segment],
{
    let source = prefix + (seq![':'] + name);
    let path = prefix + segment;
    let pieces = pattern::pieces(source);
    law_param_takes_a_segment(prefix, name, path);
    assert(path.subrange(prefix.len() as int, path.len() as int) =~= segment);
    assert(prefix =~= path.subrange(0, prefix.len() as int));
    pattern::lemma_accepts(pieces, path);
    law_params_are_the_parts(route, source, path);
    let parts = pattern::parts_of(route.regex, path);
    pattern::lemma_captured_unique(pieces, path, parts, seq![segment]);
    let params = router::params_of(route, path);
    assert(route.names[0] == name);
    assert(params[route.names[0]] == parts[0]);
    assert forall|other: Seq<char>| params.contains_key(other) <==> other == name by {
        assert(params.contains_key(other) == route.names.contains(other));
        assert(route.names.contains(route.names[0]));
    }
    assert(params =~= map![name => segment]);
}

// Requests.

proof fn lemma_encode_no_percent(c: char)
    requires
        c != '%',
    ensures
        forall|i: int|
            0 <= i < vstd::utf8::encode_scalar(c as u32).len() ==> #[trigger]
            vstd::utf8::encode_scalar(c as u32)[i] != 0x25,
{
    let v = c as u32;
    assert(v != 0x25);
    assert(v <= 0x7f ==> (v & 0x7f) as u8 != 0x25) by (bit_vector)
        requires
            v != 0x25,
    ;
    assert(0xC0u8 | ((v >> 6) & 0x1F) as u8 != 0x25) by (bit_vector);
    assert(0xE0u8 | ((v >> 12) & 0x0F) as u8 != 0x25) by (bit_vector);
    assert(0xF0u8 | ((v >> 18) & 0x7) as u8 != 0x25) by (bit_vector);
    assert(0x80u8 | (v & 0x3F) as u8 != 0x25) by (bit_vector);
    assert(0x80u8 | ((v >> 6) & 0x3F) as u8 != 0x25) by (bit_vector);
    assert(0x80u8 | ((v >> 12) & 0x3F) as u8 != 0x25) by (bit_vector);
}

proof fn lemma_bytes_no_percent(text: Seq<char>)
    requires
        !text.contains('%'),
    ensures
        forall|i: int|
            0 <= i < vstd::utf8::encode_utf8(text).len() ==> #[trigger] vstd::utf8::encode_utf8(
                text,
            )[i] != 0x25,
    decreases text.len(),
{
    if text.len() > 0 {
        assert(text.contains(text[0]));
        lemma_encode_no_percent(text[0]);
        let rest = text.drop_first();
        assert(!rest.contains('%')) by {
            if rest.contains('%') {
                let k = choose|k: int| 0 <= k < rest.len() && rest[k] == '%';
                assert(text[k + 1] == '%');
            }
        }
        lemma_bytes_no_percent(rest);
        let head = vstd::utf8::encode_scalar(text[0] as u32);
        let tail = vstd::utf8::encode_utf8(rest);
        let whole = vstd::utf8::encode_utf8(text);
        assert(whole == head + tail);
        assert forall|i: int| 0 <= i < whole.len() implies #[trigger] whole[i] != 0x25 by {
            if i < head.len() {
                assert(whole[i] == head[i]);
            } else {
                assert(whole[i] == tail[i - head.len()]);
            }
        }
    }
}

proof fn lemma_nothing_to_decode(bytes: Seq<u8>)
    requires
        forall|i: int| 0 <= i < bytes.len() ==> #[trigger] bytes[i] != 0x25,
    ensures
        decode::percent_decoded(bytes) == bytes,
    decreases bytes.len(),
{
    if bytes.len() > 0 {
        let rest = bytes.drop_first();
        assert forall|i: int| 0 <= i < rest.len() implies #[trigger] rest[i] != 0x25 by {
            assert(rest[i] == bytes[i + 1]);
        }
        lemma_nothing_to_decode(rest);
        assert(seq![bytes[0]] + rest =~= bytes);
    } else {
        assert(decode::percent_decoded(bytes) =~= bytes);
    }
}

/// A path without `%` stands for itself.
pub proof fn law_unencoded_path_kept(path: Seq<char>)
    requires
        !path.contains('%'),
    ensures
        decode::decoded(path) == Some(path),
{
    lemma_bytes_no_percent(path);
    lemma_nothing_to_decode(vstd::utf8::encode_utf8(path));
    vstd::utf8::encode_utf8_valid_utf8(path);
    vstd::utf8::encode_utf8_decode_utf8(path);
}

/// In a router with a route for all requests, every request finds one whose path
/// decodes to nothing or to a text that begins with `/`.
pub proof fn law_every_request_finds_a_route<H, F, G>(
    router: RouterView<H, F, G>,
    i: int,
    req: Request,
)
    requires
        router.in_service(),
        0 <= i < router.patterns.len(),
        router::is_catch_all(router.patterns[i]),
        decode::decoded(req.uri.path@) is Some,
        decode::decoded(req.uri.path@)->0.len() > 0 ==> decode::decoded(req.uri.path@)->0[0] == '/',
    ensures
        service::target_of(router, req) is Some,
{
    reveal_strlit("/");
    let path = decode::request_path(req.uri.path@)->0;
    law_catch_all_leaves_none_out(router, i, req.method@, path);
}

} // verus!

# Routerify lite

A small HTTP router for `hyper`: it matches the path and the method of a request
against a list of routes, and hands errors to an error handler.

A route pattern is literal text with placeholders. `:name` takes one or more
characters other than `/`; `.*` takes any text, and so does `*` alone. All patterns
with placeholders are matched in one scan by a `RegexSet`; routes without
placeholders are looked up in a hash table first. A route that is to serve whatever
no other route serves is added with `any`, after the others, or given to `build` as
a default; without one such a request finds no route.

* `src/` is the router, verified with Verus. Handlers are opaque values there.
  - `pattern.rs` says what route patterns mean and turns them into regular
    expressions; `regexes.rs` holds what is taken on trust of the `regex` crate.
  - `decode.rs` decodes the path of a request.
  - `plain.rs`, `path_meta.rs` and `router.rs` hold the routes and find the one
    that serves a request.
  - `service.rs` routes requests and settles the outcome of handlers; `error.rs`,
    `request.rs`, `method.rs` and `response.rs` hold what it works with.
  - `laws.rs` states what holds of the router as a whole.
* `app/` is the pair of `hyper` services around it. It gives `build` no default
  route: a router that is to answer 404 adds its `not_found` handler with `any`.
* `tests/` runs the router on concrete routes and requests.

//! What the router has from the `regex` crate. What this file says of the crate
//! is taken on trust.
//!
//! The statements about matching speak of the regular expressions of routes only
//! (see [`crate::pattern::is_route_regex`]): literal characters, `([^/]+)` and
//! `(.*)`, between `(?s)^` and `$`. In the syntax of the crate `(?s)` lets `.`
//! match any character, `^` and `$` match at the beginning and at the end of the
//! text alone, `[^/]` matches any character but `/`, a backslash before a meta
//! character makes it literal, and `+` and `*` are greedy: of the ways to match,
//! the one is reported in which the first group is longest, then the second, and
//! so on.

use crate::pattern;
use regex::{Regex, RegexSet};
use vstd::prelude::*;

verus! {

/// Finds the placeholders of a route pattern: a colon with a name behind it,
/// whose first group is the name, or an asterisk.
pub const PATH_PARAMS_RE: &'static str = r"(?s)(?::([^/]+))|(?:\*)";

/// The regular expression of the route pattern `/*`.
pub const CATCH_ALL_RE: &'static str = "(?s)^/(.*)$";

/// `regex::Regex`, a compiled regular expression. Nothing is known of what is
/// inside but [`regex_source`].
#[verifier::external_type_specification]
#[verifier::external_body]
pub struct ExRegex(Regex);

/// `regex::RegexSet`, a compiled row of regular expressions. Nothing is known of
/// what is inside but [`set_patterns`].
#[verifier::external_type_specification]
#[verifier::external_body]
pub struct ExRegexSet(RegexSet);

/// `regex::Error`, the reason why something does not compile. It is carried
/// along and never looked into.
#[verifier::external_type_specification]
#[verifier::external_body]
pub struct ExRegexError(regex::Error);

/// The pattern that a compiled regular expression holds (`Regex::as_str`).
pub uninterp spec fn regex_source(re: Regex) -> Seq<char>;

/// The patterns that a compiled set holds, in order (`RegexSet::patterns`).
pub uninterp spec fn set_patterns(set: RegexSet) -> Seq<Seq<char>>;

/// Why `Regex::new` refuses `pattern`, if it does, on a machine whose pointers
/// have `bits` bits: its size limit is counted in bytes of compiled program.
pub uninterp spec fn regex_error(pattern: Seq<char>, bits: nat) -> Option<regex::Error>;

/// Why `RegexSet::new` refuses `patterns`, if it does, on a machine whose pointers
/// have `bits` bits.
pub uninterp spec fn set_error(patterns: Seq<Seq<char>>, bits: nat) -> Option<regex::Error>;

/// `Regex::new` compiles a pattern or refuses it, depending on the pattern and
/// the size of pointers alone; what it compiles holds the pattern. The two
/// patterns of this file are well-formed and far below the size limit, so they
/// are compiled.
pub assume_specification[ Regex::new ](re: &str) -> (r: Result<Regex, regex::Error>)
    ensures
        match r {
            Ok(regex) => regex_error(re@, usize::BITS as nat) is None && regex_source(regex)
                == re@,
            Err(err) => regex_error(re@, usize::BITS as nat) == Some(err),
        },
        re@ == PATH_PARAMS_RE@ || re@ == CATCH_ALL_RE@ ==> r is Ok,
;

/// `RegexSet::empty` makes a set without patterns.
pub assume_specification[ RegexSet::empty ]() -> (r: RegexSet)
    ensures
        set_patterns(r) == Seq::<Seq<char>>::empty(),
;

/// `regex::escape` puts a backslash before each meta character of a text and
/// leaves the rest as it is.
pub assume_specification[ regex::escape ](text: &str) -> (r: String)
    ensures
        r@ == pattern::escaped(text@),
;

/// Calls `RegexSet::new`, which compiles patterns or refuses them, depending on
/// the patterns and the size of pointers alone; the set that it makes holds the
/// patterns in the order given.
#[verifier::external_body]
pub(crate) fn compile_set(routes: &Vec<String>) -> (r: Result<RegexSet, regex::Error>)
    ensures
        match r {
            Ok(set) => set_error(pattern::texts(routes@), usize::BITS as nat) is None
                && set_patterns(set) == pattern::texts(routes@),
            Err(err) => set_error(pattern::texts(routes@), usize::BITS as nat) == Some(err),
        },
{
    RegexSet::new(routes)
}

/// Calls `RegexSet::matches` and collects what it reports: the numbers of all
/// patterns of the set that match `text`, in ascending order.
#[verifier::external_body]
pub(crate) fn set_matches(set: &RegexSet, text: &str) -> (r: Vec<usize>)
    requires
        forall|i: int|
            0 <= i < set_patterns(*set).len() ==> pattern::is_route_regex(
                #[trigger] set_patterns(*set)[i],
            ),
    ensures
        forall|i: int, j: int| 0 <= i < j < r@.len() ==> r@[i] < r@[j],
        forall|i: int|
            0 <= i < r@.len() ==> #[trigger] r@[i] < set_patterns(*set).len() && pattern::accepts(
                set_patterns(*set)[r@[i] as int],
                text@,
            ),
        forall|k: int|
            0 <= k < set_patterns(*set).len() && pattern::accepts(
                #[trigger] set_patterns(*set)[k],
                text@,
            ) ==> exists|i: int| 0 <= i < r@.len() && r@[i] == k,
{
    set.matches(text).into_iter().collect()
}

/// Calls `Regex::captures`, which reports the groups of the match, if there is
/// one: first the whole match, then the part of each placeholder. Each group of
/// the regular expression of a route takes part in every match.
#[verifier::external_body]
pub(crate) fn regex_captures(re: &Regex, text: &str) -> (r: Option<Vec<Option<String>>>)
    requires
        pattern::is_route_regex(regex_source(*re)),
    ensures
        r is Some <==> pattern::accepts(regex_source(*re), text@),
        r matches Some(groups) ==> exists|parts: Seq<Seq<char>>| #[trigger]
            pattern::captures_parts(regex_source(*re), text@, parts) && groups@.len() == parts.len()
                + 1 && forall|i: int|
                0 <= i < parts.len() ==> (#[trigger] groups@[i + 1] matches Some(part) && part@
                    == parts[i]),
{
    let caps = re.captures(text)?;
    Some(caps.iter().map(|group| group.map(|m| m.as_str().to_string())).collect())
}

/// A match of [`PATH_PARAMS_RE`]: its bounds in bytes and its first group.
pub struct ParamMatch {
    pub start: usize,
    pub end: usize,
    pub name: Option<String>,
}

/// Whether `found` is the match of the placeholder `mark` of `path`.
pub open spec fn is_match_of(found: ParamMatch, path: Seq<char>, mark: pattern::Mark) -> bool {
    &&& found.start == vstd::utf8::encode_utf8(path.subrange(0, mark.start)).len()
    &&& found.end == vstd::utf8::encode_utf8(path.subrange(0, mark.end)).len()
    &&& match found.name {
        Some(name) => mark.name == Some(name@),
        None => mark.name is None,
    }
}

/// Calls `Regex::captures_iter` on [`PATH_PARAMS_RE`], which reports the matches
/// from left to right, each beginning at the leftmost place behind the one
/// before. At a colon `[^/]+` takes all characters up to the next `/` or the end,
/// and must take one; at an asterisk the match is that character. The bounds are
/// counted in bytes of the UTF-8 text.
#[verifier::external_body]
pub(crate) fn placeholder_matches(re: &Regex, path: &str) -> (r: Vec<ParamMatch>)
    requires
        regex_source(*re) == PATH_PARAMS_RE@,
    ensures
        r@.len() == pattern::marks_from(path@, 0).len(),
        forall|i: int|
            0 <= i < r@.len() ==> is_match_of(
                #[trigger] r@[i],
                path@,
                pattern::marks_from(path@, 0)[i],
            ),
{
    re.captures_iter(path).map(
        |caps| {
            let whole = caps.get(0).unwrap();
            let name = caps.get(1).map(|m| m.as_str().to_string());
            ParamMatch { start: whole.start(), end: whole.end(), name }
        },
    ).collect()
}

} // verus!

//! The language of route patterns, and the regular expressions they turn into.
//!
//! A route pattern is literal text with two kinds of placeholder in it: `:name`
//! stands for one or more characters other than `/`, `.*` stands for any text at
//! all, and so does `*` alone.

use crate::regexes::{placeholder_matches, ParamMatch, CATCH_ALL_RE, PATH_PARAMS_RE};
use regex::Regex;
use vstd::prelude::*;

verus! {

/// The texts of strings.
pub open spec fn texts(strings: Seq<String>) -> Seq<Seq<char>> {
    Seq::new(strings.len(), |i: int| strings[i]@)
}

/// What a route pattern over characters of type `C` is made of.
pub enum PieceOf<C> {
    /// This very character.
    Char(C),
    /// One or more characters, none of them `/`.
    Segment,
    /// Any characters, none included.
    Rest,
}

/// What a route pattern is made of.
pub type Piece = PieceOf<char>;

/// The characters that mean something in a regular expression.
pub open spec fn is_meta(c: char) -> bool {
    ||| c == '\\' || c == '.' || c == '+' || c == '*' || c == '?' || c == '(' || c == ')'
    ||| c == '|' || c == '[' || c == ']' || c == '{' || c == '}' || c == '^' || c == '$'
    ||| c == '#' || c == '&' || c == '-' || c == '~'
}

/// `text` with a backslash before each of its meta characters.
pub open spec fn escaped(text: Seq<char>) -> Seq<char>
    decreases text.len(),
{
    if text.len() == 0 {
        Seq::empty()
    } else {
        escaped(text.drop_last()) + escaped_char(text.last())
    }
}

/// A single character, with a backslash before it where it is a meta character.
pub open spec fn escaped_char(c: char) -> Seq<char> {
    if is_meta(c) {
        seq!['\\', c]
    } else {
        seq![c]
    }
}

/// The regular expression for one piece.
pub open spec fn piece_regex(piece: Piece) -> Seq<char> {
    match piece {
        Piece::Char(c) => escaped_char(c),
        Piece::Segment => "([^/]+)"@,
        Piece::Rest => "(.*)"@,
    }
}

/// The regular expression for a row of pieces, without anchors.
pub open spec fn regex_text(pieces: Seq<Piece>) -> Seq<char>
    decreases pieces.len(),
{
    if pieces.len() == 0 {
        Seq::empty()
    } else {
        regex_text(pieces.drop_last()) + piece_regex(pieces.last())
    }
}

/// The regular expression that a text as a whole must match to fit `pieces`.
pub open spec fn anchored(pieces: Seq<Piece>) -> Seq<char> {
    "(?s)^"@ + regex_text(pieces) + "$"@
}

/// Whether `part` may stand where `piece` is a placeholder.
pub open spec fn admits(piece: Piece, part: Seq<char>) -> bool {
    match piece {
        Piece::Char(_) => false,
        Piece::Segment => part.len() > 0 && !part.contains('/'),
        Piece::Rest => true,
    }
}

/// Whether `text` is what `pieces` become when `parts`, in order, take the
/// places of the placeholders.
pub open spec fn fits(pieces: Seq<Piece>, parts: Seq<Seq<char>>, text: Seq<char>) -> bool
    decreases pieces.len(),
{
    if pieces.len() == 0 {
        parts.len() == 0 && text.len() == 0
    } else {
        match pieces[0] {
            Piece::Char(c) => {
                &&& text.len() > 0
                &&& text[0] == c
                &&& fits(pieces.drop_first(), parts, text.drop_first())
            },
            piece => {
                &&& parts.len() > 0
                &&& admits(piece, parts[0])
                &&& parts[0].is_prefix_of(text)
                &&& fits(
                    pieces.drop_first(),
                    parts.drop_first(),
                    text.subrange(parts[0].len() as int, text.len() as int),
                )
            },
        }
    }
}

/// The text that `pieces` become when `parts`, in order, take the places of the
/// placeholders.
pub open spec fn fill(pieces: Seq<Piece>, parts: Seq<Seq<char>>) -> Seq<char>
    decreases pieces.len(),
{
    if pieces.len() == 0 {
        Seq::empty()
    } else {
        match pieces[0] {
            Piece::Char(c) => seq![c] + fill(pieces.drop_first(), parts),
            _ => parts[0] + fill(pieces.drop_first(), parts.drop_first()),
        }
    }
}

/// The number of placeholders.
pub open spec fn holes(pieces: Seq<Piece>) -> nat
    decreases pieces.len(),
{
    if pieces.len() == 0 {
        0
    } else {
        match pieces[0] {
            Piece::Char(_) => holes(pieces.drop_first()),
            _ => 1 + holes(pieces.drop_first()),
        }
    }
}

/// Whether `text` fits `pieces` at all.
pub open spec fn matches(pieces: Seq<Piece>, text: Seq<char>) -> bool {
    exists|parts: Seq<Seq<char>>| fits(pieces, parts, text)
}

/// Whether, at the first place where `left` and `right` differ in length, `left`
/// has the longer part.
pub open spec fn at_least_as_greedy(left: Seq<Seq<char>>, right: Seq<Seq<char>>) -> bool
    decreases left.len(),
{
    if left.len() == 0 || right.len() == 0 {
        true
    } else if left[0].len() == right[0].len() {
        at_least_as_greedy(left.drop_first(), right.drop_first())
    } else {
        left[0].len() > right[0].len()
    }
}

/// Whether `parts` is how the placeholders of `pieces` share out `text`: each
/// takes as much as it can, an earlier one before a later one.
pub open spec fn captured(pieces: Seq<Piece>, text: Seq<char>, parts: Seq<Seq<char>>) -> bool {
    &&& fits(pieces, parts, text)
    &&& forall|other: Seq<Seq<char>>| #[trigger]
        fits(pieces, other, text) ==> at_least_as_greedy(parts, other)
}

/// Whether `regex` is the regular expression of some row of pieces.
pub open spec fn is_route_regex(regex: Seq<char>) -> bool {
    exists|pieces: Seq<Piece>| #[trigger] anchored(pieces) == regex
}

/// Whether the regular expression of a route matches `text`.
pub open spec fn accepts(regex: Seq<char>, text: Seq<char>) -> bool {
    exists|pieces: Seq<Piece>| #[trigger] anchored(pieces) == regex && matches(pieces, text)
}

/// Whether `parts` are the groups that the regular expression of a route
/// captures from `text`.
pub open spec fn captures_parts(regex: Seq<char>, text: Seq<char>, parts: Seq<Seq<char>>) -> bool {
    exists|pieces: Seq<Piece>| #[trigger] anchored(pieces) == regex && captured(pieces, text, parts)
}

/// The groups that the regular expression of a route captures from a text that
/// it accepts.
pub open spec fn parts_of(regex: Seq<char>, text: Seq<char>) -> Seq<Seq<char>> {
    choose|parts: Seq<Seq<char>>| captures_parts(regex, text, parts)
}

/// Where the run of characters other than `/` that begins at `i` ends.
pub open spec fn segment_end(path: Seq<char>, i: int) -> int
    decreases path.len() - i,
{
    if 0 <= i < path.len() && path[i] != '/' {
        segment_end(path, i + 1)
    } else {
        i
    }
}

/// Whether a `:name` placeholder begins at `i`: a colon with a name behind it.
pub open spec fn opens_param(path: Seq<char>, i: int) -> bool {
    path[i] == ':' && i + 1 < path.len() && path[i + 1] != '/'
}

/// Whether a `.*` placeholder begins at `i`.
pub open spec fn opens_dot_star(path: Seq<char>, i: int) -> bool {
    path[i] == '.' && i + 1 < path.len() && path[i + 1] == '*'
}

/// One placeholder of a route pattern: where it begins and ends, and the name
/// behind its colon (`None` for `*`, without the dot that may stand before it).
pub struct Mark {
    pub start: int,
    pub end: int,
    pub name: Option<Seq<char>>,
}

/// The placeholders of `path` from `i` on, from left to right.
pub open spec fn marks_from(path: Seq<char>, i: int) -> Seq<Mark>
    decreases path.len() - i,
{
    if i < 0 || i >= path.len() {
        Seq::empty()
    } else if path[i] == '*' {
        seq![Mark { start: i, end: i + 1, name: None }] + marks_from(path, i + 1)
    } else if opens_param(path, i) {
        proof {
            lemma_segment_end(path, i + 1);
        }
        let end = segment_end(path, i + 1);
        seq![Mark { start: i, end, name: Some(path.subrange(i + 1, end)) }] + marks_from(path, end)
    } else {
        marks_from(path, i + 1)
    }
}

/// The pieces of `path` from `i` on.
pub open spec fn pieces_from(path: Seq<char>, i: int) -> Seq<Piece>
    decreases path.len() - i,
{
    if i < 0 || i >= path.len() {
        Seq::empty()
    } else if path[i] == '*' {
        seq![Piece::Rest] + pieces_from(path, i + 1)
    } else if opens_param(path, i) {
        proof {
            lemma_segment_end(path, i + 1);
        }
        seq![Piece::Segment] + pieces_from(path, segment_end(path, i + 1))
    } else if opens_dot_star(path, i) {
        seq![Piece::Rest] + pieces_from(path, i + 2)
    } else {
        seq![Piece::Char(path[i])] + pieces_from(path, i + 1)
    }
}

/// The pieces of a route pattern.
pub open spec fn pieces(path: Seq<char>) -> Seq<Piece> {
    pieces_from(path, 0)
}

/// The parameter name that a placeholder gives its part: its own, or `*`.
pub open spec fn mark_name(mark: Mark) -> Seq<char> {
    match mark.name {
        Some(name) => name,
        None => "*"@,
    }
}

/// The parameter names of a route pattern, from left to right.
pub open spec fn names(path: Seq<char>) -> Seq<Seq<char>> {
    let marks = marks_from(path, 0);
    Seq::new(marks.len(), |i: int| mark_name(marks[i]))
}

/// The regular expression of a route pattern.
pub open spec fn route_regex(path: Seq<char>) -> Seq<char> {
    anchored(pieces(path))
}

/// Text as a row of literal pieces.
pub open spec fn literal(text: Seq<char>) -> Seq<Piece> {
    Seq::new(text.len(), |i: int| Piece::Char(text[i]))
}

/// The piece that a placeholder stands for.
pub open spec fn mark_piece(mark: Mark) -> Piece {
    match mark.name {
        Some(_) => Piece::Segment,
        None => Piece::Rest,
    }
}

pub proof fn lemma_segment_end(path: Seq<char>, i: int)
    requires
        0 <= i <= path.len(),
    ensures
        i <= segment_end(path, i) <= path.len(),
        forall|k: int| i <= k < segment_end(path, i) ==> path[k] != '/',
        segment_end(path, i) < path.len() ==> path[segment_end(path, i)] == '/',
    decreases path.len() - i,
{
    if i < path.len() && path[i] != '/' {
        lemma_segment_end(path, i + 1);
    }
}

pub proof fn lemma_regex_text_concat(left: Seq<Piece>, right: Seq<Piece>)
    ensures
        regex_text(left + right) == regex_text(left) + regex_text(right),
    decreases right.len(),
{
    if right.len() == 0 {
        assert(left + right =~= left);
    } else {
        assert((left + right).drop_last() =~= left + right.drop_last());
        lemma_regex_text_concat(left, right.drop_last());
    }
}

pub proof fn lemma_regex_text_single(piece: Piece)
    ensures
        regex_text(seq![piece]) == piece_regex(piece),
{
    assert(seq![piece].drop_last() =~= Seq::<Piece>::empty());
    assert(regex_text(Seq::<Piece>::empty()) =~= Seq::<char>::empty());
    assert(Seq::<char>::empty() + piece_regex(piece) =~= piece_regex(piece));
}

pub proof fn lemma_regex_text_literal(text: Seq<char>)
    ensures
        regex_text(literal(text)) == escaped(text),
    decreases text.len(),
{
    if text.len() > 0 {
        assert(literal(text).drop_last() =~= literal(text.drop_last()));
        lemma_regex_text_literal(text.drop_last());
    }
}

pub proof fn lemma_regex_text_first(pieces: Seq<Piece>)
    requires
        pieces.len() > 0,
    ensures
        regex_text(pieces) == piece_regex(pieces[0]) + regex_text(pieces.drop_first()),
{
    assert(seq![pieces[0]] + pieces.drop_first() =~= pieces);
    lemma_regex_text_concat(seq![pieces[0]], pieces.drop_first());
    lemma_regex_text_single(pieces[0]);
}

/// No piece's regular expression begins another's.
proof fn lemma_piece_regex_prefix_free(
    left: Piece,
    right: Piece,
    left_tail: Seq<char>,
    right_tail: Seq<char>,
)
    requires
        piece_regex(left) + left_tail == piece_regex(right) + right_tail,
    ensures
        left == right,
        left_tail == right_tail,
{
    reveal_strlit("([^/]+)");
    reveal_strlit("(.*)");
    let whole = piece_regex(left) + left_tail;
    assert(whole[0] == piece_regex(left)[0]);
    assert(whole[0] == piece_regex(right)[0]);
    if piece_regex(left).len() > 1 && piece_regex(right).len() > 1 {
        assert(whole[1] == piece_regex(left)[1]);
        assert(whole[1] == piece_regex(right)[1]);
    }
    assert(left == right);
    let n = piece_regex(left).len() as int;
    assert(left_tail =~= whole.subrange(n, whole.len() as int));
    assert(right_tail =~= whole.subrange(n, whole.len() as int));
}

/// Rows of pieces with the same regular expression are the same.
pub proof fn lemma_regex_text_injective(left: Seq<Piece>, right: Seq<Piece>)
    requires
        regex_text(left) == regex_text(right),
    ensures
        left == right,
    decreases left.len(),
{
    reveal_strlit("([^/]+)");
    reveal_strlit("(.*)");
    if left.len() > 0 {
        lemma_regex_text_first(left);
        assert(regex_text(left).len() >= piece_regex(left[0]).len() > 0);
    }
    if right.len() > 0 {
        lemma_regex_text_first(right);
        assert(regex_text(right).len() >= piece_regex(right[0]).len() > 0);
    }
    if left.len() > 0 && right.len() > 0 {
        lemma_piece_regex_prefix_free(
            left[0],
            right[0],
            regex_text(left.drop_first()),
            regex_text(right.drop_first()),
        );
        lemma_regex_text_injective(left.drop_first(), right.drop_first());
        assert(left =~= seq![left[0]] + left.drop_first());
        assert(right =~= seq![right[0]] + right.drop_first());
    } else {
        assert(regex_text(Seq::<Piece>::empty()).len() == 0);
        assert(left =~= right);
    }
}

/// Rows of pieces with the same anchored regular expression are the same.
pub proof fn lemma_anchored_injective(left: Seq<Piece>, right: Seq<Piece>)
    requires
        anchored(left) == anchored(right),
    ensures
        left == right,
{
    let whole = anchored(left);
    let n = "(?s)^"@.len() as int;
    let m = whole.len() - "$"@.len();
    assert(regex_text(left) =~= whole.subrange(n, m));
    assert(regex_text(right) =~= whole.subrange(n, m));
    lemma_regex_text_injective(left, right);
}

/// The regular expression of `pieces` accepts just the texts that fit them.
pub proof fn lemma_accepts(pieces: Seq<Piece>, text: Seq<char>)
    ensures
        is_route_regex(anchored(pieces)),
        accepts(anchored(pieces), text) == matches(pieces, text),
        forall|parts: Seq<Seq<char>>| #[trigger]
            captures_parts(anchored(pieces), text, parts) == captured(pieces, text, parts),
{
    assert forall|other: Seq<Piece>| #[trigger] anchored(other) == anchored(pieces) implies other
        == pieces by {
        lemma_anchored_injective(other, pieces);
    }
}

/// Of two ways to fit `text`, each at least as greedy as the other, there is
/// only one.
proof fn lemma_equally_greedy(
    pieces: Seq<Piece>,
    text: Seq<char>,
    left: Seq<Seq<char>>,
    right: Seq<Seq<char>>,
)
    requires
        fits(pieces, left, text),
        fits(pieces, right, text),
        at_least_as_greedy(left, right),
        at_least_as_greedy(right, left),
    ensures
        left == right,
    decreases pieces.len(),
{
    if pieces.len() > 0 {
        match pieces[0] {
            Piece::Char(_) => {
                lemma_equally_greedy(pieces.drop_first(), text.drop_first(), left, right);
            },
            _ => {
                assert(left[0] =~= text.subrange(0, left[0].len() as int));
                assert(right[0] =~= left[0]);
                lemma_equally_greedy(
                    pieces.drop_first(),
                    text.subrange(left[0].len() as int, text.len() as int),
                    left.drop_first(),
                    right.drop_first(),
                );
                assert(left =~= seq![left[0]] + left.drop_first());
                assert(right =~= seq![right[0]] + right.drop_first());
            },
        }
    } else {
        assert(left =~= right);
    }
}

/// A text gives the placeholders of a pattern one set of parts only.
pub proof fn lemma_captured_unique(
    pieces: Seq<Piece>,
    text: Seq<char>,
    left: Seq<Seq<char>>,
    right: Seq<Seq<char>>,
)
    requires
        captured(pieces, text, left),
        captured(pieces, text, right),
    ensures
        left == right,
{
    lemma_equally_greedy(pieces, text, left, right);
}

/// A regular expression captures one set of parts only.
pub proof fn lemma_captures_unique(
    regex: Seq<char>,
    text: Seq<char>,
    left: Seq<Seq<char>>,
    right: Seq<Seq<char>>,
)
    requires
        captures_parts(regex, text, left),
        captures_parts(regex, text, right),
    ensures
        left == right,
{
    let pieces = choose|pieces: Seq<Piece>| #[trigger] anchored(pieces) == regex && captured(
        pieces,
        text,
        left,
    );
    lemma_accepts(pieces, text);
    lemma_captured_unique(pieces, text, left, right);
}

pub proof fn lemma_fits_fill(pieces: Seq<Piece>, parts: Seq<Seq<char>>, text: Seq<char>)
    requires
        fits(pieces, parts, text),
    ensures
        fill(pieces, parts) == text,
        parts.len() == holes(pieces),
    decreases pieces.len(),
{
    if pieces.len() > 0 {
        match pieces[0] {
            Piece::Char(c) => {
                lemma_fits_fill(pieces.drop_first(), parts, text.drop_first());
                assert(seq![c] + text.drop_first() =~= text);
            },
            _ => {
                let rest = text.subrange(parts[0].len() as int, text.len() as int);
                lemma_fits_fill(pieces.drop_first(), parts.drop_first(), rest);
                assert(parts[0] + rest =~= text);
            },
        }
    } else {
        assert(text =~= Seq::<char>::empty());
    }
}

/// Of the ways to fit `text`, whose first parts are no longer than `bound`, one
/// has the longest first part.
proof fn lemma_longest_first_part(pieces: Seq<Piece>, text: Seq<char>, bound: int) -> (best: Seq<
    Seq<char>,
>)
    requires
        pieces.len() > 0,
        !(pieces[0] is Char),
        matches(pieces, text),
        forall|other: Seq<Seq<char>>| #[trigger]
            fits(pieces, other, text) ==> other[0].len() <= bound,
    ensures
        fits(pieces, best, text),
        forall|other: Seq<Seq<char>>| #[trigger]
            fits(pieces, other, text) ==> other[0].len() <= best[0].len(),
    decreases bound + 1,
{
    let some = choose|parts: Seq<Seq<char>>| fits(pieces, parts, text);
    assert(some[0].len() <= bound);
    if exists|parts: Seq<Seq<char>>| #[trigger]
        fits(pieces, parts, text) && parts[0].len() == bound {
        choose|parts: Seq<Seq<char>>| #[trigger]
            fits(pieces, parts, text) && parts[0].len() == bound
    } else {
        lemma_longest_first_part(pieces, text, bound - 1)
    }
}

/// A text that fits gives each placeholder a part.
pub proof fn lemma_captured_exists(pieces: Seq<Piece>, text: Seq<char>)
    requires
        matches(pieces, text),
    ensures
        exists|parts: Seq<Seq<char>>| captured(pieces, text, parts),
    decreases pieces.len(),
{
    let some = choose|parts: Seq<Seq<char>>| fits(pieces, parts, text);
    if pieces.len() == 0 {
        assert(captured(pieces, text, some));
    } else {
        match pieces[0] {
            Piece::Char(_) => {
                let tail = text.drop_first();
                assert(fits(pieces.drop_first(), some, tail));
                lemma_captured_exists(pieces.drop_first(), tail);
                let parts = choose|parts: Seq<Seq<char>>|
                    captured(pieces.drop_first(), tail, parts);
                assert forall|other: Seq<Seq<char>>| #[trigger]
                    fits(pieces, other, text) implies at_least_as_greedy(parts, other) by {
                    assert(fits(pieces.drop_first(), other, tail));
                }
                assert(captured(pieces, text, parts));
            },
            _ => {
                let best = lemma_longest_first_part(pieces, text, text.len() as int);
                let head = best[0];
                let tail = text.subrange(head.len() as int, text.len() as int);
                assert(fits(pieces.drop_first(), best.drop_first(), tail));
                lemma_captured_exists(pieces.drop_first(), tail);
                let rest = choose|parts: Seq<Seq<char>>|
                    captured(pieces.drop_first(), tail, parts);
                let parts = seq![head] + rest;
                assert(parts.drop_first() =~= rest);
                assert(fits(pieces, parts, text));
                assert forall|other: Seq<Seq<char>>| #[trigger]
                    fits(pieces, other, text) implies at_least_as_greedy(parts, other) by {
                    if other[0].len() == head.len() {
                        assert(other[0] =~= head);
                        assert(fits(pieces.drop_first(), other.drop_first(), tail));
                    }
                }
                assert(captured(pieces, text, parts));
            },
        }
    }
}

/// Where the literal text before a placeholder ends, if it begins at `i`: a dot
/// directly before an asterisk belongs to the placeholder.
pub open spec fn gap_end(path: Seq<char>, i: int, mark: Mark) -> int {
    if mark.name is None && i < mark.start && path[mark.start - 1] == '.' {
        mark.start - 1
    } else {
        mark.start
    }
}

/// The pieces from `i` on are the text up to the next placeholder, that
/// placeholder, and the pieces behind it.
proof fn lemma_next_mark(path: Seq<char>, i: int)
    requires
        0 <= i <= path.len(),
    ensures
        ({
            let marks = marks_from(path, i);
            if marks.len() == 0 {
                pieces_from(path, i) == literal(path.subrange(i, path.len() as int))
            } else {
                let mark = marks[0];
                &&& i <= mark.start < mark.end <= path.len()
                &&& mark.name is None ==> path[mark.start] == '*'
                &&& mark.name is Some ==> path[mark.start] == ':'
                &&& marks.drop_first() == marks_from(path, mark.end)
                &&& pieces_from(path, i) == literal(path.subrange(i, gap_end(path, i, mark)))
                    + seq![mark_piece(mark)] + pieces_from(path, mark.end)
            }
        }),
    decreases path.len() - i,
{
    if i < path.len() {
        if path[i] == '*' {
            assert(marks_from(path, i).drop_first() =~= marks_from(path, i + 1));
            assert(literal(path.subrange(i, i)) + seq![Piece::Rest] =~= seq![Piece::Rest]);
        } else if opens_param(path, i) {
            lemma_segment_end(path, i + 1);
            let end = segment_end(path, i + 1);
            assert(marks_from(path, i).drop_first() =~= marks_from(path, end));
            assert(segment_end(path, i + 1) == segment_end(path, i + 2));
            lemma_segment_end(path, i + 2);
            assert(literal(path.subrange(i, i)) + seq![Piece::Segment] =~= seq![Piece::Segment]);
        } else if opens_dot_star(path, i) {
            assert(marks_from(path, i) == marks_from(path, i + 1));
            assert(marks_from(path, i).drop_first() =~= marks_from(path, i + 2));
            assert(literal(path.subrange(i, i)) + seq![Piece::Rest] =~= seq![Piece::Rest]);
        } else {
            lemma_next_mark(path, i + 1);
            let marks = marks_from(path, i);
            if marks.len() == 0 {
                assert(pieces_from(path, i) =~= literal(path.subrange(i, path.len() as int)));
            } else {
                let mark = marks[0];
                assert(gap_end(path, i, mark) == gap_end(path, i + 1, mark));
                assert(pieces_from(path, i) =~= literal(
                    path.subrange(i, gap_end(path, i, mark)),
                ) + seq![mark_piece(mark)] + pieces_from(path, mark.end));
            }
        }
    } else {
        assert(pieces_from(path, i) =~= literal(path.subrange(i, path.len() as int)));
    }
}

/// A pattern without placeholders is its own text, and nothing but it.
pub proof fn lemma_plain(path: Seq<char>)
    requires
        names(path).len() == 0,
    ensures
        pieces(path) == literal(path),
{
    lemma_next_mark(path, 0);
    assert(path.subrange(0, path.len() as int) =~= path);
}

/// The pieces of the pattern `/*`, and its regular expression.
pub proof fn lemma_catch_all()
    ensures
        pieces("/*"@) == seq![Piece::Char('/'), Piece::Rest],
        names("/*"@) == seq!["*"@],
        route_regex("/*"@) == CATCH_ALL_RE@,
{
    reveal_strlit("/*");
    reveal_strlit("(?s)^");
    reveal_strlit("(.*)");
    reveal_strlit("$");
    reveal_strlit("(?s)^/(.*)$");
    let path = "/*"@;
    assert(pieces_from(path, 2) =~= Seq::<Piece>::empty());
    assert(pieces_from(path, 1) =~= seq![Piece::Rest]);
    assert(pieces_from(path, 0) =~= seq![Piece::Char('/'), Piece::Rest]);
    assert(marks_from(path, 2) =~= Seq::<Mark>::empty());
    assert(marks_from(path, 1) =~= seq![Mark { start: 1, end: 2, name: None }]);
    assert(names(path) =~= seq!["*"@]);
    lemma_regex_text_first(pieces(path));
    assert(pieces(path).drop_first() =~= seq![Piece::Rest]);
    lemma_regex_text_single(Piece::Rest);
    assert(regex_text(pieces(path)) =~= seq!['/'] + "(.*)"@);
    assert(route_regex(path) =~= CATCH_ALL_RE@);
}

/// Only the patterns `/*` and `/.*` have these pieces.
pub proof fn lemma_is_catch_all(path: Seq<char>)
    ensures
        pieces(path) == pieces("/*"@) <==> path == "/*"@ || path == "/.*"@,
{
    lemma_catch_all();
    reveal_strlit("/*");
    reveal_strlit("/.*");
    let expected = seq![Piece::Char('/'), Piece::Rest];
    assert(expected.drop_first() =~= seq![Piece::Rest]);
    if pieces(path) == expected {
        assert(path.len() > 0);
        assert(pieces(path)[0] == Piece::Char('/'));
        assert(path[0] == '/');
        let tail = pieces_from(path, 1);
        assert(pieces(path).drop_first() =~= tail);
        assert(tail[0] == Piece::Rest);
        assert(path.len() > 1);
        let end: int = if path[1] == '*' {
            2
        } else {
            3
        };
        assert(path[1] == '*' || opens_dot_star(path, 1));
        assert(tail.drop_first() =~= pieces_from(path, end));
        assert(pieces_from(path, end).len() == 0);
        if path.len() > end {
            assert(pieces_from(path, end).len() > 0);
        }
        if path[1] == '*' {
            assert(path =~= "/*"@);
        } else {
            assert(path =~= "/.*"@);
        }
    }
    if path == "/.*"@ {
        assert(pieces_from(path, 3) =~= Seq::<Piece>::empty());
        assert(pieces_from(path, 1) =~= seq![Piece::Rest]);
        assert(pieces_from(path, 0) =~= expected);
    }
}

/// The parameter names of `path` from `i` on.
pub open spec fn names_from(path: Seq<char>, i: int) -> Seq<Seq<char>> {
    let marks = marks_from(path, i);
    Seq::new(marks.len(), |k: int| mark_name(marks[k]))
}

proof fn lemma_segment_end_shift(prefix: Seq<char>, rest: Seq<char>, j: int)
    requires
        0 <= j <= rest.len(),
    ensures
        segment_end(prefix + rest, prefix.len() + j) == prefix.len() + segment_end(rest, j),
    decreases rest.len() - j,
{
    if j < rest.len() {
        assert((prefix + rest)[prefix.len() + j] == rest[j]);
        if rest[j] != '/' {
            lemma_segment_end_shift(prefix, rest, j + 1);
        }
    }
}

proof fn lemma_segment_end_prefix(prefix: Seq<char>, rest: Seq<char>, i: int)
    requires
        0 <= i < prefix.len(),
        prefix.last() == '/',
    ensures
        segment_end(prefix + rest, i) == segment_end(prefix, i) < prefix.len(),
    decreases prefix.len() - i,
{
    assert((prefix + rest)[i] == prefix[i]);
    if prefix[i] != '/' {
        lemma_segment_end_prefix(prefix, rest, i + 1);
    }
}

/// What comes before a pattern does not change how it reads.
pub proof fn lemma_pieces_shift(prefix: Seq<char>, rest: Seq<char>, j: int)
    requires
        0 <= j <= rest.len(),
    ensures
        pieces_from(prefix + rest, prefix.len() + j) == pieces_from(rest, j),
        names_from(prefix + rest, prefix.len() + j) == names_from(rest, j),
    decreases rest.len() - j,
{
    let path = prefix + rest;
    let i = prefix.len() + j;
    if j < rest.len() {
        assert(path[i] == rest[j]);
        assert(opens_param(path, i) == opens_param(rest, j)) by {
            if j + 1 < rest.len() {
                assert(path[i + 1] == rest[j + 1]);
            }
        }
        assert(opens_dot_star(path, i) == opens_dot_star(rest, j)) by {
            if j + 1 < rest.len() {
                assert(path[i + 1] == rest[j + 1]);
            }
        }
        if rest[j] == '*' {
            lemma_pieces_shift(prefix, rest, j + 1);
            assert(names_from(path, i) =~= seq!["*"@] + names_from(path, i + 1));
            assert(names_from(rest, j) =~= seq!["*"@] + names_from(rest, j + 1));
        } else if opens_param(rest, j) {
            lemma_segment_end(rest, j + 1);
            lemma_segment_end_shift(prefix, rest, j + 1);
            let end = segment_end(rest, j + 1);
            lemma_pieces_shift(prefix, rest, end);
            let name = rest.subrange(j + 1, end);
            assert(path.subrange(i + 1, prefix.len() + end) =~= name);
            assert(names_from(path, i) =~= seq![name] + names_from(path, prefix.len() + end));
            assert(names_from(rest, j) =~= seq![name] + names_from(rest, end));
        } else if opens_dot_star(rest, j) {
            assert(path[i + 1] == rest[j + 1]);
            lemma_pieces_shift(prefix, rest, j + 2);
            assert(names_from(path, i) =~= seq!["*"@] + names_from(path, i + 2));
            assert(names_from(rest, j) =~= seq!["*"@] + names_from(rest, j + 2));
        } else {
            lemma_pieces_shift(prefix, rest, j + 1);
            assert(names_from(path, i) =~= names_from(path, i + 1));
            assert(names_from(rest, j) =~= names_from(rest, j + 1));
        }
    }
}

proof fn lemma_pieces_prefix(prefix: Seq<char>, rest: Seq<char>, i: int)
    requires
        0 <= i <= prefix.len(),
        prefix.len() > 0,
        prefix.last() == '/',
    ensures
        pieces_from(prefix + rest, i) == pieces_from(prefix, i) + pieces(rest),
        names_from(prefix + rest, i) == names_from(prefix, i) + names(rest),
    decreases prefix.len() - i,
{
    let path = prefix + rest;
    if i == prefix.len() {
        lemma_pieces_shift(prefix, rest, 0);
        assert(pieces_from(path, i) =~= pieces_from(prefix, i) + pieces(rest));
        assert(names_from(path, i) =~= names_from(prefix, i) + names(rest));
    } else {
        assert(path[i] == prefix[i]);
        assert(opens_param(path, i) == opens_param(prefix, i)) by {
            if i + 1 < prefix.len() {
                assert(path[i + 1] == prefix[i + 1]);
            }
        }
        assert(opens_dot_star(path, i) == opens_dot_star(prefix, i)) by {
            if i + 1 < prefix.len() {
                assert(path[i + 1] == prefix[i + 1]);
            }
        }
        if prefix[i] == '*' {
            lemma_pieces_prefix(prefix, rest, i + 1);
            assert(names_from(path, i) =~= seq!["*"@] + names_from(path, i + 1));
            assert(names_from(prefix, i) =~= seq!["*"@] + names_from(prefix, i + 1));
        } else if opens_param(prefix, i) {
            lemma_segment_end(prefix, i + 1);
            lemma_segment_end_prefix(prefix, rest, i + 1);
            let end = segment_end(prefix, i + 1);
            lemma_pieces_prefix(prefix, rest, end);
            let name = prefix.subrange(i + 1, end);
            assert(path.subrange(i + 1, end) =~= name);
            assert(names_from(path, i) =~= seq![name] + names_from(path, end));
            assert(names_from(prefix, i) =~= seq![name] + names_from(prefix, end));
        } else if opens_dot_star(prefix, i) {
            assert(path[i + 1] == prefix[i + 1]);
            lemma_pieces_prefix(prefix, rest, i + 2);
            assert(names_from(path, i) =~= seq!["*"@] + names_from(path, i + 2));
            assert(names_from(prefix, i) =~= seq!["*"@] + names_from(prefix, i + 2));
        } else {
            lemma_pieces_prefix(prefix, rest, i + 1);
            assert(names_from(path, i) =~= names_from(path, i + 1));
            assert(names_from(prefix, i) =~= names_from(prefix, i + 1));
        }
        assert(pieces_from(path, i) =~= pieces_from(prefix, i) + pieces(rest));
        assert(names_from(path, i) =~= names_from(prefix, i) + names(rest));
    }
}

/// A pattern is read segment by segment: what stands before a `/` does not
/// change how what stands behind it reads.
pub proof fn lemma_pieces_compose(prefix: Seq<char>, rest: Seq<char>)
    requires
        prefix.len() > 0,
        prefix.last() == '/',
    ensures
        pieces(prefix + rest) == pieces(prefix) + pieces(rest),
        names(prefix + rest) == names(prefix) + names(rest),
{
    lemma_pieces_prefix(prefix, rest, 0);
}

proof fn lemma_pieces_after_plain_from(prefix: Seq<char>, rest: Seq<char>, i: int)
    requires
        0 <= i <= prefix.len(),
        marks_from(prefix, i).len() == 0,
        prefix.len() > 0 ==> prefix.last() != ':',
        prefix.len() > 0 && prefix.last() == '.' && rest.len() > 0 ==> rest[0] != '*',
    ensures
        pieces_from(prefix + rest, i) == literal(prefix.subrange(i, prefix.len() as int)) + pieces(
            rest,
        ),
        names_from(prefix + rest, i) == names(rest),
    decreases prefix.len() - i,
{
    let path = prefix + rest;
    let text = prefix.subrange(i, prefix.len() as int);
    if i == prefix.len() {
        lemma_pieces_shift(prefix, rest, 0);
        assert(pieces_from(path, i) =~= literal(text) + pieces(rest));
    } else {
        assert(path[i] == prefix[i]);
        assert(prefix[i] != '*');
        assert(!opens_param(prefix, i));
        assert(!opens_param(path, i)) by {
            if i + 1 < prefix.len() {
                assert(path[i + 1] == prefix[i + 1]);
            }
        }
        assert(marks_from(prefix, i + 1).len() == 0);
        assert(!opens_dot_star(path, i)) by {
            if i + 1 < prefix.len() {
                assert(path[i + 1] == prefix[i + 1]);
            } else if rest.len() > 0 {
                assert(path[i + 1] == rest[0]);
            }
        }
        lemma_pieces_after_plain_from(prefix, rest, i + 1);
        assert(pieces_from(path, i) =~= literal(text) + pieces(rest));
        assert(names_from(path, i) =~= names_from(path, i + 1));
    }
}

/// Text without placeholders before a pattern is literal, unless its last
/// character is taken for the beginning of a placeholder.
pub proof fn lemma_pieces_after_plain(prefix: Seq<char>, rest: Seq<char>)
    requires
        names(prefix).len() == 0,
        prefix.len() > 0 ==> prefix.last() != ':',
        prefix.len() > 0 && prefix.last() == '.' && rest.len() > 0 ==> rest[0] != '*',
    ensures
        pieces(prefix + rest) == literal(prefix) + pieces(rest),
        names(prefix + rest) == names(rest),
{
    lemma_pieces_after_plain_from(prefix, rest, 0);
    assert(prefix.subrange(0, prefix.len() as int) =~= prefix);
}

/// A colon with a name behind it is one placeholder.
pub proof fn lemma_pieces_param(name: Seq<char>)
    requires
        name.len() > 0,
        !name.contains('/'),
    ensures
        pieces(seq![':'] + name) == seq![Piece::Segment],
        names(seq![':'] + name) == seq![name],
{
    let path = seq![':'] + name;
    assert(path[1] == name[0]);
    lemma_segment_end(path, 1);
    let end = segment_end(path, 1);
    if end < path.len() {
        assert(path[end] == name[end - 1]);
    }
    assert(path.subrange(1, end) =~= name);
    assert(pieces_from(path, end) =~= Seq::<Piece>::empty());
    assert(pieces(path) =~= seq![Piece::Segment]);
    assert(marks_from(path, end) =~= Seq::<Mark>::empty());
    assert(names(path) =~= seq![name]);
}

/// An asterisk is one placeholder, and so is one with a dot before it.
pub proof fn lemma_pieces_star()
    ensures
        pieces("*"@) == seq![Piece::Rest],
        names("*"@) == seq!["*"@],
        pieces(".*"@) == seq![Piece::Rest],
        names(".*"@) == seq!["*"@],
{
    reveal_strlit(".*");
    assert(pieces_from(".*"@, 2) =~= Seq::<Piece>::empty());
    assert(pieces(".*"@) =~= seq![Piece::Rest]);
    assert(marks_from(".*"@, 2) =~= Seq::<Mark>::empty());
    assert(marks_from(".*"@, 1) =~= seq![Mark { start: 1, end: 2, name: None }]);
    assert(names(".*"@) =~= seq!["*"@]);
    reveal_strlit("*");
    assert(pieces_from("*"@, 1) =~= Seq::<Piece>::empty());
    assert(pieces("*"@) =~= seq![Piece::Rest]);
    assert(marks_from("*"@, 1) =~= Seq::<Mark>::empty());
    assert(names("*"@) =~= seq!["*"@]);
}

/// A pattern has as many names as placeholders.
pub proof fn lemma_names_holes(path: Seq<char>, i: int)
    requires
        0 <= i,
    ensures
        marks_from(path, i).len() == holes(pieces_from(path, i)),
    decreases path.len() - i,
{
    if i < path.len() {
        if path[i] == '*' {
            lemma_names_holes(path, i + 1);
            assert(pieces_from(path, i).drop_first() =~= pieces_from(path, i + 1));
        } else if opens_param(path, i) {
            lemma_segment_end(path, i + 1);
            let end = segment_end(path, i + 1);
            lemma_names_holes(path, end);
            assert(pieces_from(path, i).drop_first() =~= pieces_from(path, end));
        } else if opens_dot_star(path, i) {
            lemma_names_holes(path, i + 2);
            assert(marks_from(path, i) == marks_from(path, i + 1));
            assert(pieces_from(path, i).drop_first() =~= pieces_from(path, i + 2));
        } else {
            lemma_names_holes(path, i + 1);
            assert(pieces_from(path, i).drop_first() =~= pieces_from(path, i + 1));
        }
    }
}

/// Literal text fits itself and leaves the rest to what follows.
pub proof fn lemma_fits_literal(
    prefix: Seq<char>,
    pieces: Seq<Piece>,
    parts: Seq<Seq<char>>,
    text: Seq<char>,
)
    ensures
        fits(literal(prefix) + pieces, parts, text) <==> prefix.is_prefix_of(text) && fits(
            pieces,
            parts,
            text.subrange(prefix.len() as int, text.len() as int),
        ),
    decreases prefix.len(),
{
    let whole = literal(prefix) + pieces;
    if prefix.len() == 0 {
        assert(whole =~= pieces);
        assert(text.subrange(0, text.len() as int) =~= text);
    } else {
        assert(whole.drop_first() =~= literal(prefix.drop_first()) + pieces);
        assert(whole[0] == Piece::Char(prefix[0]));
        if text.len() > 0 && text[0] == prefix[0] {
            lemma_fits_literal(prefix.drop_first(), pieces, parts, text.drop_first());
            assert(prefix.is_prefix_of(text) == prefix.drop_first().is_prefix_of(
                text.drop_first(),
            )) by {
                if prefix.is_prefix_of(text) {
                    assert(prefix.drop_first() =~= text.drop_first().subrange(
                        0,
                        prefix.len() - 1,
                    ));
                }
                if prefix.drop_first().is_prefix_of(text.drop_first()) {
                    assert forall|k: int| 0 <= k < prefix.len() implies prefix[k] == text[k] by {
                        if k > 0 {
                            assert(prefix.drop_first()[k - 1] == text.drop_first()[k - 1]);
                        }
                    }
                    assert(prefix =~= text.subrange(0, prefix.len() as int));
                }
            }
            if prefix.is_prefix_of(text) {
                assert(text.drop_first().subrange(prefix.len() - 1, text.len() - 1)
                    =~= text.subrange(prefix.len() as int, text.len() as int));
            }
        } else {
            if prefix.is_prefix_of(text) {
                assert(text[0] == prefix[0]);
            }
        }
    }
}

proof fn lemma_encode_concat(left: Seq<char>, right: Seq<char>)
    ensures
        vstd::utf8::encode_utf8(left + right) == vstd::utf8::encode_utf8(left)
            + vstd::utf8::encode_utf8(right),
    decreases left.len(),
{
    if left.len() == 0 {
        assert(left + right =~= right);
        assert(vstd::utf8::encode_utf8(left + right) =~= vstd::utf8::encode_utf8(left)
            + vstd::utf8::encode_utf8(right));
    } else {
        assert((left + right).drop_first() =~= left.drop_first() + right);
        lemma_encode_concat(left.drop_first(), right);
        assert(vstd::utf8::encode_utf8(left + right) =~= vstd::utf8::encode_utf8(left)
            + vstd::utf8::encode_utf8(right));
    }
}

proof fn lemma_encode_injective(left: Seq<char>, right: Seq<char>)
    requires
        vstd::utf8::encode_utf8(left) == vstd::utf8::encode_utf8(right),
    ensures
        left == right,
{
    vstd::utf8::encode_utf8_decode_utf8(left);
    vstd::utf8::encode_utf8_decode_utf8(right);
}

proof fn lemma_encode_boundary(left: Seq<char>, right: Seq<char>)
    ensures
        vstd::utf8::is_char_boundary(
            vstd::utf8::encode_utf8(left + right),
            vstd::utf8::encode_utf8(left).len() as int,
        ),
    decreases left.len(),
{
    let whole = left + right;
    let bytes = vstd::utf8::encode_utf8(whole);
    vstd::utf8::encode_utf8_valid_utf8(whole);
    lemma_encode_concat(left, right);
    if left.len() > 0 {
        vstd::utf8::encode_utf8_first_scalar(whole);
        assert(whole.drop_first() =~= left.drop_first() + right);
        assert(vstd::utf8::pop_first_scalar(bytes) =~= vstd::utf8::encode_utf8(whole.drop_first()));
        lemma_encode_boundary(left.drop_first(), right);
    }
}

/// The characters of `path` from `first` up to `last`, which begin at byte
/// `from` and end before byte `to`.
fn slice<'a>(
    path: &'a str,
    from: usize,
    to: usize,
    Ghost(first): Ghost<int>,
    Ghost(last): Ghost<int>,
) -> (r: &'a str)
    requires
        0 <= first <= last <= path@.len(),
        from == vstd::utf8::encode_utf8(path@.subrange(0, first)).len(),
        to == vstd::utf8::encode_utf8(path@.subrange(0, last)).len(),
    ensures
        r@ == path@.subrange(first, last),
{
    proof {
        let head = path@.subrange(0, last);
        let tail = path@.subrange(last, path@.len() as int);
        assert(head + tail =~= path@);
        lemma_encode_boundary(head, tail);
        lemma_encode_concat(head, tail);
    }
    let (head, _) = path.split_at(to);
    proof {
        assert(vstd::utf8::encode_utf8(head@) =~= vstd::utf8::encode_utf8(path@.subrange(0, last)));
        lemma_encode_injective(head@, path@.subrange(0, last));
        let front = path@.subrange(0, first);
        let back = path@.subrange(first, last);
        assert(front + back =~= head@);
        lemma_encode_boundary(front, back);
        lemma_encode_concat(front, back);
    }
    let (_, middle) = head.split_at(from);
    proof {
        assert(vstd::utf8::encode_utf8(middle@) =~= vstd::utf8::encode_utf8(path@.subrange(first, last)));
        lemma_encode_injective(middle@, path@.subrange(first, last));
    }
    middle
}

/// `text` without the dot at its end, if there is one.
fn without_last_dot(text: &str) -> (r: &str)
    ensures
        r@ == (if text@.len() > 0 && text@.last() == '.' {
            text@.drop_last()
        } else {
            text@
        }),
{
    let n: usize = text.unicode_len();
    if n > 0 && text.get_char(n - 1) == '.' {
        text.substring_char(0, n - 1)
    } else {
        text
    }
}

/// Turns a route pattern into the text of its regular expression, without
/// anchors, and the names of its parameters.
pub fn generate_common_regex_str(path: &str) -> (r: (String, Vec<String>))
    ensures
        r.0@ == regex_text(pieces(path@)),
        texts(r.1@) == names(path@),
{
    let mut regex_str = String::new();
    let mut param_names: Vec<String> = Vec::new();
    let mut pos: usize = 0;
    let matches: Vec<ParamMatch> = match Regex::new(PATH_PARAMS_RE) {
        Ok(re) => placeholder_matches(&re, path),
        Err(_) => vstd::pervasive::unreached(),
    };
    let ghost marks = marks_from(path@, 0);
    let ghost mut at: int = 0;
    let mut k: usize = 0;
    proof {
        assert(path@.subrange(0, 0) =~= Seq::<char>::empty());
        assert(marks.skip(0) =~= marks);
        assert(texts(param_names@) =~= names(path@).take(0));
    }
    while k < matches.len()
        invariant
            k <= matches.len(),
            matches.len() == marks.len(),
            marks == marks_from(path@, 0),
            forall|i: int|
                0 <= i < matches.len() ==> crate::regexes::is_match_of(
                    #[trigger] matches@[i],
                    path@,
                    marks[i],
                ),
            0 <= at <= path@.len(),
            pos == vstd::utf8::encode_utf8(path@.subrange(0, at)).len(),
            marks.skip(k as int) == marks_from(path@, at),
            regex_str@ + regex_text(pieces_from(path@, at)) == regex_text(pieces(path@)),
            texts(param_names@) == names(path@).take(k as int),
        decreases matches.len() - k,
    {
        let found = &matches[k];
        let ghost mark = marks[k as int];
        proof {
            lemma_next_mark(path@, at);
            assert(marks.skip(k as int)[0] == mark);
            assert(marks.skip(k as int).drop_first() =~= marks.skip(k + 1));
            let gap = literal(path@.subrange(at, gap_end(path@, at, mark)));
            let rest = pieces_from(path@, mark.end);
            lemma_regex_text_literal(path@.subrange(at, gap_end(path@, at, mark)));
            lemma_regex_text_concat(gap + seq![mark_piece(mark)], rest);
            lemma_regex_text_concat(gap, seq![mark_piece(mark)]);
            lemma_regex_text_single(mark_piece(mark));
        }
        let mut path_s = slice(path, pos, found.start, Ghost(at), Ghost(mark.start));
        if found.name.is_none() {
            path_s = without_last_dot(path_s);
        }
        assert(path_s@ =~= path@.subrange(at, gap_end(path@, at, mark)));
        let ghost before = regex_str@;
        let ghost names_before = param_names@;
        regex_str.append(regex::escape(path_s).as_str());
        match &found.name {
            None => {
                regex_str.append("(.*)");
                param_names.push("*".to_owned());
            },
            Some(name) => {
                regex_str.append("([^/]+)");
                param_names.push(name.clone());
            },
        }
        pos = found.end;
        k = k + 1;
        proof {
            at = mark.end;
            assert(regex_str@ + regex_text(pieces_from(path@, at)) =~= before + (escaped(path_s@)
                + piece_regex(mark_piece(mark)) + regex_text(pieces_from(path@, at))));
            assert(param_names@.drop_last() =~= names_before);
            assert(param_names@.last()@ == mark_name(mark));
            assert(texts(param_names@) =~= texts(names_before).push(mark_name(mark)));
            assert(names(path@).take(k as int) =~= names(path@).take(k - 1).push(mark_name(mark)));
        }
    }
    proof {
        assert(marks.skip(k as int).len() == 0);
        lemma_next_mark(path@, at);
        lemma_regex_text_literal(path@.subrange(at, path@.len() as int));
        assert(path@.subrange(0, path@.len() as int) =~= path@);
        assert(names(path@).take(k as int) =~= names(path@));
    }
    let left_over_path_s = slice(path, pos, path.as_bytes().len(), Ghost(at), Ghost(path@.len() as int));
    regex_str.append(regex::escape(left_over_path_s).as_str());
    (regex_str, param_names)
}

} // verus!

//! How route patterns, texts that fit them and request paths are read, from the
//! front. These laws settle what a pattern or a path of any length means.

use crate::decode;
use crate::pattern::{self, Piece};
use crate::regexes;
use vstd::prelude::*;

verus! {

// Route patterns.

/// The empty pattern has no pieces and no names.
pub proof fn law_empty_pattern()
    ensures
        pattern::pieces(Seq::empty()) == Seq::<Piece>::empty(),
        pattern::names(Seq::empty()) == Seq::<Seq<char>>::empty(),
{
    assert(pattern::names(Seq::empty()) =~= Seq::<Seq<char>>::empty());
}

/// An asterisk in front is a placeholder for any text, under the name `*`.
pub proof fn law_star_in_front(rest: Seq<char>)
    ensures
        pattern::pieces(seq!['*'] + rest) == seq![Piece::Rest] + pattern::pieces(rest),
        pattern::names(seq!['*'] + rest) == seq![seq!['*']] + pattern::names(rest),
{
    reveal_strlit("*");
    let path = seq!['*'] + rest;
    pattern::lemma_pieces_shift(seq!['*'], rest, 0);
    assert("*"@ =~= seq!['*']);
    assert(pattern::names(path) =~= seq!["*"@] + pattern::names_from(path, 1));
}

/// A dot and an asterisk in front are one placeholder for any text, under the
/// name `*`.
pub proof fn law_dot_star_in_front(rest: Seq<char>)
    ensures
        pattern::pieces(seq!['.', '*'] + rest) == seq![Piece::Rest] + pattern::pieces(rest),
        pattern::names(seq!['.', '*'] + rest) == seq![seq!['*']] + pattern::names(rest),
{
    reveal_strlit("*");
    let path = seq!['.', '*'] + rest;
    pattern::lemma_pieces_shift(seq!['.', '*'], rest, 0);
    assert("*"@ =~= seq!['*']);
    assert(pattern::opens_dot_star(path, 0));
    assert(pattern::marks_from(path, 0) == pattern::marks_from(path, 1));
    assert(pattern::names(path) =~= seq!["*"@] + pattern::names_from(path, 2));
}

/// A colon in front, and the name behind it up to the next `/` or the end, are one
/// placeholder for one or more characters other than `/`, under that name.
pub proof fn law_param_in_front(name: Seq<char>, rest: Seq<char>)
    requires
        name.len() > 0,
        !name.contains('/'),
        rest.len() > 0 ==> rest[0] == '/',
    ensures
        pattern::pieces(seq![':'] + name + rest) == seq![Piece::Segment] + pattern::pieces(rest),
        pattern::names(seq![':'] + name + rest) == seq![name] + pattern::names(rest),
{
    let front = seq![':'] + name;
    let path = front + rest;
    pattern::lemma_pieces_shift(front, rest, 0);
    assert(path[1] == name[0]);
    assert(name.contains(name[0]));
    assert(pattern::opens_param(path, 0));
    pattern::lemma_segment_end(path, 1);
    let end = pattern::segment_end(path, 1);
    if end < front.len() {
        assert(path[end] == name[end - 1]);
        assert(name.contains(name[end - 1]));
    }
    if end > front.len() {
        assert(path[front.len() as int] == rest[0]);
    }
    assert(end == front.len());
    assert(path.subrange(1, end) =~= name);
    assert(pattern::names(path) =~= seq![name] + pattern::names_from(path, end));
}

/// Any other character in front stands for itself: one that is no asterisk, no
/// colon with a name behind it and no dot with an asterisk behind it.
pub proof fn law_character_in_front(c: char, rest: Seq<char>)
    requires
        c != '*',
        c == ':' && rest.len() > 0 ==> rest[0] == '/',
        c == '.' && rest.len() > 0 ==> rest[0] != '*',
    ensures
        pattern::pieces(seq![c] + rest) == seq![Piece::Char(c)] + pattern::pieces(rest),
        pattern::names(seq![c] + rest) == pattern::names(rest),
{
    let path = seq![c] + rest;
    pattern::lemma_pieces_shift(seq![c], rest, 0);
    if rest.len() > 0 {
        assert(path[1] == rest[0]);
    }
    assert(!pattern::opens_param(path, 0));
    assert(!pattern::opens_dot_star(path, 0));
    assert(pattern::names(path) =~= pattern::names_from(path, 1));
}

// The regular expression of a pattern.

/// The regular expression of a pattern is made of those of its pieces: `([^/]+)`
/// for a name, `(.*)` for an asterisk, and else the character, with a backslash
/// before it where it would mean something else. It spans the whole text, and its
/// dots match newlines, too.
pub proof fn law_regex_of_pieces(path: Seq<char>, c: char, rest: Seq<Piece>)
    ensures
        pattern::route_regex(path) == "(?s)^"@ + pattern::regex_text(pattern::pieces(path)) + "$"@,
        pattern::regex_text(Seq::empty()) == Seq::<char>::empty(),
        pattern::regex_text(seq![Piece::Segment] + rest) == "([^/]+)"@ + pattern::regex_text(rest),
        pattern::regex_text(seq![Piece::Rest] + rest) == "(.*)"@ + pattern::regex_text(rest),
        pattern::regex_text(seq![Piece::Char(c)] + rest) == (if "\\.+*?()|[]{}^$#&-~"@.contains(c) {
            seq!['\\', c]
        } else {
            seq![c]
        }) + pattern::regex_text(rest),
{
    reveal_strlit("\\.+*?()|[]{}^$#&-~");
    let metas = "\\.+*?()|[]{}^$#&-~"@;
    assert forall|piece: Piece| #[trigger]
        pattern::regex_text(seq![piece] + rest) == pattern::piece_regex(piece)
            + pattern::regex_text(rest) by {
        pattern::lemma_regex_text_concat(seq![piece], rest);
        pattern::lemma_regex_text_single(piece);
    }
    assert(pattern::is_meta(c) == metas.contains(c)) by {
        assert(metas[0] == '\\' && metas[1] == '.' && metas[2] == '+' && metas[3] == '*');
        assert(metas[4] == '?' && metas[5] == '(' && metas[6] == ')' && metas[7] == '|');
        assert(metas[8] == '[' && metas[9] == ']' && metas[10] == '{' && metas[11] == '}');
        assert(metas[12] == '^' && metas[13] == '$' && metas[14] == '#' && metas[15] == '&');
        assert(metas[16] == '-' && metas[17] == '~');
    }
}

/// Placeholders are found by one regular expression, and a route for all paths that
/// begin with `/` is known by another, which is that of the pattern `/*`.
pub proof fn law_fixed_regexes()
    ensures
        regexes::PATH_PARAMS_RE@ == r"(?s)(?::([^/]+))|(?:\*)"@,
        regexes::CATCH_ALL_RE@ == "(?s)^/(.*)$"@,
        pattern::route_regex("/*"@) == "(?s)^/(.*)$"@,
{
    pattern::lemma_catch_all();
}

// Texts that fit a pattern.

/// Where no pieces are left, just the empty text fits.
pub proof fn law_nothing_fits_nothing(text: Seq<char>, parts: Seq<Seq<char>>)
    ensures
        pattern::matches(Seq::empty(), text) <==> text.len() == 0,
        pattern::captured(Seq::empty(), text, parts) <==> text.len() == 0 && parts.len() == 0,
{
    let none = Seq::<Piece>::empty();
    if text.len() == 0 {
        assert(pattern::fits(none, Seq::empty(), text));
    }
}

/// A character fits itself and nothing else, and captures nothing.
pub proof fn law_character_fits_itself(
    c: char,
    rest: Seq<Piece>,
    text: Seq<char>,
    parts: Seq<Seq<char>>,
)
    ensures
        pattern::matches(seq![Piece::Char(c)] + rest, text) <==> text.len() > 0 && text[0] == c
            && pattern::matches(rest, text.skip(1)),
        pattern::captured(seq![Piece::Char(c)] + rest, text, parts) <==> text.len() > 0 && text[0]
            == c && pattern::captured(rest, text.skip(1), parts),
{
    let pieces = seq![Piece::Char(c)] + rest;
    assert(pieces.drop_first() =~= rest);
    if text.len() > 0 {
        assert(text.drop_first() =~= text.skip(1));
    }
    assert forall|other: Seq<Seq<char>>|
        #![trigger pattern::fits(pieces, other, text)]
        #![trigger pattern::fits(rest, other, text.skip(1))]
        pattern::fits(pieces, other, text) <==> text.len() > 0 && text[0] == c && pattern::fits(
            rest,
            other,
            text.skip(1),
        ) by {}
}

/// A placeholder with a name fits one or more characters, none of them `/`, with
/// what follows fitting the rest.
pub proof fn law_segment_fits(rest: Seq<Piece>, text: Seq<char>)
    ensures
        pattern::matches(seq![Piece::Segment] + rest, text) <==> exists|n: int|
            0 < n <= text.len() && !text.take(n).contains('/') && #[trigger] pattern::matches(
                rest,
                text.skip(n),
            ),
{
    lemma_hole_fits(Piece::Segment, rest, text);
}

/// A placeholder for any text fits as many characters as you like, with what
/// follows fitting the rest.
pub proof fn law_rest_fits(rest: Seq<Piece>, text: Seq<char>)
    ensures
        pattern::matches(seq![Piece::Rest] + rest, text) <==> exists|n: int|
            0 <= n <= text.len() && #[trigger] pattern::matches(rest, text.skip(n)),
{
    lemma_hole_fits(Piece::Rest, rest, text);
}

proof fn lemma_hole_fits(hole: Piece, rest: Seq<Piece>, text: Seq<char>)
    requires
        !(hole is Char),
    ensures
        pattern::matches(seq![hole] + rest, text) <==> exists|n: int|
            0 <= n <= text.len() && pattern::admits(hole, text.take(n))
                && #[trigger] pattern::matches(rest, text.skip(n)),
{
    let pieces = seq![hole] + rest;
    assert(pieces.drop_first() =~= rest);
    if pattern::matches(pieces, text) {
        let parts = choose|parts: Seq<Seq<char>>| pattern::fits(pieces, parts, text);
        let n = parts[0].len() as int;
        assert(parts[0] =~= text.take(n));
        assert(text.subrange(n, text.len() as int) =~= text.skip(n));
        assert(pattern::fits(rest, parts.drop_first(), text.skip(n)));
        assert(pattern::matches(rest, text.skip(n)));
    }
    if exists|n: int|
        0 <= n <= text.len() && pattern::admits(hole, text.take(n)) && #[trigger] pattern::matches(
            rest,
            text.skip(n),
        ) {
        let n = choose|n: int|
            0 <= n <= text.len() && pattern::admits(hole, text.take(n))
                && #[trigger] pattern::matches(rest, text.skip(n));
        let tail = choose|parts: Seq<Seq<char>>| pattern::fits(rest, parts, text.skip(n));
        let parts = seq![text.take(n)] + tail;
        assert(parts.drop_first() =~= tail);
        assert(text.subrange(n, text.len() as int) =~= text.skip(n));
        assert(text.take(n) =~= text.subrange(0, n));
        assert(pattern::fits(pieces, parts, text));
    }
}

/// A placeholder captures the longest part that it can, such that the rest still
/// fits; what follows captures from behind it.
pub proof fn law_placeholder_captures_the_longest(
    hole: Piece,
    rest: Seq<Piece>,
    text: Seq<char>,
    parts: Seq<Seq<char>>,
)
    requires
        hole == Piece::Segment || hole == Piece::Rest,
        pattern::captured(seq![hole] + rest, text, parts),
    ensures
        ({
            let n = parts[0].len() as int;
            &&& parts.len() > 0
            &&& n <= text.len()
            &&& parts[0] == text.take(n)
            &&& hole == Piece::Segment ==> n > 0 && !parts[0].contains('/')
            &&& pattern::captured(rest, text.skip(n), parts.skip(1))
            &&& forall|m: int|
                n < m <= text.len() && (hole == Piece::Segment ==> !text.take(m).contains('/'))
                    ==> !#[trigger] pattern::matches(rest, text.skip(m))
        }),
{
    let pieces = seq![hole] + rest;
    assert(pieces.drop_first() =~= rest);
    let n = parts[0].len() as int;
    assert(parts[0] =~= text.take(n));
    assert(text.subrange(n, text.len() as int) =~= text.skip(n));
    assert(parts.drop_first() =~= parts.skip(1));
    assert forall|other: Seq<Seq<char>>| #[trigger]
        pattern::fits(rest, other, text.skip(n)) implies pattern::at_least_as_greedy(
        parts.skip(1),
        other,
    ) by {
        let whole = seq![parts[0]] + other;
        assert(whole.drop_first() =~= other);
        assert(pattern::fits(pieces, whole, text));
        assert(pattern::at_least_as_greedy(parts, whole));
    }
    assert forall|m: int|
        n < m <= text.len() && (hole == Piece::Segment ==> !text.take(m).contains(
            '/',
        )) implies !#[trigger] pattern::matches(rest, text.skip(m)) by {
        if pattern::matches(rest, text.skip(m)) {
            let tail = choose|other: Seq<Seq<char>>| pattern::fits(rest, other, text.skip(m));
            let whole = seq![text.take(m)] + tail;
            assert(whole.drop_first() =~= tail);
            assert(text.subrange(m, text.len() as int) =~= text.skip(m));
            assert(text.take(m) =~= text.subrange(0, m));
            assert(pattern::fits(pieces, whole, text));
            assert(pattern::at_least_as_greedy(parts, whole));
        }
    }
}

/// The regular expression of a pattern accepts just the texts that fit the pattern.
pub proof fn law_regex_accepts_what_fits(path: Seq<char>, text: Seq<char>)
    ensures
        pattern::accepts(pattern::route_regex(path), text) <==> pattern::matches(
            pattern::pieces(path),
            text,
        ),
{
    pattern::lemma_accepts(pattern::pieces(path), text);
}

// Request paths.

/// A path decodes to a text just where the bytes that it spells are the UTF-8
/// encoding of that text.
pub proof fn law_decoded_text_is_spelled(path: Seq<char>, text: Seq<char>)
    ensures
        decode::decoded(path) == Some(text) <==> vstd::utf8::encode_utf8(text)
            == decode::percent_decoded(vstd::utf8::encode_utf8(path)),
        decode::decoded(path) is None <==> !vstd::utf8::valid_utf8(
            decode::percent_decoded(vstd::utf8::encode_utf8(path)),
        ),
{
    let bytes = decode::percent_decoded(vstd::utf8::encode_utf8(path));
    if vstd::utf8::valid_utf8(bytes) {
        vstd::utf8::decode_utf8_encode_utf8(bytes);
    }
    vstd::utf8::encode_utf8_valid_utf8(text);
    vstd::utf8::encode_utf8_decode_utf8(text);
}

/// A percent sign in front and the two hexadecimal digits of a byte, in capital
/// or small letters, spell that byte.
pub proof fn law_percent_sequence_in_front(byte: u8, high: u8, low: u8, rest: Seq<u8>)
    requires
        ({
            let digit = |value: int, d: u8|
                if value < 10 {
                    d == 0x30 + value
                } else {
                    d == 0x41 + (value - 10) || d == 0x61 + (value - 10)
                };
            digit(byte as int / 16, high) && digit(byte as int % 16, low)
        }),
    ensures
        decode::percent_decoded(seq![0x25, high, low] + rest) == seq![byte]
            + decode::percent_decoded(rest),
{
    let bytes = seq![0x25, high, low] + rest;
    assert(bytes.subrange(3, bytes.len() as int) =~= rest);
}

/// Any other byte in front stands for itself.
pub proof fn law_byte_in_front(byte: u8, rest: Seq<u8>)
    requires
        byte == 0x25 ==> !(rest.len() >= 2 && (forall|i: int|
            0 <= i < 2 ==> (0x30 <= #[trigger] rest[i] <= 0x39 || 0x41 <= rest[i] <= 0x46 || 0x61
                <= rest[i] <= 0x66))),
    ensures
        decode::percent_decoded(seq![byte] + rest) == seq![byte] + decode::percent_decoded(rest),
        decode::percent_decoded(Seq::empty()) == Seq::<u8>::empty(),
{
    let bytes = seq![byte] + rest;
    assert(bytes.drop_first() =~= rest);
    if byte == 0x25 && bytes.len() >= 3 && decode::is_hex_digit(bytes[1]) && decode::is_hex_digit(
        bytes[2],
    ) {
        assert(bytes[1] == rest[0]);
        assert(bytes[2] == rest[1]);
        assert(false);
    }
}

} // verus!

use vstd::prelude::*;

use crate::chars::{is_numeric_char, is_whitespace_char, spec_is_symbol, spec_two_char_symbol};
use crate::error::SpecError;
use crate::location::SpecLocation;
use crate::scan::{
    advance_location, identifier_end, lemma_identifier_end_bounds, lemma_line_end_bounds,
    lemma_number_end_bounds, lemma_string_body_bounds, line_end, normalize_newlines, number_end,
    spec_scan, spec_tokenize, starts_number, step_location, string_body, trim, trim_end,
    trim_start, SpecToken, SpecTokenKind,
};

verus! {

/// Normalizing line endings keeps a text without carriage returns
/// unchanged.
proof fn lemma_normalize_without_cr(s: Seq<char>)
    requires
        forall|k: int| 0 <= k < s.len() ==> s[k] != '\r',
    ensures
        normalize_newlines(s) == s,
    decreases s.len(),
{
    if s.len() == 0 {
        assert(normalize_newlines(s) =~= s);
    } else {
        assert(forall|k: int| 0 <= k < s.skip(1).len() ==> #[trigger] s.skip(1)[k] != '\r');
        lemma_normalize_without_cr(s.skip(1));
        assert(seq![s[0]] + s.skip(1) =~= s);
    }
}

/// Normalizing line endings keeps an all-whitespace text all
/// whitespace.
proof fn lemma_normalize_whitespace(s: Seq<char>)
    requires
        forall|k: int| 0 <= k < s.len() ==> is_whitespace_char(#[trigger] s[k]),
    ensures
        forall|k: int|
            0 <= k < normalize_newlines(s).len() ==> is_whitespace_char(
                #[trigger] normalize_newlines(s)[k],
            ),
    decreases s.len(),
{
    if s.len() >= 2 && s[0] == '\r' && s[1] == '\n' {
        assert(forall|k: int|
            0 <= k < s.skip(2).len() ==> is_whitespace_char(#[trigger] s.skip(2)[k]));
        lemma_normalize_whitespace(s.skip(2));
        let n = seq!['\n'] + normalize_newlines(s.skip(2));
        assert(forall|k: int| 1 <= k < n.len() ==> n[k] == normalize_newlines(s.skip(2))[k - 1]);
        assert(n[0] == '\n');
    } else if s.len() > 0 {
        assert(forall|k: int|
            0 <= k < s.skip(1).len() ==> is_whitespace_char(#[trigger] s.skip(1)[k]));
        lemma_normalize_whitespace(s.skip(1));
        let n = seq![s[0]] + normalize_newlines(s.skip(1));
        assert(forall|k: int| 1 <= k < n.len() ==> n[k] == normalize_newlines(s.skip(1))[k - 1]);
        assert(n[0] == s[0]);
    }
}

/// Scanning all-whitespace text from any position produces nothing.
proof fn lemma_scan_whitespace(text: Seq<char>, i: int, loc: SpecLocation)
    requires
        0 <= i <= text.len(),
        forall|k: int| 0 <= k < text.len() ==> is_whitespace_char(#[trigger] text[k]),
    ensures
        spec_scan(text, i, loc) == (Seq::<SpecToken>::empty(), None::<SpecError>),
    decreases text.len() - i,
{
    if i < text.len() {
        lemma_scan_whitespace(text, i + 1, step_location(loc, text[i]));
    }
}

/// An input consisting solely of whitespace (line-ending variants
/// included) scans to an empty token sequence, with no error.
pub proof fn lemma_whitespace_scans_empty(text: Seq<char>, loc: SpecLocation)
    requires
        forall|k: int| 0 <= k < text.len() ==> is_whitespace_char(#[trigger] text[k]),
    ensures
        spec_tokenize(text, loc) == (Seq::<SpecToken>::empty(), None::<SpecError>),
{
    lemma_normalize_whitespace(text);
    lemma_scan_whitespace(normalize_newlines(text), 0, loc);
}

/// An identifier run reaches the end of a text whose characters are
/// all neither whitespace nor symbols.
proof fn lemma_identifier_end_full(text: Seq<char>, j: int)
    requires
        0 <= j <= text.len(),
        forall|k: int|
            0 <= k < text.len() ==> !is_whitespace_char(#[trigger] text[k]) && !spec_is_symbol(
                text[k],
            ),
    ensures
        identifier_end(text, j) == text.len(),
    decreases text.len() - j,
{
    if j < text.len() {
        lemma_identifier_end_full(text, j + 1);
    }
}

/// Round trip for identifier-safe text: scanning text that holds no
/// whitespace and no symbol characters, does not start with a numeric
/// character, and does not start with a quote yields exactly one
/// identifier token whose contents are the input itself.
pub proof fn lemma_identifier_round_trip(text: Seq<char>, loc: SpecLocation)
    requires
        text.len() > 0,
        forall|k: int|
            0 <= k < text.len() ==> !is_whitespace_char(#[trigger] text[k]) && !spec_is_symbol(
                text[k],
            ),
        text[0] != '"',
        !is_numeric_char(text[0]),
    ensures
        spec_tokenize(text, loc) == (
            seq![SpecToken { location: loc, contents: text, kind: SpecTokenKind::Identifier(text) }],
            None::<SpecError>,
        ),
{
    assert(forall|k: int| 0 <= k < text.len() ==> text[k] != '\r') by {
        assert(is_whitespace_char('\r'));
    }
    lemma_normalize_without_cr(text);
    lemma_identifier_end_full(text, 1);
    let tok = SpecToken { location: loc, contents: text, kind: SpecTokenKind::Identifier(text) };
    assert(text.subrange(0, text.len() as int) =~= text);
    assert(spec_scan(text, text.len() as int, advance_location(loc, text)) == (
        Seq::<SpecToken>::empty(),
        None::<SpecError>,
    ));
    assert(seq![tok] + Seq::<SpecToken>::empty() =~= seq![tok]);
}

/// Scanning any two-character symbol alone yields exactly one symbol
/// token holding both characters.
pub proof fn lemma_two_char_symbol_scan(a: char, b: char, loc: SpecLocation)
    requires
        spec_two_char_symbol(a, b),
    ensures
        spec_tokenize(seq![a, b], loc) == (
            seq![
                SpecToken {
                    location: loc,
                    contents: seq![a, b],
                    kind: SpecTokenKind::Symbol(seq![a, b]),
                },
            ],
            None::<SpecError>,
        ),
{
    let text = seq![a, b];
    assert(forall|k: int| 0 <= k < text.len() ==> text[k] != '\r');
    lemma_normalize_without_cr(text);
    let tok = SpecToken { location: loc, contents: text, kind: SpecTokenKind::Symbol(text) };
    assert(text.subrange(0, 2) =~= text);
    assert(spec_scan(text, 2, advance_location(loc, text)) == (
        Seq::<SpecToken>::empty(),
        None::<SpecError>,
    ));
    assert(seq![tok] + Seq::<SpecToken>::empty() =~= seq![tok]);
}

/// Scanning any single symbol character alone (`#` aside: alone it is
/// a comment opener) yields exactly one symbol token holding just that
/// character.
pub proof fn lemma_single_symbol_scan(c: char, loc: SpecLocation)
    requires
        spec_is_symbol(c),
        c != '#',
    ensures
        spec_tokenize(seq![c], loc) == (
            seq![
                SpecToken { location: loc, contents: seq![c], kind: SpecTokenKind::Symbol(seq![c]) },
            ],
            None::<SpecError>,
        ),
{
    let text = seq![c];
    assert(forall|k: int| 0 <= k < text.len() ==> text[k] != '\r');
    lemma_normalize_without_cr(text);
    let tok = SpecToken { location: loc, contents: text, kind: SpecTokenKind::Symbol(text) };
    assert(text.subrange(0, 1) =~= text);
    assert(spec_scan(text, 1, advance_location(loc, text)) == (
        Seq::<SpecToken>::empty(),
        None::<SpecError>,
    ));
    assert(seq![tok] + Seq::<SpecToken>::empty() =~= seq![tok]);
}

/// The string scanner takes a body without quotes and backslashes
/// verbatim: from just after the opening quote it decodes the body
/// itself and stops just past the closing quote.
proof fn lemma_string_body_run(text: Seq<char>, body: Seq<char>, k: int)
    requires
        text == seq!['"'] + body + seq!['"'],
        0 <= k <= body.len(),
        forall|j: int| 0 <= j < body.len() ==> body[j] != '"' && #[trigger] body[j] != '\\',
    ensures
        string_body(text, 1 + k, body.take(k)) == Some((body, body.len() + 2 as int)),
    decreases body.len() - k,
{
    assert(text.len() == body.len() + 2);
    if k < body.len() {
        assert(text[1 + k] == body[k]);
        assert(body.take(k).push(body[k]) =~= body.take(k + 1));
        lemma_string_body_run(text, body, k + 1);
    } else {
        assert(text[1 + k] == '"');
        assert(body.take(k) =~= body);
        assert(forall|j: int| 0 <= j < body.len() ==> #[trigger] body[j] != '\\');
        if body.len() > 0 {
            assert(body.last() != '\\');
        }
    }
}

/// Every character inside a string literal is literal text: a comment
/// marker, a newline, anything but a quote or a backslash. Scanning a
/// quoted body free of quotes, backslashes and carriage returns yields
/// exactly one string token whose contents are the body itself.
pub proof fn lemma_string_literal_verbatim(body: Seq<char>, loc: SpecLocation)
    requires
        forall|j: int|
            0 <= j < body.len() ==> body[j] != '"' && #[trigger] body[j] != '\\' && body[j] != '\r',
    ensures
        spec_tokenize(seq!['"'] + body + seq!['"'], loc) == (
            seq![
                SpecToken { location: loc, contents: body, kind: SpecTokenKind::StringLiteral(body) },
            ],
            None::<SpecError>,
        ),
{
    let text = seq!['"'] + body + seq!['"'];
    assert(text.len() == body.len() + 2);
    assert(forall|k: int| 0 <= k < text.len() ==> text[k] != '\r') by {
        assert(text[0] == '"');
        assert(text[text.len() - 1] == '"');
        assert(forall|k: int| 1 <= k < text.len() - 1 ==> text[k] == body[k - 1]);
    }
    lemma_normalize_without_cr(text);
    assert(body.take(0) =~= Seq::<char>::empty());
    lemma_string_body_run(text, body, 0);
    let tok = SpecToken { location: loc, contents: body, kind: SpecTokenKind::StringLiteral(body) };
    assert(text[0] == '"');
    assert(spec_scan(text, text.len() as int, advance_location(loc, text.subrange(0, text.len() as int)))
        == (Seq::<SpecToken>::empty(), None::<SpecError>));
    assert(seq![tok] + Seq::<SpecToken>::empty() =~= seq![tok]);
}

/// Source order on locations: `a` lies at or before `b`, row first,
/// then column.
pub open spec fn location_le(a: SpecLocation, b: SpecLocation) -> bool {
    a.row < b.row || (a.row == b.row && a.column <= b.column)
}

/// Consuming text never moves the running location backwards.
proof fn lemma_advance_location_le(loc: SpecLocation, s: Seq<char>)
    ensures
        location_le(loc, advance_location(loc, s)),
    decreases s.len(),
{
    if s.len() > 0 {
        lemma_advance_location_le(step_location(loc, s[0]), s.skip(1));
    }
}

/// Every token that a scan from `loc` produces lies at or after `loc`,
/// and the tokens come in ascending source order.
proof fn lemma_scan_ordered(text: Seq<char>, i: int, loc: SpecLocation)
    requires
        0 <= i <= text.len(),
    ensures
        forall|k: int|
            0 <= k < spec_scan(text, i, loc).0.len() ==> location_le(
                loc,
                (#[trigger] spec_scan(text, i, loc).0[k]).location,
            ),
        forall|k: int|
            0 <= k && k + 1 < spec_scan(text, i, loc).0.len() ==> location_le(
                (#[trigger] spec_scan(text, i, loc).0[k]).location,
                spec_scan(text, i, loc).0[k + 1].location,
            ),
    decreases text.len() - i,
{
    if 0 <= i && i < text.len() {
        let c = text[i];
        if c == '#' {
            lemma_line_end_bounds(text, i + 1);
            let end = line_end(text, i + 1);
            let next = advance_location(loc, text.subrange(i, end));
            lemma_advance_location_le(loc, text.subrange(i, end));
            lemma_scan_ordered(text, end, next);
        } else if c == '"' {
            lemma_string_body_bounds(text, i + 1, Seq::<char>::empty());
            match string_body(text, i + 1, Seq::<char>::empty()) {
                None => {},
                Some((cs, end)) => {
                    let next = advance_location(loc, text.subrange(i, end));
                    lemma_advance_location_le(loc, text.subrange(i, end));
                    lemma_scan_ordered(text, end, next);
                },
            }
        } else if is_whitespace_char(c) {
            lemma_scan_ordered(text, i + 1, step_location(loc, c));
        } else if starts_number(text, i) {
            lemma_number_end_bounds(text, i + 1, c == '.');
            match number_end(text, i + 1, c == '.') {
                Err(_) => {},
                Ok((end, sp)) => {
                    let next = advance_location(loc, text.subrange(i, end));
                    lemma_advance_location_le(loc, text.subrange(i, end));
                    lemma_scan_ordered(text, end, next);
                },
            }
        } else if spec_is_symbol(c) {
            let end: int = if i + 1 < text.len() && spec_two_char_symbol(c, text[i + 1]) {
                i + 2
            } else {
                i + 1
            };
            let next = advance_location(loc, text.subrange(i, end));
            lemma_advance_location_le(loc, text.subrange(i, end));
            lemma_scan_ordered(text, end, next);
        } else {
            lemma_identifier_end_bounds(text, i + 1);
            let end = identifier_end(text, i + 1);
            let next = advance_location(loc, text.subrange(i, end));
            lemma_advance_location_le(loc, text.subrange(i, end));
            lemma_scan_ordered(text, end, next);
        }
    }
}

/// The token sequence comes out ordered by ascending source position:
/// each token's location lies at or after the start location, and at
/// or after the location of the token before it.
pub proof fn lemma_tokens_ordered(text: Seq<char>, loc: SpecLocation)
    ensures
        forall|k: int|
            0 <= k < spec_tokenize(text, loc).0.len() ==> location_le(
                loc,
                (#[trigger] spec_tokenize(text, loc).0[k]).location,
            ),
        forall|k: int|
            0 <= k && k + 1 < spec_tokenize(text, loc).0.len() ==> location_le(
                (#[trigger] spec_tokenize(text, loc).0[k]).location,
                spec_tokenize(text, loc).0[k + 1].location,
            ),
{
    lemma_scan_ordered(normalize_newlines(text), 0, loc);
}

/// What is left after dropping leading whitespace does not begin with
/// whitespace.
proof fn lemma_trim_start_head(s: Seq<char>)
    ensures
        trim_start(s).len() > 0 ==> !is_whitespace_char(trim_start(s)[0]),
    decreases s.len(),
{
    if s.len() > 0 && is_whitespace_char(s[0]) {
        lemma_trim_start_head(s.skip(1));
    }
}

/// What is left after dropping trailing whitespace does not end with
/// whitespace, and still begins as the input does.
proof fn lemma_trim_end_props(s: Seq<char>)
    ensures
        trim_end(s).len() > 0 ==> !is_whitespace_char(trim_end(s).last()),
        trim_end(s).len() > 0 ==> trim_end(s)[0] == s[0],
    decreases s.len(),
{
    if s.len() > 0 && is_whitespace_char(s.last()) {
        lemma_trim_end_props(s.drop_last());
    }
}

/// Trimmed text neither begins nor ends with whitespace.
proof fn lemma_trim_ends(s: Seq<char>)
    ensures
        trim(s).len() > 0 ==> !is_whitespace_char(trim(s)[0]),
        trim(s).len() > 0 ==> !is_whitespace_char(trim(s).last()),
{
    lemma_trim_start_head(s);
    lemma_trim_end_props(trim_start(s));
}

/// Every comment token that a scan produces has trimmed contents.
proof fn lemma_scan_comments_trimmed(text: Seq<char>, i: int, loc: SpecLocation)
    requires
        0 <= i <= text.len(),
    ensures
        forall|k: int|
            0 <= k < spec_scan(text, i, loc).0.len() ==> match (
            #[trigger] spec_scan(text, i, loc).0[k]).kind {
                SpecTokenKind::Comment(cs) => cs.len() > 0 ==> !is_whitespace_char(cs[0])
                    && !is_whitespace_char(cs.last()),
                _ => true,
            },
    decreases text.len() - i,
{
    if 0 <= i && i < text.len() {
        let c = text[i];
        if c == '#' {
            lemma_line_end_bounds(text, i + 1);
            let end = line_end(text, i + 1);
            lemma_trim_ends(text.subrange(i + 1, end));
            lemma_scan_comments_trimmed(
                text,
                end,
                advance_location(loc, text.subrange(i, end)),
            );
        } else if c == '"' {
            lemma_string_body_bounds(text, i + 1, Seq::<char>::empty());
            match string_body(text, i + 1, Seq::<char>::empty()) {
                None => {},
                Some((cs, end)) => {
                    lemma_scan_comments_trimmed(
                        text,
                        end,
                        advance_location(loc, text.subrange(i, end)),
                    );
                },
            }
        } else if is_whitespace_char(c) {
            lemma_scan_comments_trimmed(text, i + 1, step_location(loc, c));
        } else if starts_number(text, i) {
            lemma_number_end_bounds(text, i + 1, c == '.');
            match number_end(text, i + 1, c == '.') {
                Err(_) => {},
                Ok((end, sp)) => {
                    lemma_scan_comments_trimmed(
                        text,
                        end,
                        advance_location(loc, text.subrange(i, end)),
                    );
                },
            }
        } else if spec_is_symbol(c) {
            let end: int = if i + 1 < text.len() && spec_two_char_symbol(c, text[i + 1]) {
                i + 2
            } else {
                i + 1
            };
            lemma_scan_comments_trimmed(text, end, advance_location(loc, text.subrange(i, end)));
        } else {
            lemma_identifier_end_bounds(text, i + 1);
            let end = identifier_end(text, i + 1);
            lemma_scan_comments_trimmed(text, end, advance_location(loc, text.subrange(i, end)));
        }
    }
}

/// A comment token's contents never carry leading or trailing
/// whitespace.
pub proof fn lemma_comments_trimmed(text: Seq<char>, loc: SpecLocation)
    ensures
        forall|k: int|
            0 <= k < spec_tokenize(text, loc).0.len() ==> match (
            #[trigger] spec_tokenize(text, loc).0[k]).kind {
                SpecTokenKind::Comment(cs) => cs.len() > 0 ==> !is_whitespace_char(cs[0])
                    && !is_whitespace_char(cs.last()),
                _ => true,
            },
{
    lemma_scan_comments_trimmed(normalize_newlines(text), 0, loc);
}

/// The characters of an identifier run are neither whitespace nor
/// symbols.
proof fn lemma_identifier_run_chars(text: Seq<char>, j: int)
    requires
        0 <= j <= text.len(),
    ensures
        forall|p: int|
            j <= p < identifier_end(text, j) ==> !is_whitespace_char(#[trigger] text[p])
                && !spec_is_symbol(text[p]),
    decreases text.len() - j,
{
    if j < text.len() && !(is_whitespace_char(text[j]) || spec_is_symbol(text[j])) {
        lemma_identifier_run_chars(text, j + 1);
    }
}

/// Every identifier or symbol token that a scan produces is free of
/// whitespace: an identifier holds no whitespace and no symbol
/// characters at all, and a symbol holds only symbol characters.
proof fn lemma_scan_no_whitespace_in_contents(text: Seq<char>, i: int, loc: SpecLocation)
    requires
        0 <= i <= text.len(),
    ensures
        forall|k: int|
            0 <= k < spec_scan(text, i, loc).0.len() ==> match (
            #[trigger] spec_scan(text, i, loc).0[k]).kind {
                SpecTokenKind::Identifier(cs) => forall|q: int|
                    0 <= q < cs.len() ==> !is_whitespace_char(#[trigger] cs[q]) && !spec_is_symbol(
                        cs[q],
                    ),
                SpecTokenKind::Symbol(cs) => forall|q: int|
                    0 <= q < cs.len() ==> spec_is_symbol(#[trigger] cs[q]) && !is_whitespace_char(
                        cs[q],
                    ),
                _ => true,
            },
    decreases text.len() - i,
{
    if 0 <= i && i < text.len() {
        let c = text[i];
        if c == '#' {
            lemma_line_end_bounds(text, i + 1);
            let end = line_end(text, i + 1);
            lemma_scan_no_whitespace_in_contents(
                text,
                end,
                advance_location(loc, text.subrange(i, end)),
            );
        } else if c == '"' {
            lemma_string_body_bounds(text, i + 1, Seq::<char>::empty());
            match string_body(text, i + 1, Seq::<char>::empty()) {
                None => {},
                Some((cs, end)) => {
                    lemma_scan_no_whitespace_in_contents(
                        text,
                        end,
                        advance_location(loc, text.subrange(i, end)),
                    );
                },
            }
        } else if is_whitespace_char(c) {
            lemma_scan_no_whitespace_in_contents(text, i + 1, step_location(loc, c));
        } else if starts_number(text, i) {
            lemma_number_end_bounds(text, i + 1, c == '.');
            match number_end(text, i + 1, c == '.') {
                Err(_) => {},
                Ok((end, sp)) => {
                    lemma_scan_no_whitespace_in_contents(
                        text,
                        end,
                        advance_location(loc, text.subrange(i, end)),
                    );
                },
            }
        } else if spec_is_symbol(c) {
            let end: int = if i + 1 < text.len() && spec_two_char_symbol(c, text[i + 1]) {
                i + 2
            } else {
                i + 1
            };
            lemma_scan_no_whitespace_in_contents(
                text,
                end,
                advance_location(loc, text.subrange(i, end)),
            );
        } else {
            lemma_identifier_end_bounds(text, i + 1);
            lemma_identifier_run_chars(text, i + 1);
            let end = identifier_end(text, i + 1);
            lemma_scan_no_whitespace_in_contents(
                text,
                end,
                advance_location(loc, text.subrange(i, end)),
            );
        }
    }
}

/// Whitespace never appears in an identifier's or a symbol's contents:
/// an identifier holds no whitespace and no symbol characters, and a
/// symbol holds only symbol characters.
pub proof fn lemma_no_whitespace_in_contents(text: Seq<char>, loc: SpecLocation)
    ensures
        forall|k: int|
            0 <= k < spec_tokenize(text, loc).0.len() ==> match (
            #[trigger] spec_tokenize(text, loc).0[k]).kind {
                SpecTokenKind::Identifier(cs) => forall|q: int|
                    0 <= q < cs.len() ==> !is_whitespace_char(#[trigger] cs[q]) && !spec_is_symbol(
                        cs[q],
                    ),
                SpecTokenKind::Symbol(cs) => forall|q: int|
                    0 <= q < cs.len() ==> spec_is_symbol(#[trigger] cs[q]) && !is_whitespace_char(
                        cs[q],
                    ),
                _ => true,
            },
{
    lemma_scan_no_whitespace_in_contents(normalize_newlines(text), 0, loc);
}

} // verus!

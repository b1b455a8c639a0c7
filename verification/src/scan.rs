use vstd::prelude::*;

use crate::chars::{is_numeric_char, is_whitespace_char, spec_is_symbol, spec_two_char_symbol};
use crate::error::SpecError;
use crate::location::SpecLocation;

verus! {

/// Mathematical value of a token kind. String payloads are character
/// sequences; an integer literal carries its unbounded value; a float
/// literal carries its undecoded text.
pub ghost enum SpecTokenKind {
    StringLiteral(Seq<char>),
    Comment(Seq<char>),
    Identifier(Seq<char>),
    Symbol(Seq<char>),
    IntegerLiteral(int),
    FloatLiteral(Seq<char>),
}

/// Mathematical value of a token: where it begins, its decoded text,
/// and its kind.
pub ghost struct SpecToken {
    pub location: SpecLocation,
    pub contents: Seq<char>,
    pub kind: SpecTokenKind,
}

/// The running location after consuming one character: a newline moves
/// to the start of the next row, anything else moves one column right.
pub open spec fn step_location(loc: SpecLocation, c: char) -> SpecLocation {
    if c == '\n' {
        SpecLocation { row: loc.row + 1, column: 0, path: loc.path }
    } else {
        SpecLocation { row: loc.row, column: loc.column + 1, path: loc.path }
    }
}

/// The running location after consuming all of `s`.
pub open spec fn advance_location(loc: SpecLocation, s: Seq<char>) -> SpecLocation
    decreases s.len(),
{
    if s.len() == 0 {
        loc
    } else {
        advance_location(step_location(loc, s[0]), s.skip(1))
    }
}

/// Line-ending normalization: each `\r\n` pair becomes a single `\n`,
/// scanning left to right.
pub open spec fn normalize_newlines(s: Seq<char>) -> Seq<char>
    decreases s.len(),
{
    if s.len() == 0 {
        Seq::empty()
    } else if s.len() >= 2 && s[0] == '\r' && s[1] == '\n' {
        seq!['\n'] + normalize_newlines(s.skip(2))
    } else {
        seq![s[0]] + normalize_newlines(s.skip(1))
    }
}

/// `s` without its leading whitespace.
pub open spec fn trim_start(s: Seq<char>) -> Seq<char>
    decreases s.len(),
{
    if s.len() > 0 && is_whitespace_char(s[0]) {
        trim_start(s.skip(1))
    } else {
        s
    }
}

/// `s` without its trailing whitespace.
pub open spec fn trim_end(s: Seq<char>) -> Seq<char>
    decreases s.len(),
{
    if s.len() > 0 && is_whitespace_char(s.last()) {
        trim_end(s.drop_last())
    } else {
        s
    }
}

/// `s` without leading and trailing whitespace.
pub open spec fn trim(s: Seq<char>) -> Seq<char> {
    trim_end(trim_start(s))
}

/// Index of the first newline at or after `i`, or the text's end.
pub open spec fn line_end(text: Seq<char>, i: int) -> int
    decreases text.len() - i,
{
    if i < 0 || i >= text.len() {
        i
    } else if text[i] == '\n' {
        i
    } else {
        line_end(text, i + 1)
    }
}

/// Scans a string literal's body from index `i`, having already decoded
/// `buf`. A quote closes the literal unless the last decoded character
/// is a backslash, in which case the backslash is replaced by a literal
/// quote. Returns the decoded contents and the index just past the
/// closing quote, or `None` if the text ends first.
pub open spec fn string_body(text: Seq<char>, i: int, buf: Seq<char>) -> Option<(Seq<char>, int)>
    decreases text.len() - i,
{
    if i < 0 || i >= text.len() {
        None
    } else {
        let c = text[i];
        if c == '"' && !(buf.len() > 0 && buf.last() == '\\') {
            Some((buf, i + 1))
        } else if c == '"' {
            string_body(text, i + 1, buf.drop_last().push('"'))
        } else {
            string_body(text, i + 1, buf.push(c))
        }
    }
}

/// Scans a numeric literal's tail from index `j`. `Ok((end, sp))` gives
/// the index after the literal and whether a decimal point was seen;
/// `Err(j)` gives the index of a second decimal point.
pub open spec fn number_end(text: Seq<char>, j: int, saw_period: bool) -> Result<(int, bool), int>
    decreases text.len() - j,
{
    if j < 0 || j >= text.len() {
        Ok((j, saw_period))
    } else {
        let c = text[j];
        if c == '.' && !saw_period {
            number_end(text, j + 1, true)
        } else if c == '.' {
            Err(j)
        } else if is_numeric_char(c) {
            number_end(text, j + 1, saw_period)
        } else {
            Ok((j, saw_period))
        }
    }
}

/// Index of the first whitespace or symbol character at or after `j`,
/// or the text's end: where an identifier stops.
pub open spec fn identifier_end(text: Seq<char>, j: int) -> int
    decreases text.len() - j,
{
    if j < 0 || j >= text.len() {
        j
    } else if is_whitespace_char(text[j]) || spec_is_symbol(text[j]) {
        j
    } else {
        identifier_end(text, j + 1)
    }
}

/// Value of an ASCII decimal digit.
pub open spec fn digit_value(c: char) -> int {
    (c as u32) - 48
}

/// Whether `c` is an ASCII decimal digit.
pub open spec fn is_decimal_digit(c: char) -> bool {
    48 <= (c as u32) && (c as u32) <= 57
}

/// Value of a sequence of decimal digits read as a base-ten numeral.
pub open spec fn digits_value(s: Seq<char>) -> int
    decreases s.len(),
{
    if s.len() == 0 {
        0
    } else {
        digits_value(s.drop_last()) * 10 + digit_value(s.last())
    }
}

/// Value of an integer literal's text: an optional leading minus
/// followed by digits.
pub open spec fn int_value(s: Seq<char>) -> int {
    if s.len() > 0 && s[0] == '-' {
        -digits_value(s.skip(1))
    } else {
        digits_value(s)
    }
}

/// Whether `s` is plain decimal integer text: an optional leading
/// minus, then at least one ASCII digit and nothing else.
pub open spec fn is_int_text(s: Seq<char>) -> bool {
    if s.len() > 0 && s[0] == '-' {
        s.len() > 1 && (forall|k: int| 1 <= k < s.len() ==> is_decimal_digit(#[trigger] s[k]))
    } else {
        s.len() > 0 && (forall|k: int| 0 <= k < s.len() ==> is_decimal_digit(#[trigger] s[k]))
    }
}

/// Whether `v` is representable as a 128-bit signed integer.
pub open spec fn fits_i128(v: int) -> bool {
    i128::MIN <= v <= i128::MAX
}

/// Whether the character at `i` starts a numeric literal: it is numeric
/// itself, or it is a minus or a period followed directly by a numeric
/// character.
pub open spec fn starts_number(text: Seq<char>, i: int) -> bool {
    is_numeric_char(text[i]) || ((text[i] == '-' || text[i] == '.') && i + 1 < text.len()
        && is_numeric_char(text[i + 1]))
}

/// The scan of `text` from index `i` with running location `loc`: the
/// tokens produced before the first failure, and the failure itself if
/// one arises. Dispatch order: comment, string, whitespace, number,
/// symbol, identifier.
pub open spec fn spec_scan(text: Seq<char>, i: int, loc: SpecLocation) -> (
    Seq<SpecToken>,
    Option<SpecError>,
)
    decreases text.len() - i,
    via spec_scan_decreases
{
    if i < 0 || i >= text.len() {
        (Seq::<SpecToken>::empty(), None::<SpecError>)
    } else {
        let c = text[i];
        if c == '#' {
            let end = line_end(text, i + 1);
            let contents = trim(text.subrange(i + 1, end));
            let tok = SpecToken { location: loc, contents, kind: SpecTokenKind::Comment(contents) };
            let rest = spec_scan(text, end, advance_location(loc, text.subrange(i, end)));
            (seq![tok] + rest.0, rest.1)
        } else if c == '"' {
            match string_body(text, i + 1, Seq::empty()) {
                None => (
                    Seq::<SpecToken>::empty(),
                    Some(SpecError { message: "Unclosed string"@, location: loc }),
                ),
                Some((contents, end)) => {
                    let tok = SpecToken {
                        location: loc,
                        contents,
                        kind: SpecTokenKind::StringLiteral(contents),
                    };
                    let rest = spec_scan(text, end, advance_location(loc, text.subrange(i, end)));
                    (seq![tok] + rest.0, rest.1)
                },
            }
        } else if is_whitespace_char(c) {
            spec_scan(text, i + 1, step_location(loc, c))
        } else if starts_number(text, i) {
            match number_end(text, i + 1, c == '.') {
                Err(j) => (
                    Seq::<SpecToken>::empty(),
                    Some(
                        SpecError {
                            message: "Float literal cannot have multiple decimal points"@,
                            location: advance_location(loc, text.subrange(i, j)),
                        },
                    ),
                ),
                Ok((end, saw_period)) => {
                    let contents = text.subrange(i, end);
                    let kind = if saw_period {
                        SpecTokenKind::FloatLiteral(contents)
                    } else {
                        SpecTokenKind::IntegerLiteral(int_value(contents))
                    };
                    let tok = SpecToken { location: loc, contents, kind };
                    let rest = spec_scan(text, end, advance_location(loc, contents));
                    (seq![tok] + rest.0, rest.1)
                },
            }
        } else if spec_is_symbol(c) {
            let end: int = if i + 1 < text.len() && spec_two_char_symbol(c, text[i + 1]) {
                i + 2
            } else {
                i + 1
            };
            let contents = text.subrange(i, end);
            let tok = SpecToken { location: loc, contents, kind: SpecTokenKind::Symbol(contents) };
            let rest = spec_scan(text, end, advance_location(loc, contents));
            (seq![tok] + rest.0, rest.1)
        } else {
            let end = identifier_end(text, i + 1);
            let contents = text.subrange(i, end);
            let tok = SpecToken {
                location: loc,
                contents,
                kind: SpecTokenKind::Identifier(contents),
            };
            let rest = spec_scan(text, end, advance_location(loc, contents));
            (seq![tok] + rest.0, rest.1)
        }
    }
}

#[via_fn]
proof fn spec_scan_decreases(text: Seq<char>, i: int, loc: SpecLocation) {
    if 0 <= i && i < text.len() {
        lemma_line_end_bounds(text, i + 1);
        lemma_string_body_bounds(text, i + 1, Seq::empty());
        lemma_number_end_bounds(text, i + 1, text[i] == '.');
        lemma_identifier_end_bounds(text, i + 1);
    }
}

pub proof fn lemma_line_end_bounds(text: Seq<char>, i: int)
    requires
        0 <= i <= text.len(),
    ensures
        i <= line_end(text, i) <= text.len(),
    decreases text.len() - i,
{
    if i < text.len() && text[i] != '\n' {
        lemma_line_end_bounds(text, i + 1);
    }
}

pub proof fn lemma_string_body_bounds(text: Seq<char>, i: int, buf: Seq<char>)
    requires
        0 <= i <= text.len(),
    ensures
        string_body(text, i, buf) matches Some((c, end)) ==> i < end <= text.len(),
    decreases text.len() - i,
{
    if i < text.len() {
        let c = text[i];
        if c == '"' && !(buf.len() > 0 && buf.last() == '\\') {
        } else if c == '"' {
            lemma_string_body_bounds(text, i + 1, buf.drop_last().push('"'));
        } else {
            lemma_string_body_bounds(text, i + 1, buf.push(c));
        }
    }
}

pub proof fn lemma_number_end_bounds(text: Seq<char>, j: int, saw_period: bool)
    requires
        0 <= j <= text.len(),
    ensures
        number_end(text, j, saw_period) matches Ok((end, sp)) ==> j <= end <= text.len(),
        number_end(text, j, saw_period) matches Err(p) ==> j <= p < text.len(),
    decreases text.len() - j,
{
    if j < text.len() {
        let c = text[j];
        if c == '.' && !saw_period {
            lemma_number_end_bounds(text, j + 1, true);
        } else if c == '.' {
        } else if is_numeric_char(c) {
            lemma_number_end_bounds(text, j + 1, saw_period);
        }
    }
}

pub proof fn lemma_identifier_end_bounds(text: Seq<char>, j: int)
    requires
        0 <= j <= text.len(),
    ensures
        j <= identifier_end(text, j) <= text.len(),
    decreases text.len() - j,
{
    if j < text.len() && !(is_whitespace_char(text[j]) || spec_is_symbol(text[j])) {
        lemma_identifier_end_bounds(text, j + 1);
    }
}

/// Normalizing line endings never lengthens the text.
pub proof fn lemma_normalize_len(s: Seq<char>)
    ensures
        normalize_newlines(s).len() <= s.len(),
    decreases s.len(),
{
    if s.len() >= 2 && s[0] == '\r' && s[1] == '\n' {
        lemma_normalize_len(s.skip(2));
    } else if s.len() > 0 {
        lemma_normalize_len(s.skip(1));
    }
}

/// A sequence of decimal digits has a non-negative value.
pub proof fn lemma_digits_value_nonneg(s: Seq<char>)
    requires
        forall|k: int| 0 <= k < s.len() ==> is_decimal_digit(#[trigger] s[k]),
    ensures
        digits_value(s) >= 0,
    decreases s.len(),
{
    if s.len() > 0 {
        assert(forall|k: int|
            0 <= k < s.drop_last().len() ==> is_decimal_digit(#[trigger] s.drop_last()[k]));
        lemma_digits_value_nonneg(s.drop_last());
    }
}

/// A prefix of a sequence of decimal digits has a value no larger than
/// the whole.
pub proof fn lemma_digits_value_prefix(s: Seq<char>, k: int)
    requires
        0 <= k <= s.len(),
        forall|j: int| 0 <= j < s.len() ==> is_decimal_digit(#[trigger] s[j]),
    ensures
        0 <= digits_value(s.take(k)) <= digits_value(s),
    decreases s.len() - k,
{
    assert(forall|j: int| 0 <= j < s.take(k).len() ==> is_decimal_digit(#[trigger] s.take(k)[j]));
    lemma_digits_value_nonneg(s.take(k));
    if k == s.len() {
        assert(s.take(k) =~= s);
    } else {
        lemma_digits_value_prefix(s, k + 1);
        assert(s.take(k + 1).drop_last() =~= s.take(k));
        assert(s.take(k + 1).last() == s[k]);
        assert(digits_value(s.take(k + 1)) == digits_value(s.take(k)) * 10 + digit_value(s[k]));
        assert(digits_value(s.take(k)) <= digits_value(s.take(k)) * 10 + digit_value(s[k]));
    }
}

/// Consuming one more character advances the running location by one
/// step.
pub proof fn lemma_advance_location_push(loc: SpecLocation, s: Seq<char>, c: char)
    ensures
        advance_location(loc, s.push(c)) == step_location(advance_location(loc, s), c),
    decreases s.len(),
{
    if s.len() == 0 {
        assert(s.push(c)[0] == c);
        assert(s.push(c).skip(1) =~= Seq::<char>::empty());
        assert(advance_location(loc, s.push(c)) == advance_location(
            step_location(loc, c),
            s.push(c).skip(1),
        ));
        assert(advance_location(step_location(loc, c), Seq::<char>::empty()) == step_location(
            loc,
            c,
        ));
        assert(advance_location(loc, s) == loc);
    } else {
        assert(s.push(c)[0] == s[0]);
        assert(s.push(c).skip(1) =~= s.skip(1).push(c));
        assert(advance_location(loc, s.push(c)) == advance_location(
            step_location(loc, s[0]),
            s.skip(1).push(c),
        ));
        assert(advance_location(loc, s) == advance_location(step_location(loc, s[0]), s.skip(1)));
        lemma_advance_location_push(step_location(loc, s[0]), s.skip(1), c);
    }
}

/// Prepends already-produced tokens to the outcome of scanning the
/// rest of the text.
pub open spec fn scan_prepend(
    prefix: Seq<SpecToken>,
    rest: (Seq<SpecToken>, Option<SpecError>),
) -> (Seq<SpecToken>, Option<SpecError>) {
    (prefix + rest.0, rest.1)
}

/// The whole scan of `text` starting at `loc`: normalize line endings,
/// then scan from the first character.
pub open spec fn spec_tokenize(text: Seq<char>, loc: SpecLocation) -> (
    Seq<SpecToken>,
    Option<SpecError>,
) {
    spec_scan(normalize_newlines(text), 0, loc)
}

/// Every integer literal that the scan of `text` produces is plain
/// decimal text whose value is representable as a 128-bit signed
/// integer. The number scanner consumes any character that
/// `char::is_numeric` accepts, but only such literals have a defined
/// integer value.
pub open spec fn scan_integers_representable(text: Seq<char>, loc: SpecLocation) -> bool {
    forall|k: int|
        0 <= k < spec_tokenize(text, loc).0.len() && (#[trigger] spec_tokenize(text, loc).0[k]).kind
            is IntegerLiteral ==> is_int_text(spec_tokenize(text, loc).0[k].contents) && fits_i128(
            int_value(spec_tokenize(text, loc).0[k].contents),
        )
}

} // verus!

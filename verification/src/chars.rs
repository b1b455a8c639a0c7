use vstd::prelude::*;

verus! {

/// What `char::is_numeric` returns on a character outside the ASCII
/// range. The result depends on the character alone.
pub uninterp spec fn is_unicode_numeric(c: char) -> bool;

/// What `char::is_whitespace` returns on a character outside the ASCII
/// range. The result depends on the character alone.
pub uninterp spec fn is_unicode_whitespace(c: char) -> bool;

/// Whether the scanner counts `c` as numeric: the meaning of
/// `char::is_numeric`, whose documentation says that within ASCII
/// exactly the ten decimal digits are numeric.
pub open spec fn is_numeric_char(c: char) -> bool {
    if (c as u32) < 128 {
        48 <= (c as u32) && (c as u32) <= 57
    } else {
        is_unicode_numeric(c)
    }
}

/// Whether the scanner counts `c` as whitespace: the meaning of
/// `char::is_whitespace`, whose documentation says that within ASCII
/// exactly tab, line feed, vertical tab, form feed, carriage return and
/// space have the `White_Space` property.
pub open spec fn is_whitespace_char(c: char) -> bool {
    if (c as u32) < 128 {
        (9 <= (c as u32) && (c as u32) <= 13) || c == ' '
    } else {
        is_unicode_whitespace(c)
    }
}

/// Relies on `char::is_numeric`: within ASCII exactly the decimal
/// digits are numeric; beyond ASCII the result is a function of the
/// character alone.
#[verifier::external_body]
pub(crate) fn char_is_numeric(c: char) -> (r: bool)
    ensures
        r == is_numeric_char(c),
        (c as u32) >= 128 ==> r == is_unicode_numeric(c),
{
    c.is_numeric()
}

/// Relies on `char::is_whitespace`: within ASCII exactly tab, line
/// feed, vertical tab, form feed, carriage return and space are
/// whitespace; beyond ASCII the result is a function of the character
/// alone.
#[verifier::external_body]
pub(crate) fn char_is_whitespace(c: char) -> (r: bool)
    ensures
        r == is_whitespace_char(c),
        (c as u32) >= 128 ==> r == is_unicode_whitespace(c),
{
    c.is_whitespace()
}

/// Relies on `str::chars`: the characters of the string, in order.
#[verifier::external_body]
pub(crate) fn str_to_chars(s: &str) -> (r: Vec<char>)
    ensures
        r@ == s@,
{
    s.chars().collect()
}

/// Relies on `String`'s `FromIterator<char>`: the string whose
/// characters are exactly those of `v`, in order.
#[verifier::external_body]
pub(crate) fn chars_to_string(v: &Vec<char>) -> (r: String)
    ensures
        r@ == v@,
{
    v.iter().collect()
}

/// The characters that the scanner treats as symbols (`#` among them:
/// it is claimed by the comment scanner first).
pub open spec fn spec_is_symbol(c: char) -> bool {
    c == '+' || c == '-' || c == '*' || c == '/' || c == '=' || c == '>' || c == '<' || c == '!'
        || c == '?' || c == '.' || c == ',' || c == ';' || c == ':' || c == '(' || c == ')'
        || c == '[' || c == ']' || c == '{' || c == '}' || c == '&' || c == '|' || c == '^'
        || c == '%' || c == '~' || c == '#'
}

/// Whether `c` belongs to the scanner's symbol character set.
pub fn is_symbol(c: char) -> (r: bool)
    ensures
        r == spec_is_symbol(c),
{
    match c {
        '+' | '-' | '*' | '/' | '=' | '>' | '<' | '!' | '?' | '.' | ',' | ';' | ':' | '(' | ')'
        | '[' | ']' | '{' | '}' | '&' | '|' | '^' | '%' | '~' | '#' => true,
        _ => false,
    }
}

/// The two-character symbols: a pair of symbol characters that the
/// symbol scanner consumes as a single token.
pub open spec fn spec_two_char_symbol(a: char, b: char) -> bool {
    (a == '=' && b == '=') || (a == '!' && b == '=') || (a == '>' && b == '=') || (a == '<'
        && b == '=') || (a == '-' && b == '>') || (a == '=' && b == '>') || (a == '*' && b == '=')
        || (a == '-' && b == '=') || (a == '+' && b == '=') || (a == '/' && b == '=')
}

/// Whether the pair `a`, `b` forms a two-character symbol.
pub fn is_two_char_symbol(a: char, b: char) -> (r: bool)
    ensures
        r == spec_two_char_symbol(a, b),
{
    match (a, b) {
        ('=', '=') | ('!', '=') | ('>', '=') | ('<', '=') | ('-', '>') | ('=', '>') | ('*', '=')
        | ('-', '=') | ('+', '=') | ('/', '=') => true,
        _ => false,
    }
}

} // verus!

use vstd::prelude::*;

use crate::chars::chars_to_string;
use crate::error::{Error, SpecError};
use crate::location::Location;
use crate::scan::{SpecToken, SpecTokenKind};

verus! {

/// The kind of a token, with its decoded payload. A float literal
/// carries its undecoded text: decoding it into a floating-point value
/// is left to callers, since the scanner itself never needs the value.
#[derive(Debug, PartialEq)]
pub enum TokenKind {
    StringLiteral(String),
    Comment(String),
    Identifier(String),
    Symbol(String),
    IntegerLiteral(i128),
    FloatLiteral(String),
}

impl View for TokenKind {
    type V = SpecTokenKind;

    open spec fn view(&self) -> SpecTokenKind {
        match self {
            TokenKind::StringLiteral(s) => SpecTokenKind::StringLiteral(s@),
            TokenKind::Comment(s) => SpecTokenKind::Comment(s@),
            TokenKind::Identifier(s) => SpecTokenKind::Identifier(s@),
            TokenKind::Symbol(s) => SpecTokenKind::Symbol(s@),
            TokenKind::IntegerLiteral(v) => SpecTokenKind::IntegerLiteral(*v as int),
            TokenKind::FloatLiteral(s) => SpecTokenKind::FloatLiteral(s@),
        }
    }
}

/// One token: where it begins, its decoded text (without delimiters),
/// and its kind.
#[derive(Debug, PartialEq)]
pub struct Token {
    pub location: Location,
    pub contents: String,
    pub kind: TokenKind,
}

impl View for Token {
    type V = SpecToken;

    open spec fn view(&self) -> SpecToken {
        SpecToken { location: self.location@, contents: self.contents@, kind: self.kind@ }
    }
}

/// The mathematical values of a sequence of tokens, in order.
pub open spec fn token_views(tokens: Seq<Token>) -> Seq<SpecToken> {
    tokens.map_values(|t: Token| t@)
}

/// The decimal digit character for `d`.
pub open spec fn spec_digit_char(d: int) -> char {
    if d == 0 {
        '0'
    } else if d == 1 {
        '1'
    } else if d == 2 {
        '2'
    } else if d == 3 {
        '3'
    } else if d == 4 {
        '4'
    } else if d == 5 {
        '5'
    } else if d == 6 {
        '6'
    } else if d == 7 {
        '7'
    } else if d == 8 {
        '8'
    } else {
        '9'
    }
}

/// The decimal digits of a non-negative `n`, most significant first.
pub open spec fn decimal_digits(n: int) -> Seq<char>
    decreases n,
{
    if n < 10 {
        seq![spec_digit_char(n)]
    } else {
        decimal_digits(n / 10) + seq![spec_digit_char(n % 10)]
    }
}

/// The decimal rendering of `v`, with a leading minus when negative.
pub open spec fn decimal_text(v: int) -> Seq<char> {
    if v < 0 {
        seq!['-'] + decimal_digits(-v)
    } else {
        decimal_digits(v)
    }
}

/// How a token kind is rendered inside a mismatch message: its name,
/// then its payload quoted with `"` for string literals and `'` for
/// everything else.
pub open spec fn spec_kind_text(kind: SpecTokenKind) -> Seq<char> {
    match kind {
        SpecTokenKind::StringLiteral(s) => "string \""@ + s + "\""@,
        SpecTokenKind::Comment(s) => "comment \""@ + s + "\""@,
        SpecTokenKind::Identifier(s) => "identifier '"@ + s + "'"@,
        SpecTokenKind::Symbol(s) => "symbol '"@ + s + "'"@,
        SpecTokenKind::IntegerLiteral(v) => "int '"@ + decimal_text(v) + "'"@,
        SpecTokenKind::FloatLiteral(s) => "float '"@ + s + "'"@,
    }
}

/// The message of the error that an accessor returns when the token's
/// kind is not the expected one.
pub open spec fn mismatch_message(msg: Seq<char>, kind: SpecTokenKind) -> Seq<char> {
    "Expected "@ + msg + ", got "@ + spec_kind_text(kind)
}

/// The decimal digit character for `d`.
fn digit_char(d: u128) -> (c: char)
    requires
        d < 10,
    ensures
        c == spec_digit_char(d as int),
{
    if d == 0 {
        '0'
    } else if d == 1 {
        '1'
    } else if d == 2 {
        '2'
    } else if d == 3 {
        '3'
    } else if d == 4 {
        '4'
    } else if d == 5 {
        '5'
    } else if d == 6 {
        '6'
    } else if d == 7 {
        '7'
    } else if d == 8 {
        '8'
    } else {
        '9'
    }
}

/// Appends the decimal digits of `n` to `out`, most significant first.
fn push_decimal_digits(n: u128, out: &mut Vec<char>)
    ensures
        final(out)@ == old(out)@ + decimal_digits(n as int),
    decreases n,
{
    if n >= 10 {
        push_decimal_digits(n / 10, out);
        out.push(digit_char(n % 10));
        proof {
            assert(final(out)@ == old(out)@ + decimal_digits(n as int)) by {
                assert(decimal_digits(n as int) == decimal_digits(n as int / 10) + seq![
                    spec_digit_char(n as int % 10),
                ]);
                assert(old(out)@ + (decimal_digits(n as int / 10) + seq![
                    spec_digit_char(n as int % 10),
                ]) =~= (old(out)@ + decimal_digits(n as int / 10)) + seq![
                    spec_digit_char(n as int % 10),
                ]);
            }
        }
    } else {
        out.push(digit_char(n));
        proof {
            assert(old(out)@ + decimal_digits(n as int) =~= old(out)@.push(
                spec_digit_char(n as int),
            ));
        }
    }
}

/// The decimal rendering of `v`, as the mismatch message shows it.
fn int_decimal_string(v: i128) -> (r: String)
    ensures
        r@ == decimal_text(v as int),
{
    let mut out: Vec<char> = Vec::new();
    if v < 0 {
        out.push('-');
    }
    let mag: u128 = if v < 0 {
        ((-1 - v) as u128) + 1
    } else {
        v as u128
    };
    push_decimal_digits(mag, &mut out);
    proof {
        if v < 0 {
            assert(seq!['-'] + decimal_digits(mag as int) =~= seq![].push('-')
                + decimal_digits(mag as int));
        }
    }
    chars_to_string(&out)
}

impl TokenKind {
    /// Renders the kind as a mismatch message shows it.
    pub fn describe(&self) -> (r: String)
        ensures
            r@ == spec_kind_text(self@),
    {
        match self {
            TokenKind::StringLiteral(s) => String::from_str("string \"").concat(s.as_str()).concat(
                "\"",
            ),
            TokenKind::Comment(s) => String::from_str("comment \"").concat(s.as_str()).concat(
                "\"",
            ),
            TokenKind::Identifier(s) => String::from_str("identifier '").concat(s.as_str()).concat(
                "'",
            ),
            TokenKind::Symbol(s) => String::from_str("symbol '").concat(s.as_str()).concat("'"),
            TokenKind::IntegerLiteral(v) => String::from_str("int '").concat(
                int_decimal_string(*v).as_str(),
            ).concat("'"),
            TokenKind::FloatLiteral(s) => String::from_str("float '").concat(s.as_str()).concat(
                "'",
            ),
        }
    }
}

impl Token {
    /// The error an accessor returns when this token's kind is not the
    /// expected one: the message names what was expected (`msg`) and
    /// what stands here, and the location is the token's own.
    fn mismatch_error(&self, msg: &str) -> (e: Error)
        ensures
            e@ == (SpecError {
                message: mismatch_message(msg@, self@.kind),
                location: self@.location,
            }),
    {
        let mut m = String::from_str("Expected ");
        m.append(msg);
        m.append(", got ");
        let k = self.kind.describe();
        m.append(k.as_str());
        Error { message: m, location: self.location.clone() }
    }

    /// The string payload, if this token is a string literal; else the
    /// mismatch error naming `msg`.
    pub fn assert_string(&self, msg: &str) -> (r: Result<String, Error>)
        ensures
            match r {
                Ok(s) => self@.kind matches SpecTokenKind::StringLiteral(p) && s@ == p,
                Err(e) => !(self@.kind is StringLiteral) && e@ == (SpecError {
                    message: mismatch_message(msg@, self@.kind),
                    location: self@.location,
                }),
            },
    {
        match &self.kind {
            TokenKind::StringLiteral(s) => Ok(s.clone()),
            _ => Err(self.mismatch_error(msg)),
        }
    }

    /// The comment text, if this token is a comment; else the mismatch
    /// error naming `msg`.
    pub fn assert_comment(&self, msg: &str) -> (r: Result<String, Error>)
        ensures
            match r {
                Ok(s) => self@.kind matches SpecTokenKind::Comment(p) && s@ == p,
                Err(e) => !(self@.kind is Comment) && e@ == (SpecError {
                    message: mismatch_message(msg@, self@.kind),
                    location: self@.location,
                }),
            },
    {
        match &self.kind {
            TokenKind::Comment(s) => Ok(s.clone()),
            _ => Err(self.mismatch_error(msg)),
        }
    }

    /// The identifier text, if this token is an identifier; else the
    /// mismatch error naming `msg`.
    pub fn assert_identifier(&self, msg: &str) -> (r: Result<String, Error>)
        ensures
            match r {
                Ok(s) => self@.kind matches SpecTokenKind::Identifier(p) && s@ == p,
                Err(e) => !(self@.kind is Identifier) && e@ == (SpecError {
                    message: mismatch_message(msg@, self@.kind),
                    location: self@.location,
                }),
            },
    {
        match &self.kind {
            TokenKind::Identifier(s) => Ok(s.clone()),
            _ => Err(self.mismatch_error(msg)),
        }
    }

    /// The symbol text, if this token is a symbol; else the mismatch
    /// error naming `msg`.
    pub fn assert_symbol(&self, msg: &str) -> (r: Result<String, Error>)
        ensures
            match r {
                Ok(s) => self@.kind matches SpecTokenKind::Symbol(p) && s@ == p,
                Err(e) => !(self@.kind is Symbol) && e@ == (SpecError {
                    message: mismatch_message(msg@, self@.kind),
                    location: self@.location,
                }),
            },
    {
        match &self.kind {
            TokenKind::Symbol(s) => Ok(s.clone()),
            _ => Err(self.mismatch_error(msg)),
        }
    }

    /// The integer value, if this token is an integer literal; else the
    /// mismatch error naming `msg`.
    pub fn assert_int(&self, msg: &str) -> (r: Result<i128, Error>)
        ensures
            match r {
                Ok(v) => self@.kind matches SpecTokenKind::IntegerLiteral(p) && v as int == p,
                Err(e) => !(self@.kind is IntegerLiteral) && e@ == (SpecError {
                    message: mismatch_message(msg@, self@.kind),
                    location: self@.location,
                }),
            },
    {
        match &self.kind {
            TokenKind::IntegerLiteral(v) => Ok(*v),
            _ => Err(self.mismatch_error(msg)),
        }
    }

    /// The float literal's undecoded text, if this token is a float
    /// literal; else the mismatch error naming `msg`.
    pub fn assert_float(&self, msg: &str) -> (r: Result<String, Error>)
        ensures
            match r {
                Ok(s) => self@.kind matches SpecTokenKind::FloatLiteral(p) && s@ == p,
                Err(e) => !(self@.kind is FloatLiteral) && e@ == (SpecError {
                    message: mismatch_message(msg@, self@.kind),
                    location: self@.location,
                }),
            },
    {
        match &self.kind {
            TokenKind::FloatLiteral(s) => Ok(s.clone()),
            _ => Err(self.mismatch_error(msg)),
        }
    }
}

} // verus!

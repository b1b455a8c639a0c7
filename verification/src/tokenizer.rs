use vstd::prelude::*;

use crate::chars::{
    char_is_numeric, char_is_whitespace, chars_to_string, is_symbol, is_two_char_symbol,
    is_whitespace_char, spec_is_symbol, spec_two_char_symbol, str_to_chars,
};
use crate::error::{Error, SpecError};
use crate::location::Location;
use crate::scan::{
    advance_location, digit_value, digits_value, fits_i128, identifier_end, int_value,
    is_decimal_digit, is_int_text, lemma_advance_location_push, lemma_digits_value_prefix,
    lemma_identifier_end_bounds, lemma_line_end_bounds, lemma_normalize_len,
    lemma_number_end_bounds, lemma_string_body_bounds, line_end, normalize_newlines, number_end,
    scan_integers_representable, scan_prepend, spec_scan, spec_tokenize, starts_number,
    step_location, string_body, trim, trim_end, trim_start, SpecToken, SpecTokenKind,
};
use crate::token::{token_views, Token, TokenKind};

verus! {

/// Scans `contents` into its token sequence, starting the running
/// location at `location`. Returns the tokens in source order, or the
/// first failure.
pub fn tokenize(contents: &str, location: Location) -> (r: Result<Vec<Token>, Error>)
    requires
        location.column + contents@.len() <= usize::MAX,
        location.row + contents@.len() <= usize::MAX,
        scan_integers_representable(contents@, location@),
    ensures
        ({
            let outcome = spec_tokenize(contents@, location@);
            match r {
                Ok(tokens) => outcome.1 is None && token_views(tokens@) == outcome.0,
                Err(e) => outcome.1 matches Some(se) && e@ == se,
            }
        }),
{
    Tokenizer::tokenize(contents, location)
}

/// The scanner: the input text with line endings normalized, a cursor
/// (an index into the text's characters), and the running location of
/// the character under the cursor.
pub struct Tokenizer {
    contents: Vec<char>,
    index: usize,
    location: Location,
}

impl Tokenizer {
    /// Scans `contents` into its token sequence, starting the running
    /// location at `location`: normalizes line endings, then repeatedly
    /// dispatches on the character under the cursor (comment, string,
    /// whitespace, number, symbol, identifier) until the text ends or a
    /// sub-scanner fails.
    #[verifier::loop_isolation(false)]
    #[verifier::rlimit(50)]
    pub fn tokenize(contents: &str, location: Location) -> (r: Result<Vec<Token>, Error>)
        requires
            location.column + contents@.len() <= usize::MAX,
            location.row + contents@.len() <= usize::MAX,
            scan_integers_representable(contents@, location@),
        ensures
            ({
                let outcome = spec_tokenize(contents@, location@);
                match r {
                    Ok(tokens) => outcome.1 is None && token_views(tokens@) == outcome.0,
                    Err(e) => outcome.1 matches Some(se) && e@ == se,
                }
            }),
    {
        let ghost loc0 = location@;
        let raw = str_to_chars(contents);
        let normalized = normalize_chars(&raw);
        let ghost text = normalized@;
        proof {
            lemma_normalize_len(raw@);
        }
        let mut tokens: Vec<Token> = Vec::new();
        let mut tokenizer = Tokenizer { index: 0, contents: normalized, location };
        proof {
            assert(token_views(tokens@) =~= Seq::<SpecToken>::empty());
            assert(Seq::<SpecToken>::empty() + spec_scan(text, 0, loc0).0 =~= spec_scan(
                text,
                0,
                loc0,
            ).0);
        }
        while tokenizer.index < tokenizer.contents.len()
            invariant
                tokenizer.wf(),
                tokenizer.contents@ == text,
                spec_scan(text, 0, loc0) == scan_prepend(
                    token_views(tokens@),
                    spec_scan(text, tokenizer.index as int, tokenizer.location@),
                ),
            decreases text.len() - tokenizer.index,
        {
            let ghost j = tokenizer.index as int;
            let ghost locj = tokenizer.location@;
            let ghost produced = token_views(tokens@);
            let c = tokenizer.contents[tokenizer.index];
            if c == '#' {
                let token = match tokenizer.read_comment() {
                    Ok(t) => t,
                    Err(e) => return Err(e),
                };
                tokens.push(token);
                proof {
                    lemma_line_end_bounds(text, j + 1);
                    let end = line_end(text, j + 1);
                    let cs = trim(text.subrange(j + 1, end));
                    let tok = SpecToken { location: locj, contents: cs, kind: SpecTokenKind::Comment(cs) };
                    let rest = spec_scan(text, end, advance_location(locj, text.subrange(j, end)));
                    assert(spec_scan(text, j, locj) == (seq![tok] + rest.0, rest.1));
                    assert(token_views(tokens@) =~= produced.push(tok));
                    assert(produced + (seq![tok] + rest.0) =~= produced.push(tok) + rest.0);
                }
            } else if c == '"' {
                let token = match tokenizer.read_string_literal() {
                    Ok(t) => t,
                    Err(e) => return Err(e),
                };
                tokens.push(token);
                proof {
                    lemma_string_body_bounds(text, j + 1, Seq::<char>::empty());
                    let body = string_body(text, j + 1, Seq::<char>::empty());
                    assert(body is Some);
                    let (cs, end) = body->Some_0;
                    let tok = SpecToken {
                        location: locj,
                        contents: cs,
                        kind: SpecTokenKind::StringLiteral(cs),
                    };
                    let rest = spec_scan(text, end, advance_location(locj, text.subrange(j, end)));
                    assert(spec_scan(text, j, locj) == (seq![tok] + rest.0, rest.1));
                    assert(token_views(tokens@) =~= produced.push(tok));
                    assert(produced + (seq![tok] + rest.0) =~= produced.push(tok) + rest.0);
                }
            } else if char_is_whitespace(c) {
                tokenizer.next_char();
            } else {
                let mut numeric = char_is_numeric(c);
                if !numeric && (c == '-' || c == '.') && tokenizer.contents.len() - tokenizer.index
                    > 1 {
                    numeric = char_is_numeric(tokenizer.contents[tokenizer.index + 1]);
                }
                proof {
                    assert(numeric == starts_number(text, j));
                }
                if numeric {
                    proof {
                        match number_end(text, j + 1, text[j] == '.') {
                            Ok(p) => {
                                if !p.1 {
                                    let end = p.0;
                                    let cs = text.subrange(j, end);
                                    let tok = SpecToken {
                                        location: locj,
                                        contents: cs,
                                        kind: SpecTokenKind::IntegerLiteral(int_value(cs)),
                                    };
                                    let rest = spec_scan(text, end, advance_location(locj, cs));
                                    assert(spec_scan(text, j, locj) == (seq![tok] + rest.0, rest.1));
                                    assert(spec_tokenize(contents@, loc0).0 == produced + (seq![tok]
                                        + rest.0));
                                    assert(spec_tokenize(contents@, loc0).0[produced.len() as int]
                                        == tok);
                                }
                            },
                            Err(_) => {},
                        }
                    }
                    let token = match tokenizer.read_number() {
                        Ok(t) => t,
                        Err(e) => return Err(e),
                    };
                    tokens.push(token);
                    proof {
                        lemma_number_end_bounds(text, j + 1, text[j] == '.');
                        let step = number_end(text, j + 1, text[j] == '.');
                        assert(step is Ok);
                        let (end, sp) = step->Ok_0;
                        let cs = text.subrange(j, end);
                        let tok = SpecToken {
                            location: locj,
                            contents: cs,
                            kind: if sp {
                                SpecTokenKind::FloatLiteral(cs)
                            } else {
                                SpecTokenKind::IntegerLiteral(int_value(cs))
                            },
                        };
                        let rest = spec_scan(text, end, advance_location(locj, cs));
                        assert(spec_scan(text, j, locj) == (seq![tok] + rest.0, rest.1));
                        assert(token_views(tokens@) =~= produced.push(tok));
                        assert(produced + (seq![tok] + rest.0) =~= produced.push(tok) + rest.0);
                    }
                } else if is_symbol(c) {
                    let token = match tokenizer.read_symbol() {
                        Ok(t) => t,
                        Err(e) => return Err(e),
                    };
                    tokens.push(token);
                    proof {
                        let end: int = if j + 1 < text.len() && spec_two_char_symbol(
                            text[j],
                            text[j + 1],
                        ) {
                            j + 2
                        } else {
                            j + 1
                        };
                        let cs = text.subrange(j, end);
                        let tok = SpecToken {
                            location: locj,
                            contents: cs,
                            kind: SpecTokenKind::Symbol(cs),
                        };
                        let rest = spec_scan(text, end, advance_location(locj, cs));
                        assert(spec_scan(text, j, locj) == (seq![tok] + rest.0, rest.1));
                        assert(token_views(tokens@) =~= produced.push(tok));
                        assert(produced + (seq![tok] + rest.0) =~= produced.push(tok) + rest.0);
                    }
                } else {
                    let token = match tokenizer.read_identifier() {
                        Ok(t) => t,
                        Err(e) => return Err(e),
                    };
                    tokens.push(token);
                    proof {
                        lemma_identifier_end_bounds(text, j + 1);
                        let end = identifier_end(text, j + 1);
                        let cs = text.subrange(j, end);
                        let tok = SpecToken {
                            location: locj,
                            contents: cs,
                            kind: SpecTokenKind::Identifier(cs),
                        };
                        let rest = spec_scan(text, end, advance_location(locj, cs));
                        assert(spec_scan(text, j, locj) == (seq![tok] + rest.0, rest.1));
                        assert(token_views(tokens@) =~= produced.push(tok));
                        assert(produced + (seq![tok] + rest.0) =~= produced.push(tok) + rest.0);
                    }
                }
            }
        }
        proof {
            assert(spec_scan(text, tokenizer.index as int, tokenizer.location@) == (
                Seq::<SpecToken>::empty(),
                None::<SpecError>,
            ));
            assert(token_views(tokens@) + Seq::<SpecToken>::empty() =~= token_views(tokens@));
        }
        Ok(tokens)
    }

    /// The cursor never runs past the text, and enough headroom is left
    /// for the running location to advance over the remaining
    /// characters without overflowing.
    spec fn wf(&self) -> bool {
        &&& self.index <= self.contents@.len()
        &&& self.location.column + (self.contents@.len() - self.index) <= usize::MAX
        &&& self.location.row + (self.contents@.len() - self.index) <= usize::MAX
    }

    /// The character under the cursor, if any, without consuming it.
    fn peek_char(&self) -> (r: Option<char>)
        ensures
            r == (if self.index < self.contents@.len() {
                Some(self.contents@[self.index as int])
            } else {
                None::<char>
            }),
    {
        if self.index < self.contents.len() {
            Some(self.contents[self.index])
        } else {
            None
        }
    }

    /// Consumes one character: returns it with the location it was
    /// read at, and advances the running location (a newline starts the
    /// next row at column zero).
    fn next_char(&mut self) -> (r: Option<(char, Location)>)
        requires
            old(self).wf(),
        ensures
            final(self).wf(),
            final(self).contents@ == old(self).contents@,
            old(self).index < old(self).contents@.len() ==> {
                let c = old(self).contents@[old(self).index as int];
                &&& r matches Some(p) && p.0 == c && p.1@ == old(self).location@
                &&& final(self).index == old(self).index + 1
                &&& final(self).location@ == step_location(old(self).location@, c)
            },
            old(self).index >= old(self).contents@.len() ==> r is None && final(self).index == old(
                self,
            ).index && final(self).location@ == old(self).location@,
    {
        if self.index >= self.contents.len() {
            return None;
        }
        let c = self.contents[self.index];
        let location = self.location.clone();
        self.index = self.index + 1;
        self.location.column = self.location.column + 1;
        if c == '\n' {
            self.location.row = self.location.row + 1;
            self.location.column = 0;
        }
        Some((c, location))
    }

    /// Consumes characters up to, and not including, the next newline
    /// or the text's end. Returns the consumed text and the location of
    /// its first character, or `None` when nothing was consumed.
    fn read_until_endline(&mut self) -> (r: Option<(String, Location)>)
        requires
            old(self).wf(),
        ensures
            final(self).wf(),
            final(self).contents@ == old(self).contents@,
            ({
                let text = old(self).contents@;
                let i = old(self).index as int;
                let end = line_end(text, i);
                &&& final(self).index == end
                &&& final(self).location@ == advance_location(
                    old(self).location@,
                    text.subrange(i, end),
                )
                &&& (end > i ==> (r matches Some(p) && p.0@ == text.subrange(i, end) && p.1@
                    == old(self).location@))
                &&& (end == i ==> r is None)
            }),
    {
        let ghost text = self.contents@;
        let ghost i0 = self.index as int;
        let ghost loc0 = self.location@;
        let mut buffer: Vec<char> = Vec::new();
        let location = self.location.clone();
        proof {
            assert(text.subrange(i0, i0) =~= Seq::<char>::empty());
        }
        while self.index < self.contents.len() && self.contents[self.index] != '\n'
            invariant
                self.wf(),
                self.contents@ == text,
                0 <= i0 <= self.index as int <= text.len(),
                line_end(text, i0) == line_end(text, self.index as int),
                buffer@ == text.subrange(i0, self.index as int),
                self.location@ == advance_location(loc0, text.subrange(i0, self.index as int)),
            decreases text.len() - self.index,
        {
            let ghost j = self.index as int;
            buffer.push(self.contents[self.index]);
            self.next_char();
            proof {
                assert(text.subrange(i0, j + 1) =~= text.subrange(i0, j).push(text[j]));
                lemma_advance_location_push(loc0, text.subrange(i0, j), text[j]);
            }
        }
        if buffer.len() == 0 {
            None
        } else {
            Some((chars_to_string(&buffer), location))
        }
    }

    /// Consumes a maximal run of characters that are neither whitespace
    /// nor symbols. Returns the consumed text and the location of its
    /// first character, or `None` when nothing was consumed.
    fn read_token(&mut self) -> (r: Option<(String, Location)>)
        requires
            old(self).wf(),
        ensures
            final(self).wf(),
            final(self).contents@ == old(self).contents@,
            ({
                let text = old(self).contents@;
                let i = old(self).index as int;
                let end = identifier_end(text, i);
                &&& final(self).index == end
                &&& final(self).location@ == advance_location(
                    old(self).location@,
                    text.subrange(i, end),
                )
                &&& (end > i ==> (r matches Some(p) && p.0@ == text.subrange(i, end) && p.1@
                    == old(self).location@))
                &&& (end == i ==> r is None)
            }),
    {
        let ghost text = self.contents@;
        let ghost i0 = self.index as int;
        let ghost loc0 = self.location@;
        let mut buffer: Vec<char> = Vec::new();
        let location = self.location.clone();
        proof {
            assert(text.subrange(i0, i0) =~= Seq::<char>::empty());
        }
        while self.index < self.contents.len() && !char_is_whitespace(self.contents[self.index])
            && !is_symbol(self.contents[self.index])
            invariant
                self.wf(),
                self.contents@ == text,
                0 <= i0 <= self.index as int <= text.len(),
                identifier_end(text, i0) == identifier_end(text, self.index as int),
                buffer@ == text.subrange(i0, self.index as int),
                self.location@ == advance_location(loc0, text.subrange(i0, self.index as int)),
            decreases text.len() - self.index,
        {
            let ghost j = self.index as int;
            buffer.push(self.contents[self.index]);
            self.next_char();
            proof {
                assert(text.subrange(i0, j + 1) =~= text.subrange(i0, j).push(text[j]));
                lemma_advance_location_push(loc0, text.subrange(i0, j), text[j]);
            }
        }
        if buffer.len() == 0 {
            None
        } else {
            Some((chars_to_string(&buffer), location))
        }
    }

    /// Scans a comment: consumes the `#` and the rest of the line, and
    /// produces a comment token whose contents are the line's text with
    /// surrounding whitespace removed.
    fn read_comment(&mut self) -> (r: Result<Token, Error>)
        requires
            old(self).wf(),
            old(self).index < old(self).contents@.len(),
            old(self).contents@[old(self).index as int] == '#',
        ensures
            final(self).wf(),
            final(self).contents@ == old(self).contents@,
            ({
                let text = old(self).contents@;
                let i = old(self).index as int;
                let end = line_end(text, i + 1);
                let c = trim(text.subrange(i + 1, end));
                &&& final(self).index == end
                &&& final(self).location@ == advance_location(
                    old(self).location@,
                    text.subrange(i, end),
                )
                &&& r matches Ok(t) && t@ == (SpecToken {
                    location: old(self).location@,
                    contents: c,
                    kind: SpecTokenKind::Comment(c),
                })
            }),
    {
        let ghost text = self.contents@;
        let ghost i0 = self.index as int;
        let ghost loc0 = self.location@;
        let location = self.location.clone();
        self.next_char();
        let comment = match self.read_until_endline() {
            Some(p) => p.0,
            None => String::new(),
        };
        proof {
            let end = line_end(text, i0 + 1);
            lemma_line_end_bounds(text, i0 + 1);
            assert(text.subrange(i0, end)[0] == text[i0]);
            assert(text.subrange(i0, end).skip(1) =~= text.subrange(i0 + 1, end));
            assert(advance_location(loc0, text.subrange(i0, end)) == advance_location(
                step_location(loc0, text[i0]),
                text.subrange(i0 + 1, end),
            ));
            if end == i0 + 1 {
                assert(text.subrange(i0 + 1, end) =~= Seq::<char>::empty());
            }
        }
        let comment_chars = str_to_chars(comment.as_str());
        let trimmed = trim_chars(&comment_chars);
        let trimmed_str = chars_to_string(&trimmed);
        let contents = trimmed_str.clone();
        Ok(Token { location, contents, kind: TokenKind::Comment(trimmed_str) })
    }

    /// Scans an identifier: a maximal run of characters that are
    /// neither whitespace nor symbols.
    fn read_identifier(&mut self) -> (r: Result<Token, Error>)
        requires
            old(self).wf(),
            old(self).index < old(self).contents@.len(),
            !is_whitespace_char(old(self).contents@[old(self).index as int]),
            !spec_is_symbol(old(self).contents@[old(self).index as int]),
        ensures
            final(self).wf(),
            final(self).contents@ == old(self).contents@,
            ({
                let text = old(self).contents@;
                let i = old(self).index as int;
                let end = identifier_end(text, i + 1);
                let c = text.subrange(i, end);
                &&& final(self).index == end
                &&& final(self).location@ == advance_location(old(self).location@, c)
                &&& r matches Ok(t) && t@ == (SpecToken {
                    location: old(self).location@,
                    contents: c,
                    kind: SpecTokenKind::Identifier(c),
                })
            }),
    {
        let ghost text = self.contents@;
        let ghost i0 = self.index as int;
        let location = self.location.clone();
        proof {
            lemma_identifier_end_bounds(text, i0 + 1);
        }
        let token = match self.read_token() {
            Some(p) => p.0,
            None => String::new(),
        };
        let contents = token.clone();
        Ok(Token { location, contents, kind: TokenKind::Identifier(token) })
    }

    /// Scans a symbol: the character under the cursor, joined with the
    /// following one when the pair belongs to the two-character symbol
    /// set.
    fn read_symbol(&mut self) -> (r: Result<Token, Error>)
        requires
            old(self).wf(),
            old(self).index < old(self).contents@.len(),
            spec_is_symbol(old(self).contents@[old(self).index as int]),
        ensures
            final(self).wf(),
            final(self).contents@ == old(self).contents@,
            ({
                let text = old(self).contents@;
                let i = old(self).index as int;
                let end: int = if i + 1 < text.len() && spec_two_char_symbol(
                    text[i],
                    text[i + 1],
                ) {
                    i + 2
                } else {
                    i + 1
                };
                let c = text.subrange(i, end);
                &&& final(self).index == end
                &&& final(self).location@ == advance_location(old(self).location@, c)
                &&& r matches Ok(t) && t@ == (SpecToken {
                    location: old(self).location@,
                    contents: c,
                    kind: SpecTokenKind::Symbol(c),
                })
            }),
    {
        let ghost text = self.contents@;
        let ghost i0 = self.index as int;
        let ghost loc0 = self.location@;
        let location = self.location.clone();
        let mut buffer: Vec<char> = Vec::new();
        let first = self.contents[self.index];
        buffer.push(first);
        let mut two = false;
        if self.contents.len() - self.index > 1 {
            let second = self.contents[self.index + 1];
            if is_two_char_symbol(first, second) {
                buffer.push(second);
                two = true;
            }
        }
        self.next_char();
        if two {
            self.next_char();
        }
        proof {
            assert(text.subrange(i0, i0 + 1) =~= Seq::<char>::empty().push(text[i0]));
            lemma_advance_location_push(loc0, Seq::<char>::empty(), text[i0]);
            if two {
                assert(text.subrange(i0, i0 + 2) =~= text.subrange(i0, i0 + 1).push(text[i0 + 1]));
                lemma_advance_location_push(loc0, text.subrange(i0, i0 + 1), text[i0 + 1]);
            }
        }
        let s = chars_to_string(&buffer);
        let contents = s.clone();
        Ok(Token { location, contents, kind: TokenKind::Symbol(s) })
    }

    /// Scans a string literal: consumes the opening quote, decodes the
    /// body (a backslash before a quote keeps the quote literal), and
    /// consumes the closing quote. Fails with the unclosed-string error,
    /// located at the opening quote, when the text ends first.
    #[verifier::loop_isolation(false)]
    fn read_string_literal(&mut self) -> (r: Result<Token, Error>)
        requires
            old(self).wf(),
            old(self).index < old(self).contents@.len(),
            old(self).contents@[old(self).index as int] == '"',
        ensures
            final(self).wf(),
            final(self).contents@ == old(self).contents@,
            ({
                let text = old(self).contents@;
                let i = old(self).index as int;
                match string_body(text, i + 1, Seq::<char>::empty()) {
                    None => r matches Err(e) && e@ == (SpecError {
                        message: "Unclosed string"@,
                        location: old(self).location@,
                    }),
                    Some((c, end)) => {
                        &&& r matches Ok(t) && t@ == (SpecToken {
                            location: old(self).location@,
                            contents: c,
                            kind: SpecTokenKind::StringLiteral(c),
                        })
                        &&& final(self).index == end
                        &&& final(self).location@ == advance_location(
                            old(self).location@,
                            text.subrange(i, end),
                        )
                    },
                }
            }),
    {
        let ghost text = self.contents@;
        let ghost i0 = self.index as int;
        let ghost loc0 = self.location@;
        let location = self.location.clone();
        self.next_char();
        let mut buffer: Vec<char> = Vec::new();
        proof {
            assert(text.subrange(i0, i0 + 1) =~= Seq::<char>::empty().push(text[i0]));
            lemma_advance_location_push(loc0, Seq::<char>::empty(), text[i0]);
        }
        loop
            invariant
                self.wf(),
                self.contents@ == text,
                0 <= i0 < text.len(),
                i0 + 1 <= self.index as int <= text.len(),
                text[i0] == '"',
                location@ == loc0,
                string_body(text, i0 + 1, Seq::<char>::empty()) == string_body(
                    text,
                    self.index as int,
                    buffer@,
                ),
                self.location@ == advance_location(loc0, text.subrange(i0, self.index as int)),
            decreases text.len() - self.index,
        {
            if self.index >= self.contents.len() {
                return Err(
                    Error { message: String::from_str("Unclosed string"), location: location.clone() },
                );
            }
            let ghost j = self.index as int;
            let c = self.contents[self.index];
            if c == '"' {
                let escaped = buffer.len() > 0 && buffer[buffer.len() - 1] == '\\';
                if !escaped {
                    self.next_char();
                    proof {
                        assert(text.subrange(i0, j + 1) =~= text.subrange(i0, j).push(text[j]));
                        lemma_advance_location_push(loc0, text.subrange(i0, j), text[j]);
                    }
                    let s = chars_to_string(&buffer);
                    let contents = s.clone();
                    return Ok(
                        Token {
                            location: location.clone(),
                            contents,
                            kind: TokenKind::StringLiteral(s),
                        },
                    );
                } else {
                    buffer.pop();
                    buffer.push('"');
                    self.next_char();
                    proof {
                        assert(text.subrange(i0, j + 1) =~= text.subrange(i0, j).push(text[j]));
                        lemma_advance_location_push(loc0, text.subrange(i0, j), text[j]);
                    }
                }
            } else {
                buffer.push(c);
                self.next_char();
                proof {
                    assert(text.subrange(i0, j + 1) =~= text.subrange(i0, j).push(text[j]));
                    lemma_advance_location_push(loc0, text.subrange(i0, j), text[j]);
                }
            }
        }
    }

    /// Scans a numeric literal: consumes the first character (a digit,
    /// a minus or a period) unconditionally, then digits, accepting one
    /// period. A second period fails with the multiple-decimal-points
    /// error at the running location of the offending period. With a
    /// period the literal is a float (kept as text), without one an
    /// integer.
    fn read_number(&mut self) -> (r: Result<Token, Error>)
        requires
            old(self).wf(),
            old(self).index < old(self).contents@.len(),
            starts_number(old(self).contents@, old(self).index as int),
            ({
                let text = old(self).contents@;
                let i = old(self).index as int;
                match number_end(text, i + 1, text[i] == '.') {
                    Ok((end, sp)) => !sp ==> is_int_text(text.subrange(i, end)) && fits_i128(
                        int_value(text.subrange(i, end)),
                    ),
                    Err(_) => true,
                }
            }),
        ensures
            final(self).wf(),
            final(self).contents@ == old(self).contents@,
            ({
                let text = old(self).contents@;
                let i = old(self).index as int;
                match number_end(text, i + 1, text[i] == '.') {
                    Err(j) => r matches Err(e) && e@ == (SpecError {
                        message: "Float literal cannot have multiple decimal points"@,
                        location: advance_location(old(self).location@, text.subrange(i, j)),
                    }),
                    Ok((end, sp)) => {
                        let c = text.subrange(i, end);
                        &&& r matches Ok(t) && t@ == (SpecToken {
                            location: old(self).location@,
                            contents: c,
                            kind: if sp {
                                SpecTokenKind::FloatLiteral(c)
                            } else {
                                SpecTokenKind::IntegerLiteral(int_value(c))
                            },
                        })
                        &&& final(self).index == end
                        &&& final(self).location@ == advance_location(old(self).location@, c)
                    },
                }
            }),
    {
        let ghost text = self.contents@;
        let ghost i0 = self.index as int;
        let ghost loc0 = self.location@;
        let ghost sp0 = text[i0] == '.';
        let location = self.location.clone();
        let mut buffer: Vec<char> = Vec::new();
        let first = self.contents[self.index];
        buffer.push(first);
        let mut has_period = first == '.';
        self.next_char();
        proof {
            assert(text.subrange(i0, i0 + 1) =~= Seq::<char>::empty().push(text[i0]));
            lemma_advance_location_push(loc0, Seq::<char>::empty(), text[i0]);
        }
        while self.index < self.contents.len() && ((self.contents[self.index] == '.'
            && !has_period) || char_is_numeric(self.contents[self.index]))
            invariant
                self.wf(),
                self.contents@ == text,
                0 <= i0 < text.len(),
                i0 + 1 <= self.index as int <= text.len(),
                sp0 == (text[i0] == '.'),
                number_end(text, i0 + 1, sp0) == number_end(text, self.index as int, has_period),
                buffer@ == text.subrange(i0, self.index as int),
                self.location@ == advance_location(loc0, text.subrange(i0, self.index as int)),
            decreases text.len() - self.index,
        {
            let ghost j = self.index as int;
            let c = self.contents[self.index];
            if c == '.' {
                has_period = true;
            }
            buffer.push(c);
            self.next_char();
            proof {
                assert(text.subrange(i0, j + 1) =~= text.subrange(i0, j).push(text[j]));
                lemma_advance_location_push(loc0, text.subrange(i0, j), text[j]);
            }
        }
        if has_period && self.peek_char() == Some('.') {
            return Err(
                Error {
                    message: String::from_str("Float literal cannot have multiple decimal points"),
                    location: self.location.clone(),
                },
            );
        }
        let contents_str = chars_to_string(&buffer);
        let kind = if has_period {
            TokenKind::FloatLiteral(contents_str.clone())
        } else {
            let v = parse_int_chars(&buffer);
            TokenKind::IntegerLiteral(v)
        };
        Ok(Token { location, contents: contents_str, kind })
    }
}

/// The numeric value of a decimal digit character.
fn char_digit(c: char) -> (d: u32)
    requires
        is_decimal_digit(c),
    ensures
        d == digit_value(c),
        d <= 9,
{
    (c as u32) - 48
}

/// Decodes plain decimal integer text into its value.
#[verifier::loop_isolation(false)]
fn parse_int_chars(s: &Vec<char>) -> (r: i128)
    requires
        is_int_text(s@),
        fits_i128(int_value(s@)),
    ensures
        r as int == int_value(s@),
{
    let neg = s[0] == '-';
    let start: usize = if neg {
        1
    } else {
        0
    };
    let ghost digits = s@.skip(start as int);
    proof {
        if !neg {
            assert(s@.skip(0) =~= s@);
        }
        assert(digits.take(0) =~= Seq::<char>::empty());
    }
    let mut acc: i128 = 0;
    let mut k: usize = start;
    while k < s.len()
        invariant
            is_int_text(s@),
            fits_i128(int_value(s@)),
            neg == (s@[0] == '-'),
            start == (if neg {
                1int
            } else {
                0int
            }),
            start <= k <= s@.len(),
            digits == s@.skip(start as int),
            acc as int == (if neg {
                -digits_value(digits.take(k - start))
            } else {
                digits_value(digits.take(k - start))
            }),
        decreases s@.len() - k,
    {
        let ghost n = k - start;
        proof {
            assert(forall|j: int| 0 <= j < digits.len() ==> is_decimal_digit(#[trigger] digits[j]));
            assert(digits.take(n + 1).drop_last() =~= digits.take(n));
            assert(digits.take(n + 1).last() == digits[n]);
            assert(digits[n] == s@[k as int]);
            lemma_digits_value_prefix(digits, n + 1);
            assert(digits.take(digits.len() as int) =~= digits);
            lemma_digits_value_prefix(digits, digits.len() as int);
            if neg {
                assert(int_value(s@) == -digits_value(digits));
            } else {
                assert(s@.skip(0) =~= s@);
                assert(int_value(s@) == digits_value(digits));
            }
        }
        let d = char_digit(s[k]);
        if neg {
            acc = acc * 10 - (d as i128);
        } else {
            acc = acc * 10 + (d as i128);
        }
        k = k + 1;
    }
    proof {
        assert(digits.take(k - start) =~= digits);
    }
    acc
}


/// Replaces each `\r\n` pair in `v` with a single `\n`, scanning
/// left to right.
#[verifier::loop_isolation(false)]
fn normalize_chars(v: &Vec<char>) -> (r: Vec<char>)
    ensures
        r@ == normalize_newlines(v@),
{
    let mut out: Vec<char> = Vec::new();
    let mut i: usize = 0;
    proof {
        assert(v@.skip(0) =~= v@);
        assert(Seq::<char>::empty() + normalize_newlines(v@) =~= normalize_newlines(v@));
    }
    while i < v.len()
        invariant
            i <= v@.len(),
            normalize_newlines(v@) == out@ + normalize_newlines(v@.skip(i as int)),
        decreases v@.len() - i,
    {
        let ghost prev = out@;
        let ghost s = v@.skip(i as int);
        if v[i] == '\r' && v.len() - i > 1 && v[i + 1] == '\n' {
            out.push('\n');
            proof {
                assert(s[0] == '\r');
                assert(s[1] == '\n');
                assert(s.skip(2) =~= v@.skip(i as int + 2));
                assert(normalize_newlines(s) == seq!['\n'] + normalize_newlines(
                    v@.skip(i as int + 2),
                ));
                assert(prev + (seq!['\n'] + normalize_newlines(v@.skip(i as int + 2))) =~= (
                prev.push('\n')) + normalize_newlines(v@.skip(i as int + 2)));
            }
            i = i + 2;
        } else {
            let c = v[i];
            out.push(c);
            proof {
                assert(s[0] == c);
                assert(s.skip(1) =~= v@.skip(i as int + 1));
                assert(normalize_newlines(s) == seq![c] + normalize_newlines(
                    v@.skip(i as int + 1),
                ));
                assert(prev + (seq![c] + normalize_newlines(v@.skip(i as int + 1))) =~= (prev.push(
                    c,
                )) + normalize_newlines(v@.skip(i as int + 1)));
            }
            i = i + 1;
        }
    }
    proof {
        assert(v@.skip(v@.len() as int) =~= Seq::<char>::empty());
        assert(out@ + Seq::<char>::empty() =~= out@);
    }
    out
}

/// `v` without leading and trailing whitespace.
fn trim_chars(v: &Vec<char>) -> (r: Vec<char>)
    ensures
        r@ == trim(v@),
{
    let mut start: usize = 0;
    proof {
        assert(v@.skip(0) =~= v@);
    }
    while start < v.len() && char_is_whitespace(v[start])
        invariant
            start <= v@.len(),
            trim_start(v@) == trim_start(v@.skip(start as int)),
        decreases v@.len() - start,
    {
        proof {
            assert(v@.skip(start as int).skip(1) =~= v@.skip(start as int + 1));
        }
        start = start + 1;
    }
    proof {
        assert(trim_start(v@.skip(start as int)) == v@.skip(start as int));
        assert(v@.subrange(start as int, v@.len() as int) =~= v@.skip(start as int));
    }
    let mut end: usize = v.len();
    while end > start && char_is_whitespace(v[end - 1])
        invariant
            start <= end <= v@.len(),
            trim(v@) == trim_end(v@.subrange(start as int, end as int)),
        decreases end,
    {
        proof {
            let s = v@.subrange(start as int, end as int);
            assert(s.last() == v@[end - 1]);
            assert(s.drop_last() =~= v@.subrange(start as int, end as int - 1));
        }
        end = end - 1;
    }
    proof {
        assert(trim_end(v@.subrange(start as int, end as int)) == v@.subrange(
            start as int,
            end as int,
        ));
    }
    let mut out: Vec<char> = Vec::new();
    let mut k: usize = start;
    proof {
        assert(v@.subrange(start as int, start as int) =~= Seq::<char>::empty());
    }
    while k < end
        invariant
            start <= k <= end <= v@.len(),
            out@ == v@.subrange(start as int, k as int),
            trim(v@) == v@.subrange(start as int, end as int),
        decreases end - k,
    {
        out.push(v[k]);
        proof {
            assert(v@.subrange(start as int, k as int + 1) =~= v@.subrange(
                start as int,
                k as int,
            ).push(v@[k as int]));
        }
        k = k + 1;
    }
    out
}

} // verus!

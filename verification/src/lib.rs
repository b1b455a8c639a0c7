//! A lexical scanner: it turns raw text into a flat sequence of typed
//! tokens (comments, string literals, identifiers, symbols, integer and
//! float literals), each carrying the row and column where it begins
//! and an optional source path. Scanning is eager and stops at the
//! first failure: an unclosed string literal or a float literal with a
//! second decimal point.
//!
//! The scanner's behaviour is stated as a recursive function over
//! character sequences (`scan::spec_scan`), and the executable scanner
//! is proved equal to it. `laws` holds the properties proved of the
//! scan as a whole.

pub mod chars;
pub mod error;
pub mod laws;
pub mod location;
pub mod scan;
pub mod token;
pub mod tokenizer;

pub use error::Error;
pub use location::Location;
pub use token::Token;
pub use token::TokenKind;
pub use tokenizer::tokenize;
pub use tokenizer::Tokenizer;

use tokenscan::tokenizer::{tokenize, Tokenizer};
use tokenscan::{Error, TokenKind};

#[test]
fn empty() {
    let contents = "";
    let tokens = Tokenizer::tokenize(contents, (0, 0).into()).unwrap();
    assert_eq!(tokens.len(), 0);

    let contents = "\n\n \r\n";
    let tokens = Tokenizer::tokenize(contents, (0, 0).into()).unwrap();
    assert_eq!(tokens.len(), 0);
}

#[test]
fn empty_comment() {
    let contents = r#"#"#;
    let tokens = Tokenizer::tokenize(contents, (0, 0).into()).unwrap();
    assert_eq!(tokens.len(), 1);
    assert_eq!(tokens[0].kind, TokenKind::Comment("".to_string()));
    assert_eq!(tokens[0].contents, "");
    assert_eq!(tokens[0].location, (0, 0).into());
}

#[test]
fn single_comment() {
    let contents = r#"# This is a comment"#;
    let tokens = Tokenizer::tokenize(contents, (0, 0).into()).unwrap();
    assert_eq!(tokens.len(), 1);
    assert_eq!(
        tokens[0].kind,
        TokenKind::Comment("This is a comment".to_string())
    );
    assert_eq!(tokens[0].contents, "This is a comment");
    assert_eq!(tokens[0].location, (0, 0).into());
}

#[test]
fn single_identifier() {
    let contents = r#"my_variable"#;
    let tokens = Tokenizer::tokenize(contents, (0, 0).into()).unwrap();
    assert_eq!(tokens.len(), 1);
    assert_eq!(
        tokens[0].kind,
        TokenKind::Identifier("my_variable".to_string())
    );
    assert_eq!(tokens[0].contents, "my_variable");
    assert_eq!(tokens[0].location, (0, 0).into());
}

#[test]
fn multiple_identifiers_with_space() {
    let contents = r#"my_variable my_variable2"#;
    let tokens = Tokenizer::tokenize(contents, (0, 0).into()).unwrap();
    assert_eq!(tokens.len(), 2);
    assert_eq!(
        tokens[0].kind,
        TokenKind::Identifier("my_variable".to_string())
    );
    assert_eq!(tokens[0].contents, "my_variable");
    assert_eq!(tokens[0].location, (0, 0).into());
    assert_eq!(
        tokens[1].kind,
        TokenKind::Identifier("my_variable2".to_string())
    );
    assert_eq!(tokens[1].contents, "my_variable2");
    assert_eq!(tokens[1].location, (0, 12).into());
}

#[test]
fn multiple_identifiers_with_newline() {
    let contents = "my_variable \nmy_variable2";
    let tokens = Tokenizer::tokenize(contents, (0, 0).into()).unwrap();
    assert_eq!(tokens.len(), 2);
    assert_eq!(
        tokens[0].kind,
        TokenKind::Identifier("my_variable".to_string())
    );
    assert_eq!(tokens[0].contents, "my_variable");
    assert_eq!(tokens[0].location, (0, 0).into());
    assert_eq!(
        tokens[1].kind,
        TokenKind::Identifier("my_variable2".to_string())
    );
    assert_eq!(tokens[1].contents, "my_variable2");
    assert_eq!(tokens[1].location, (1, 0).into());
}

#[test]
fn multiple_identifiers_with_comment() {
    let contents = "my_variable \n# This is a comment\nmy_variable2";
    let tokens = Tokenizer::tokenize(contents, (0, 0).into()).unwrap();
    assert_eq!(tokens.len(), 3);
    assert_eq!(
        tokens[0].kind,
        TokenKind::Identifier("my_variable".to_string())
    );
    assert_eq!(tokens[0].contents, "my_variable");
    assert_eq!(tokens[0].location, (0, 0).into());
    assert_eq!(
        tokens[1].kind,
        TokenKind::Comment("This is a comment".to_string())
    );
    assert_eq!(tokens[1].contents, "This is a comment");
    assert_eq!(tokens[1].location, (1, 0).into());
    assert_eq!(
        tokens[2].kind,
        TokenKind::Identifier("my_variable2".to_string())
    );
    assert_eq!(tokens[2].contents, "my_variable2");
    assert_eq!(tokens[2].location, (2, 0).into());
}

#[test]
fn identifier_splits_on_comment() {
    let contents = "my_variable# This is a comment\nmy_variable2";
    let tokens = Tokenizer::tokenize(contents, (0, 0).into()).unwrap();
    assert_eq!(tokens.len(), 3);
    assert_eq!(
        tokens[0].kind,
        TokenKind::Identifier("my_variable".to_string())
    );
    assert_eq!(tokens[0].contents, "my_variable");
    assert_eq!(tokens[0].location, (0, 0).into());
    assert_eq!(
        tokens[1].kind,
        TokenKind::Comment("This is a comment".to_string())
    );
    assert_eq!(tokens[1].contents, "This is a comment");
    assert_eq!(tokens[1].location, (0, 11).into());
    assert_eq!(
        tokens[2].kind,
        TokenKind::Identifier("my_variable2".to_string())
    );
    assert_eq!(tokens[2].contents, "my_variable2");
    assert_eq!(tokens[2].location, (1, 0).into());
}

#[test]
fn string_literal_unclosed_returns_error() {
    let contents = r#""This is a string"#;
    let result = Tokenizer::tokenize(contents, (0, 0).into());
    let expected = Err(Error {
        message: "Unclosed string".to_string(),
        location: (0, 0).into(),
    });

    assert_eq!(expected, result);
}

#[test]
fn string_literal() {
    let contents = r#""This is a string""#;
    let result = Tokenizer::tokenize(contents, (0, 0).into()).unwrap();
    assert_eq!(result.len(), 1);
    assert_eq!(
        result[0].kind,
        TokenKind::StringLiteral("This is a string".to_string())
    );
    assert_eq!(result[0].contents, "This is a string");
    assert_eq!(result[0].location, (0, 0).into());
}

#[test]
fn string_literal_with_escaping() {
    let contents = r#""This is a string with \"escaping\" characters""#;
    let result = Tokenizer::tokenize(contents, (0, 0).into()).unwrap();
    assert_eq!(result.len(), 1);
    assert_eq!(
        result[0].kind,
        TokenKind::StringLiteral("This is a string with \"escaping\" characters".to_string())
    );
    assert_eq!(
        result[0].contents,
        "This is a string with \"escaping\" characters"
    );
    assert_eq!(result[0].location, (0, 0).into());
}

#[test]
fn string_literal_with_escaped_comment() {
    let contents = r#""This is a string with # escaped comment""#;
    let result = Tokenizer::tokenize(contents, (0, 0).into()).unwrap();
    assert_eq!(result.len(), 1);
    assert_eq!(
        result[0].kind,
        TokenKind::StringLiteral("This is a string with # escaped comment".to_string())
    );
    assert_eq!(
        result[0].contents,
        "This is a string with # escaped comment"
    );
    assert_eq!(result[0].location, (0, 0).into());
}

#[test]
fn read_single_symbol() {
    let symbols = vec![
        '+', '-', '*', '/', '=', '>', '<', '!', '?', '.', ',', ';', ':', '(', ')', '[', ']',
        '{', '}', '&', '|', '^', '%', '~',
    ];
    for symbol in symbols {
        let contents = format!("{}", symbol);
        let tokens = Tokenizer::tokenize(&contents, (0, 0).into()).unwrap();
        assert_eq!(tokens.len(), 1);
        assert_eq!(tokens[0].kind, TokenKind::Symbol(symbol.to_string()));
        assert_eq!(tokens[0].contents, symbol.to_string());
        assert_eq!(tokens[0].location, (0, 0).into());
    }
}

#[test]
fn read_two_char_symbols() {
    let symbols = vec!["==", "!=", ">=", "<=", "->", "=>", "*=", "-=", "+=", "/="];
    for symbol in symbols {
        let contents = format!("{}", symbol);
        let tokens = Tokenizer::tokenize(&contents, (0, 0).into()).unwrap();
        assert_eq!(tokens.len(), 1);
        assert_eq!(tokens[0].kind, TokenKind::Symbol(symbol.to_string()));
        assert_eq!(tokens[0].contents, symbol);
        assert_eq!(tokens[0].location, (0, 0).into());
    }
}

#[test]
fn read_identifier_with_symbol() {
    let symbols = vec![
        ".", ",", ";", ":", "(", ")", "[", "]", "{", "}", "->", "==", "!=", ">=", "<=", "->",
        "=>", "*=", "-=", "+=", "/=", "=>",
    ];

    for symbol in symbols {
        let contents = format!("my_variable{}my_variable2", symbol);
        let tokens = Tokenizer::tokenize(&contents, (0, 0).into()).unwrap();
        assert_eq!(tokens.len(), 3);
        assert_eq!(
            tokens[0].kind,
            TokenKind::Identifier("my_variable".to_string())
        );
        assert_eq!(tokens[0].contents, "my_variable");
        assert_eq!(tokens[0].location, (0, 0).into());
        assert_eq!(tokens[1].kind, TokenKind::Symbol(symbol.to_string()));
        assert_eq!(tokens[1].contents, symbol.to_string());
        assert_eq!(tokens[1].location, (0, 11).into());
        assert_eq!(
            tokens[2].kind,
            TokenKind::Identifier("my_variable2".to_string())
        );
        assert_eq!(tokens[2].contents, "my_variable2");
        assert_eq!(tokens[2].location, (0, 11 + symbol.len()).into());
    }
}

#[test]
fn read_integer() {
    let contents = "12345";
    let tokens = Tokenizer::tokenize(contents, (0, 0).into()).unwrap();
    assert_eq!(tokens.len(), 1);
    assert_eq!(tokens[0].kind, TokenKind::IntegerLiteral(12345));
    assert_eq!(tokens[0].contents, "12345");
    assert_eq!(tokens[0].location, (0, 0).into());
}

#[test]
fn read_float() {
    let contents = "12345.6789";
    let tokens = Tokenizer::tokenize(contents, (0, 0).into()).unwrap();
    assert_eq!(tokens.len(), 1);
    assert_eq!(
        tokens[0].kind,
        TokenKind::FloatLiteral("12345.6789".to_string())
    );
    assert_eq!(tokens[0].contents, "12345.6789");
    assert_eq!(tokens[0].contents.parse::<f64>().unwrap(), 12345.6789);
    assert_eq!(tokens[0].location, (0, 0).into());
}

#[test]
fn read_float_with_negative() {
    let contents = "-12345.6789";
    let tokens = Tokenizer::tokenize(contents, (0, 0).into()).unwrap();
    assert_eq!(tokens.len(), 1);
    assert_eq!(
        tokens[0].kind,
        TokenKind::FloatLiteral("-12345.6789".to_string())
    );
    assert_eq!(tokens[0].contents, "-12345.6789");
    assert_eq!(tokens[0].contents.parse::<f64>().unwrap(), -12345.6789);
    assert_eq!(tokens[0].location, (0, 0).into());
}

#[test]
fn read_float_with_multiple_decimals() {
    let contents = "-12345.6789.12345";
    let tokens = Tokenizer::tokenize(contents, (0, 0).into());
    assert!(tokens.is_err());
    assert_eq!(
        tokens.err().unwrap(),
        Error {
            message: "Float literal cannot have multiple decimal points".to_string(),
            location: (0, 11).into(),
        }
    );
}

#[test]
fn read_integer_with_negative() {
    let contents = "-12345";
    let tokens = Tokenizer::tokenize(contents, (0, 0).into()).unwrap();
    assert_eq!(tokens.len(), 1);
    assert_eq!(tokens[0].kind, TokenKind::IntegerLiteral(-12345));
    assert_eq!(tokens[0].contents, "-12345");
    assert_eq!(tokens[0].location, (0, 0).into());
}

#[test]
fn is_numeric() {
    assert_eq!('0'.is_numeric(), true);
    assert_eq!('1'.is_numeric(), true);
    assert_eq!('2'.is_numeric(), true);
    assert_eq!('3'.is_numeric(), true);
    assert_eq!('4'.is_numeric(), true);
    assert_eq!('5'.is_numeric(), true);
    assert_eq!('6'.is_numeric(), true);
    assert_eq!('7'.is_numeric(), true);
    assert_eq!('8'.is_numeric(), true);
    assert_eq!('9'.is_numeric(), true);
    assert_eq!('0'.is_numeric(), true);
}

#[test]
fn free_tokenize_matches_method() {
    let contents = "alpha == 42";
    let via_fn = tokenize(contents, (0, 0).into()).unwrap();
    let via_method = Tokenizer::tokenize(contents, (0, 0).into()).unwrap();
    assert_eq!(via_fn, via_method);
    assert_eq!(via_fn.len(), 3);
    assert_eq!(via_fn[1].kind, TokenKind::Symbol("==".to_string()));
    assert_eq!(via_fn[2].kind, TokenKind::IntegerLiteral(42));
}

#[test]
fn unicode_whitespace_separates_identifiers() {
    // No-break space is whitespace beyond ASCII.
    let contents = "alpha\u{00A0}beta";
    let tokens = Tokenizer::tokenize(contents, (0, 0).into()).unwrap();
    assert_eq!(tokens.len(), 2);
    assert_eq!(tokens[0].kind, TokenKind::Identifier("alpha".to_string()));
    assert_eq!(tokens[1].kind, TokenKind::Identifier("beta".to_string()));
    assert_eq!(tokens[1].location, (0, 6).into());
}

#[test]
fn read_integer_extremes() {
    let contents = "170141183460469231731687303715884105727";
    let tokens = Tokenizer::tokenize(contents, (0, 0).into()).unwrap();
    assert_eq!(tokens.len(), 1);
    assert_eq!(tokens[0].kind, TokenKind::IntegerLiteral(i128::MAX));

    let contents = "-170141183460469231731687303715884105728";
    let tokens = Tokenizer::tokenize(contents, (0, 0).into()).unwrap();
    assert_eq!(tokens.len(), 1);
    assert_eq!(tokens[0].kind, TokenKind::IntegerLiteral(i128::MIN));
}

#[test]
fn carriage_returns_are_normalized() {
    let contents = "first\r\nsecond";
    let tokens = Tokenizer::tokenize(contents, (0, 0).into()).unwrap();
    assert_eq!(tokens.len(), 2);
    assert_eq!(tokens[0].kind, TokenKind::Identifier("first".to_string()));
    assert_eq!(tokens[1].kind, TokenKind::Identifier("second".to_string()));
    assert_eq!(tokens[1].location, (1, 0).into());
}

#[test]
fn comment_contents_are_trimmed() {
    let contents = "#   padded out   ";
    let tokens = Tokenizer::tokenize(contents, (0, 0).into()).unwrap();
    assert_eq!(tokens.len(), 1);
    assert_eq!(tokens[0].kind, TokenKind::Comment("padded out".to_string()));
    assert_eq!(tokens[0].contents, "padded out");
}

#[test]
fn nonzero_start_location_offsets_rows_and_columns() {
    let contents = "one\ntwo";
    let tokens = Tokenizer::tokenize(contents, (5, 3).into()).unwrap();
    assert_eq!(tokens.len(), 2);
    assert_eq!(tokens[0].location, (5, 3).into());
    assert_eq!(tokens[1].location, (6, 0).into());
}

#[test]
fn escaped_quotes_collapse() {
    let contents = r#""a \"b\" c""#;
    let tokens = Tokenizer::tokenize(contents, (0, 0).into()).unwrap();
    assert_eq!(tokens.len(), 1);
    assert_eq!(
        tokens[0].kind,
        TokenKind::StringLiteral("a \"b\" c".to_string())
    );
    assert_eq!(tokens[0].contents, "a \"b\" c");
}

#[test]
fn unterminated_string_fails_at_start() {
    let contents = r#""abc"#;
    let result = Tokenizer::tokenize(contents, (0, 0).into());
    assert_eq!(
        result,
        Err(Error {
            message: "Unclosed string".to_string(),
            location: (0, 0).into(),
        })
    );
}

use tokenscan::{Error, Location, Token, TokenKind};

#[test]
fn assert_string_works() {
    let token = Token {
        location: (0, 0).into(),
        contents: "jaja".to_string(),
        kind: TokenKind::StringLiteral("jaja".to_string()),
    };

    let expected = Ok("jaja".to_string());
    let actual = token.assert_string("msg");
    assert_eq!(expected, actual);

    // Test with wrong type
    let token = Token {
        location: (0, 0).into(),
        contents: "jaja".to_string(),
        kind: TokenKind::Identifier("jaja".to_string()),
    };

    let expected = Err(Error {
        location: (0, 0).into(),
        message: "Expected msg, got identifier 'jaja'".to_string(),
    });
    let actual = token.assert_string("msg");
    assert_eq!(expected, actual);
}

#[test]
fn assert_comment_works() {
    let token = Token {
        location: (0, 0).into(),
        contents: "jaja".to_string(),
        kind: TokenKind::Comment("jaja".to_string()),
    };

    let expected = Ok("jaja".to_string());
    let actual = token.assert_comment("msg");
    assert_eq!(expected, actual);

    // Test with wrong type
    let token = Token {
        location: (0, 0).into(),
        contents: "jaja".to_string(),
        kind: TokenKind::Identifier("jaja".to_string()),
    };

    let expected = Err(Error {
        location: (0, 0).into(),
        message: "Expected msg, got identifier 'jaja'".to_string(),
    });
    let actual = token.assert_comment("msg");
    assert_eq!(expected, actual);
}

#[test]
fn assert_identifier_works() {
    let token = Token {
        location: (0, 0).into(),
        contents: "jaja".to_string(),
        kind: TokenKind::Identifier("jaja".to_string()),
    };

    let expected = Ok("jaja".to_string());
    let actual = token.assert_identifier("msg");
    assert_eq!(expected, actual);

    // Test with wrong type
    let token = Token {
        location: (0, 0).into(),
        contents: "jaja".to_string(),
        kind: TokenKind::StringLiteral("jaja".to_string()),
    };

    let expected = Err(Error {
        location: (0, 0).into(),
        message: "Expected msg, got string \"jaja\"".to_string(),
    });
    let actual = token.assert_identifier("msg");
    assert_eq!(expected, actual);
}

#[test]
fn assert_symbol_works() {
    let token = Token {
        location: (0, 0).into(),
        contents: "jaja".to_string(),
        kind: TokenKind::Symbol("jaja".to_string()),
    };

    let expected = Ok("jaja".to_string());
    let actual = token.assert_symbol("msg");
    assert_eq!(expected, actual);

    // Test with wrong type
    let token = Token {
        location: (0, 0).into(),
        contents: "jaja".to_string(),
        kind: TokenKind::StringLiteral("jaja".to_string()),
    };

    let expected = Err(Error {
        location: (0, 0).into(),
        message: "Expected msg, got string \"jaja\"".to_string(),
    });
    let actual = token.assert_symbol("msg");
    assert_eq!(expected, actual);
}

#[test]
fn assert_int_works() {
    let token = Token {
        location: (0, 0).into(),
        contents: "jaja".to_string(),
        kind: TokenKind::IntegerLiteral(123),
    };

    let expected = Ok(123);
    let actual = token.assert_int("msg");
    assert_eq!(expected, actual);

    // Test with wrong type
    let token = Token {
        location: (0, 0).into(),
        contents: "jaja".to_string(),
        kind: TokenKind::StringLiteral("jaja".to_string()),
    };

    let expected = Err(Error {
        location: (0, 0).into(),
        message: "Expected msg, got string \"jaja\"".to_string(),
    });
    let actual = token.assert_int("msg");
    assert_eq!(expected, actual);
}

#[test]
fn assert_float_works() {
    // The float literal's payload is its undecoded text; callers decode
    // it when they need the value.
    let token = Token {
        location: (0, 0).into(),
        contents: "jaja".to_string(),
        kind: TokenKind::FloatLiteral("123".to_string()),
    };

    let expected = Ok("123".to_string());
    let actual = token.assert_float("msg");
    assert_eq!(expected, actual);
    assert_eq!(actual.unwrap().parse::<f64>().unwrap(), 123.0);

    // Test with wrong type
    let token = Token {
        location: (0, 0).into(),
        contents: "jaja".to_string(),
        kind: TokenKind::StringLiteral("jaja".to_string()),
    };

    let expected = Err(Error {
        location: (0, 0).into(),
        message: "Expected msg, got string \"jaja\"".to_string(),
    });
    let actual = token.assert_float("msg");
    assert_eq!(expected, actual);
}

#[test]
fn assert_int_mismatch_message_renders_value() {
    let token = Token {
        location: (3, 7).into(),
        contents: "-450".to_string(),
        kind: TokenKind::IntegerLiteral(-450),
    };

    let expected = Err(Error {
        location: (3, 7).into(),
        message: "Expected a string, got int '-450'".to_string(),
    });
    assert_eq!(token.assert_string("a string"), expected);
}

#[test]
fn location_new_and_default() {
    let loc = Location::new(4, 2, Some("input.cfg".to_string()));
    assert_eq!(loc.column, 4);
    assert_eq!(loc.row, 2);
    assert_eq!(loc.path, Some("input.cfg".to_string()));
    assert_eq!(Location::default(), (0, 0).into());
}

#[test]
fn mismatch_messages_name_each_kind() {
    let location: Location = (0, 0).into();
    let cases = vec![
        (
            TokenKind::Comment("note".to_string()),
            "Expected msg, got comment \"note\"",
        ),
        (
            TokenKind::Symbol("==".to_string()),
            "Expected msg, got symbol '=='",
        ),
        (
            TokenKind::FloatLiteral("1.5".to_string()),
            "Expected msg, got float '1.5'",
        ),
    ];
    for (kind, message) in cases {
        let token = Token {
            location: location.clone(),
            contents: "x".to_string(),
            kind,
        };
        let expected = Err(Error {
            location: location.clone(),
            message: message.to_string(),
        });
        assert_eq!(token.assert_identifier("msg"), expected);
    }
}

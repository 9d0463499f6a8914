use eon::token_kind::TokenKind;
use eon::tokenize::tokenize;

#[test]
fn test_parse_tokens() {
    let input = r#"
    // Comment
    key: value
    [ { },]
    42
    123_456
    +inf
    +1.e3-42
    0xdeadbeef
    "basic \n \"string\""
    'single quoted string'
    """
    multiline
    basic \
    string"""
    '''
multiline
literal
string'''
    "#;

    let expect = [
        (TokenKind::Comment, "// Comment"),
        (TokenKind::Identifier, "key"),
        (TokenKind::Colon, ":"),
        (TokenKind::Identifier, "value"),
        (TokenKind::OpenList, "["),
        (TokenKind::OpenBrace, "{"),
        (TokenKind::CloseBrace, "}"),
        (TokenKind::Comma, ","),
        (TokenKind::CloseList, "]"),
        (TokenKind::Number, "42"),
        (TokenKind::Number, "123_456"),
        (TokenKind::Number, "+inf"),
        (TokenKind::Number, "+1.e3-42"),
        (TokenKind::Number, "0xdeadbeef"),
        (TokenKind::DoubleQuotedString, r#""basic \n \"string\"""#),
        (TokenKind::SingleQuotedString, "'single quoted string'"),
        (
            TokenKind::MultilineBasicString,
            "\"\"\"\n    multiline\n    basic \\\n    string\"\"\"",
        ),
        (
            TokenKind::MultilineLiteralString,
            "'''\nmultiline\nliteral\nstring'''",
        ),
    ];

    let tokens = tokenize(input);
    assert_eq!(tokens.len(), expect.len(), "Expected no more tokens");
    for (i, (expected_kind, expected_text)) in expect.iter().enumerate() {
        let token = &tokens[i];
        match &token.kind {
            Ok(kind) => assert_eq!(kind, expected_kind, "Token mismatch at {i}"),
            Err(e) => panic!("Not a valid token: {:?}", e.message()),
        }
        assert_eq!(&token.slice, expected_text, "Text mismatch at {i}");
    }
}

#[test]
fn test_token_spans() {
    let tokens = tokenize("ab: [1]");
    let places: Vec<(usize, usize)> = tokens.iter().map(|t| (t.span.start, t.span.end)).collect();
    assert_eq!(places, vec![(0, 2), (2, 3), (4, 5), (5, 6), (6, 7)]);
}

#[test]
fn test_invalid_token() {
    let tokens = tokenize("a @ b");
    assert_eq!(tokens.len(), 3);
    match &tokens[1].kind {
        Err(e) => {
            assert_eq!(e.message(), "Invalid token: '@'");
        }
        Ok(k) => panic!("Expected an invalid token, got {k:?}"),
    }
}

#[test]
fn test_token_result_ok() {
    let tokens = tokenize("x");
    let mut tokens = tokens;
    let only = tokens.pop().unwrap();
    let placed = only.ok().unwrap();
    assert_eq!(placed.kind, TokenKind::Identifier);
    assert_eq!(placed.slice, "x");
    assert_eq!((placed.span.start, placed.span.end), (0, 1));
}

#[test]
fn test_span_helpers() {
    let s = eon::Span { start: 3, end: 7 };
    assert_eq!(s.len(), 4);
    assert!(!s.is_empty());
    let t = eon::Span { start: 5, end: 9 };
    let u = s.union(t);
    assert_eq!((u.start, u.end), (3, 9));
    assert!(eon::Span { start: 2, end: 2 }.is_empty());
}

#[test]
fn test_token_kind_describe() {
    assert_eq!(TokenKind::Colon.describe(), "colon ':'");
    assert_eq!(TokenKind::Number.describe(), "number");
}

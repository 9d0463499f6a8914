use eon::token_tree::{TokenValue, TokenTree};
use eon::FormatOptions;

#[test]
fn test_parse_map() {
    let input = r#"
        // Prefix comment A.
        // Prefix comment B.
        key1: 42

        // Prefix comment C.
        key2:
        // Prefix comment D.
        "string" // Suffix comment

        // Closing comment 1.
        // Closing comment 2.
        "#;

    let value = TokenTree::parse_str(input).unwrap();

    let TokenTree {
        span: _,
        prefix_comments,
        value,
        suffix_comment,
    } = value;

    assert!(prefix_comments.is_empty());
    assert_eq!(suffix_comment, None);

    if let TokenValue::Object(map) = value {
        let key_values = map.key_values;
        let closing_comments = map.closing_comments;
        assert_eq!(key_values.len(), 2);

        {
            let key = &key_values[0].key;
            let value = &key_values[0].value;

            if let TokenValue::Identifier(key) = &key.value {
                assert_eq!(key, "key1");
            } else {
                panic!("Expected an identifier for key1, got {key:?}");
            }
            assert_eq!(
                key.prefix_comments,
                &["// Prefix comment A.", "// Prefix comment B."]
            );
            if let TokenValue::Number(value) = &value.value {
                assert_eq!(value, "42");
            } else {
                panic!("Expected a number for key1, got {key:?}");
            }
            assert_eq!(value.suffix_comment, None);
        }

        {
            let key = &key_values[1].key;
            let value = &key_values[1].value;

            if let TokenValue::Identifier(key) = &key.value {
                assert_eq!(key, "key2");
            } else {
                panic!("Expected an identifier for key1, got {key:?}");
            }
            assert_eq!(key.prefix_comments, &["// Prefix comment C."]);
            if let TokenValue::QuotedString(value) = &value.value {
                assert_eq!(value, r#""string""#);
            } else {
                panic!("Expected a String for key2, got {key:?}");
            }
            assert_eq!(value.prefix_comments, ["// Prefix comment D."]);
            assert_eq!(value.suffix_comment, Some("// Suffix comment".to_owned()));
        }

        assert_eq!(
            closing_comments,
            vec!["// Closing comment 1.", "// Closing comment 2."]
        );
    } else {
        panic!("Expected a map value, got {value:?}");
    }
}

#[test]
fn parse_test_parse_map() {
    // The same document, checked through the comments each node carries.
    let input = r#"
        // Prefix comment A.
        // Prefix comment B.
        key1: 42

        // Prefix comment C.
        key2:
        // Prefix comment D.
        "string" // Suffix comment

        // Closing comment 1.
        // Closing comment 2.
        "#;

    let tree = TokenTree::parse_str(input).unwrap();
    assert!(tree.prefix_comments.is_empty());
    assert_eq!(tree.suffix_comment, None);

    if let TokenValue::Object(map) = &tree.value {
        assert_eq!(map.key_values.len(), 2);
        assert_eq!(
            map.key_values[0].key.prefix_comments,
            vec!["// Prefix comment A.", "// Prefix comment B."]
        );
        assert_eq!(map.key_values[1].key.prefix_comments, vec!["// Prefix comment C."]);
        assert_eq!(map.key_values[1].value.prefix_comments, vec!["// Prefix comment D."]);
        assert_eq!(
            map.key_values[1].value.suffix_comment,
            Some("// Suffix comment".to_owned())
        );
        assert_eq!(
            map.closing_comments,
            vec!["// Closing comment 1.", "// Closing comment 2."]
        );
    } else {
        panic!("Expected a map value, got {:?}", tree.value);
    }
}

#[test]
fn test_parse_object() {
    // The comments around each key-value pair, taken together.
    let input = r#"
        // Prefix comment A.
        // Prefix comment B.
        key1: 42

        // Prefix comment C.
        key2:
        // Prefix comment D.
        "string" // Suffix comment

        // Closing comment 1.
        // Closing comment 2.
        "#;

    let value = TokenTree::parse_str(input).unwrap();
    assert!(value.prefix_comments.is_empty());
    assert_eq!(value.suffix_comment, None);

    if let TokenValue::Object(map) = &value.value {
        assert_eq!(map.key_values.len(), 2);

        {
            let pair = &map.key_values[0];
            if let TokenValue::Identifier(key) = &pair.key.value {
                assert_eq!(key, "key1");
            } else {
                panic!("Expected an identfier for key1, got {:?}", pair.key);
            }
            let mut pair_comments = pair.key.prefix_comments.clone();
            pair_comments.extend(pair.value.prefix_comments.iter().cloned());
            assert_eq!(
                pair_comments,
                vec!["// Prefix comment A.", "// Prefix comment B."]
            );
            if let TokenValue::Number(value) = &pair.value.value {
                assert_eq!(value, "42");
            } else {
                panic!("Expected a number for key1, got {:?}", pair.key);
            }
            assert_eq!(pair.value.suffix_comment.as_deref(), None);
        }

        {
            let pair = &map.key_values[1];
            if let TokenValue::Identifier(key) = &pair.key.value {
                assert_eq!(key, "key2");
            } else {
                panic!("Expected an identfier for key1, got {:?}", pair.key);
            }
            let mut pair_comments = pair.key.prefix_comments.clone();
            pair_comments.extend(pair.value.prefix_comments.iter().cloned());
            assert_eq!(
                pair_comments,
                vec!["// Prefix comment C.", "// Prefix comment D."]
            );
            if let TokenValue::QuotedString(value) = &pair.value.value {
                assert_eq!(value, r#""string""#);
            } else {
                panic!("Expected a String for key2, got {:?}", pair.key);
            }
            assert_eq!(
                pair.value.suffix_comment.as_deref(),
                Some("// Suffix comment")
            );
        }

        assert_eq!(
            map.closing_comments,
            vec!["// Closing comment 1.", "// Closing comment 2."]
        );
    } else {
        panic!("Expected an object value, got {:?}", value.value);
    }
}

#[test]
fn test_deep_object() {
    let input = r#"
        {"":{"":{"":{"":{"":{"":{"":{"":{"":{"":{"":{"":{"":{"":{"":{"":{"":{"":{"":{"":{"":{"":{}}}}}}}}}}}}}}}}}}}}}}}
    "#;
    let parsed = TokenTree::parse_str(input);
    assert!(parsed.is_ok());
}

#[test]
fn test_unicode() {
    let input = "
        \"key\": \"value\"
        \"emoji\": \"\u{1F600}\"
        \"cyrillic\": \"\u{41F}\u{440}\u{438}\u{432}\u{435}\u{442} \u{43C}\u{438}\u{440}!\"
        \"chinese\": \"\u{4F60}\u{597D}\u{FF0C}\u{4E16}\u{754C}\u{FF01}\"
        \"escaping\": \"\\\\\\\\ and \\\" too\"
        \"Rust-style unicode\": \"\\u{1f6ad}\"
    ";
    let parsed = TokenTree::parse_str(input);
    let parsed = parsed.unwrap_or_else(|err| {
        panic!("Failed to parse unicode test input: {}", err.message())
    });
    if let TokenValue::Object(map) = &parsed.value {
        assert_eq!(map.key_values.len(), 6);
    } else {
        panic!("Expected a map");
    }
}

#[test]
fn test_deep_recursion() {
    // A deeply nested structure must fail gracefully, not overflow the
    // stack.
    let input = "[".repeat(1000);
    let err = TokenTree::parse_str(input.as_str()).unwrap_err();
    assert_eq!(
        err.message(),
        "Maximum recursion depth exceeded while parsing document"
    );
}

#[test]
fn test_single_value_document() {
    // A file containing just one value parses as that value, not as a
    // one-element list.
    let tree = TokenTree::parse_str("42").unwrap();
    if let TokenValue::Number(n) = &tree.value {
        assert_eq!(n, "42");
    } else {
        panic!("Expected a number, got {:?}", tree.value);
    }
}

#[test]
fn test_variant_parses_and_formats_on_one_line() {
    let tree = TokenTree::parse_str(r#""Rgb"(255, 0, 0)"#).unwrap();
    if let TokenValue::Variant(variant) = &tree.value {
        assert_eq!(variant.quoted_name, r#""Rgb""#);
        assert_eq!(variant.values.len(), 3);
        for value in &variant.values {
            assert!(matches!(value.value, TokenValue::Number(_)));
        }
    } else {
        panic!("Expected a variant, got {:?}", tree.value);
    }
    let out = tree.format(&FormatOptions::new());
    assert_eq!(out, "\"Rgb\"(255, 0, 0)");
}

#[test]
fn test_suffix_comment_gets_one_space() {
    let out = eon::reformat("key: true// c", &FormatOptions::new()).unwrap();
    assert_eq!(out, "key: true // c\n");
}

#[test]
fn test_parse_errors() {
    // A hyphen cannot continue an identifier, so `kebab-case` reads as
    // `kebab` followed by the number `-case`, and the parser then wants
    // a colon. (Rejecting unknown keywords like a bare `value` is the
    // job of a typed layer above the token tree.)
    let err = eon::reformat(
        "\nsnake_case: 'ok',\nkebab-case: 'forbidden'\n",
        &FormatOptions::new(),
    )
    .unwrap_err();
    assert_eq!(err.message(), "Expected colon ':' but found number");
}

#[test]
fn test_two_key_document() {
    let tree = TokenTree::parse_str("key1: 42\nkey2: \"x\"").unwrap();
    if let TokenValue::Object(map) = &tree.value {
        assert_eq!(map.key_values.len(), 2);
        assert!(matches!(&map.key_values[0].value.value, TokenValue::Number(n) if n == "42"));
        assert!(
            matches!(&map.key_values[1].value.value, TokenValue::QuotedString(s) if s == "\"x\"")
        );
    } else {
        panic!("Expected a map, got {:?}", tree.value);
    }
}

#[test]
fn test_unbalanced_brackets() {
    let err = TokenTree::parse_str("[1, 2").unwrap_err();
    assert_eq!(err.message(), "Expected close bracket ']' but reached end of input");
}

#[test]
fn test_trailing_tokens() {
    let err = TokenTree::parse_str("1, 2 }").unwrap_err();
    assert_eq!(err.message(), "Expected end of file here");
}

#[test]
fn test_error_location() {
    // A located error carries the source and the span of the offending
    // text, so a caller can render a caret diagnostic.
    let err = TokenTree::parse_str("a: @").unwrap_err();
    assert_eq!(err.message(), "Invalid token: '@'");
    let span = err.location().expect("error should carry a location");
    assert_eq!((span.start, span.end), (3, 4));
    assert_eq!(err.source_text().map(|s| s.as_str()), Some("a: @"));
}

#[test]
fn test_custom_indentation() {
    let options = FormatOptions::new().with_indentation("  ".to_owned());
    let out = eon::reformat("a: { b: 1\nc: {} }", &options).unwrap();
    assert_eq!(out, "a: {\n  b: 1\n  c: {}\n}\n");
}

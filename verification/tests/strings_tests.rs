use eon::strings::{escape_and_quote, is_valid_identifier, unescape_and_unquote};

#[test]
fn test_is_valid_identifier() {
    assert!(!is_valid_identifier(""));
    assert!(is_valid_identifier("X"));
    assert!(is_valid_identifier("valid_identifier"));
    assert!(is_valid_identifier("valid123"));
    assert!(is_valid_identifier("_valid"));
    assert!(!is_valid_identifier("123invalid"));
    assert!(!is_valid_identifier("invalid-identifier"));
    assert!(!is_valid_identifier("true"));
    assert!(!is_valid_identifier("false"));
    assert!(!is_valid_identifier("null"));
    assert!(!is_valid_identifier("invalid identifier"));
    assert!(!is_valid_identifier("invalid@identifier"));
    assert!(!is_valid_identifier("invalid!identifier"));
    assert!(!is_valid_identifier("invalid#identifier"));
}

#[test]
fn test_escape() {
    assert_eq!(escape_and_quote("normal"), r#""normal""#);
    assert_eq!(
        escape_and_quote(r#"a string with 'single-quotes'"#),
        r#""a string with 'single-quotes'""#
    );
    assert_eq!(
        escape_and_quote(r#"a string with "double-quotes" and \ backslash"#),
        r#"'a string with "double-quotes" and \ backslash'"#
    );
    assert_eq!(
        escape_and_quote(r#"a string with 'single-quotes' and "double-quotes""#),
        r#""a string with 'single-quotes' and \"double-quotes\"""#
    );
    assert_eq!(
        escape_and_quote("a string with tab \t"),
        r#""a string with tab \t""#
    );
    assert_eq!(
        escape_and_quote("a string with tab \t and \"double-quotes\""),
        r#""a string with tab \t and \"double-quotes\"""#
    );
    assert_eq!(
        escape_and_quote("a string with tab \t and \"double-quotes\""),
        r#""a string with tab \t and \"double-quotes\"""#
    );

    assert_eq!(
        escape_and_quote(r#"C:\System32\foo.dll"#),
        r#"'C:\System32\foo.dll'"#
    );
    assert_eq!(
        escape_and_quote(r#"I use "quotes" in this string"#),
        r#"'I use "quotes" in this string'"#
    );
    assert_eq!(
        escape_and_quote(r#"[+\-0-9\.][0-9a-zA-Z\.+\-_]*"#),
        r#"'[+\-0-9\.][0-9a-zA-Z\.+\-_]*'"#
    );
}

#[test]
fn test_unescape() {
    assert_eq!(
        unescape_and_unquote(r#""normal \n string""#).unwrap(),
        "normal \n string",
    );
    assert_eq!(
        unescape_and_unquote(r#"'raw "string" \ yeah'"#).unwrap(),
        "raw \"string\" \\ yeah",
    );
    assert_eq!(
        unescape_and_unquote("'''Verbatim\nMultiline \"string\" \\ yeah'''").unwrap(),
        "Verbatim\nMultiline \"string\" \\ yeah",
    );
    assert_eq!(
        unescape_and_unquote("'''\nVerbatim\nMultiline \"string\"'''").unwrap(),
        "Verbatim\nMultiline \"string\"",
        "Should strip leading newline"
    );
    assert_eq!(
        unescape_and_unquote("\"\"\"Multi\\\n  line\n  String\n\"\"\"").unwrap(),
        "Multiline\n  String\n",
    );
}

#[test]
fn test_quote_round_trip() {
    // Unquoting the quoted form of any raw text yields the raw text
    // again, whatever quote style was chosen.
    let cases = [
        "",
        "plain",
        "with \"double\" quotes",
        "with 'single' quotes",
        "with both \" and '",
        "back\\slash",
        "newline\nand tab\t",
        "control\u{1}\u{7f}chars",
        "unicode snowman \u{2603}",
        "\\u{41} is not an escape here",
    ];
    for raw in cases {
        let quoted = escape_and_quote(raw);
        assert_eq!(unescape_and_unquote(&quoted).unwrap(), raw, "{quoted}");
    }
}

#[test]
fn test_unescape_errors() {
    assert!(unescape_and_unquote("no quotes").is_err());
    assert!(unescape_and_unquote("\"unterminated").is_err());
    assert!(unescape_and_unquote("'single\nline'").is_err());
    assert!(unescape_and_unquote("\"bad \\q escape\"").is_err());
    assert!(unescape_and_unquote("\"bad \\u1234 escape\"").is_err());
    assert!(unescape_and_unquote("\"surrogate \\u{D800}\"").is_err());
    assert!(unescape_and_unquote("\"too long \\u{123456789}\"").is_err());
    assert_eq!(
        unescape_and_unquote("\"ends with backslash\\\"").unwrap_err(),
        "String ended with a backslash"
    );
    assert_eq!(
        unescape_and_unquote("\"unterminated\\").unwrap_err(),
        "Double-quoted string must end with a double quote"
    );
}

#[test]
fn test_unescape_unicode_and_continuation() {
    assert_eq!(
        unescape_and_unquote("\"smile \\u{1F600}\"").unwrap(),
        "smile \u{1F600}"
    );
    assert_eq!(
        unescape_and_unquote("\"under\\u{1_F6_00}scores\"").unwrap(),
        "under\u{1F600}scores"
    );
    assert_eq!(
        unescape_and_unquote("\"\"\"a \\\n   continued line\"\"\"").unwrap(),
        "a continued line"
    );
    assert_eq!(
        unescape_and_unquote("\"windows\r\nnewline\"").unwrap_err(),
        "Double-quoted string may contain newlines"
    );
}

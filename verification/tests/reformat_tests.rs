use eon::token_tree::{TokenValue, TokenTree};
use eon::FormatOptions;

#[test]
fn test_reformat_1() {
    let input = r#"
        // This comment is outside the outermost map.
        {
            // This comment proceeds the first key-value pair.
            key: true// Suffix comment


            // Comment about the second key-value pair.
            key:
            // Very weird comment
            null

            empty_map: {}
            empty_list: []
            short_list: [1, 2, 3]

            variants: [
                "zero_variant"()
                "one_variant"(true)
                "three_variant"(1, 2, 3)
                "map_variant"({
                    "key": "value",
                    "another_key": 42,
                })
                "list_variant"([
                    "doc",
                    "grumpy",
                    "happy",
                    "sleepy",
                    "sneezy",
                    "bashful",
                    "dopey",
                ])
            ]
        }
    "#;

    let formatted = eon::reformat(input, &FormatOptions::new()).unwrap();
    let expected = "// This comment is outside the outermost map.\n// This comment proceeds the first key-value pair.\nkey: true // Suffix comment\n\n// Comment about the second key-value pair.\n// Very weird comment\nkey: null\n\nempty_map: {}\n\nempty_list: []\n\nshort_list: [1, 2, 3]\n\nvariants: [\n\t\"zero_variant\"\n\t\"one_variant\"(true)\n\t\"three_variant\"(1, 2, 3)\n\t\"map_variant\"({\n\t\t\"key\": \"value\"\n\t\t\"another_key\": 42\n\t})\n\t\"list_variant\"([\n\t\t\"doc\"\n\t\t\"grumpy\"\n\t\t\"happy\"\n\t\t\"sleepy\"\n\t\t\"sneezy\"\n\t\t\"bashful\"\n\t\t\"dopey\"\n\t])\n]\n";
    assert_eq!(formatted, expected);
}

#[test]
fn test_reformat_2() {
    let input = r#"
        suffix_commented: {
            foo: true // Suffix comment
            bar: false // Another suffix comment
        }
        prefix_commented: {
            // Commend about the first key
            foo: true
            // Comment about the second key
            bar: false
            // Closing comment
        }
    "#;

    let formatted = eon::reformat(input, &FormatOptions::new()).unwrap();
    let expected = "suffix_commented: {\n\tfoo: true // Suffix comment\n\tbar: false // Another suffix comment\n}\nprefix_commented: {\n\t// Commend about the first key\n\tfoo: true\n\n\t// Comment about the second key\n\tbar: false\n\n\t// Closing comment\n}\n";
    assert_eq!(formatted, expected);
}

#[test]
fn test_reformat_idempotent() {
    // Formatting is canonical: reformatting already-formatted text
    // changes nothing.
    let inputs = [
        "key: true// c",
        "a: [1, 2, 3]\nb: { x: 1\ny: 2 }",
        "// hi\nlist: [\n'a string', 2, foo\n]",
        "\"Rgb\"(255, 0, 0)",
        "v: \"name\"({ a: 1, b: [true, false] })",
    ];
    for input in inputs {
        let once = eon::reformat(input, &FormatOptions::new()).unwrap();
        let twice = eon::reformat(&once, &FormatOptions::new()).unwrap();
        assert_eq!(once, twice);
    }
}

#[test]
fn test_structural_round_trip() {
    // Parsing the output of formatting keeps the tree's shape: the same
    // values and the same comment attachments.
    let input = r#"
        // A comment.
        key: [1, 2, "three"]
        other: "Choice"(true) // suffix
    "#;
    let tree = TokenTree::parse_str(input).unwrap();
    let formatted = tree.format(&FormatOptions::new());
    let reparsed = TokenTree::parse_str(&formatted).unwrap();
    assert!(trees_alike(&tree, &reparsed));
}

fn trees_alike(a: &TokenTree, b: &TokenTree) -> bool {
    a.prefix_comments == b.prefix_comments && a.suffix_comment == b.suffix_comment
        && values_alike(&a.value, &b.value)
}

fn values_alike(a: &TokenValue, b: &TokenValue) -> bool {
    match (a, b) {
        (TokenValue::Identifier(x), TokenValue::Identifier(y)) => x == y,
        (TokenValue::Number(x), TokenValue::Number(y)) => x == y,
        (TokenValue::QuotedString(x), TokenValue::QuotedString(y)) => x == y,
        (TokenValue::List(x), TokenValue::List(y)) => {
            x.closing_comments == y.closing_comments && x.values.len() == y.values.len()
                && x.values.iter().zip(y.values.iter()).all(|(u, v)| trees_alike(u, v))
        }
        (TokenValue::Object(x), TokenValue::Object(y)) => {
            x.closing_comments == y.closing_comments
                && x.key_values.len() == y.key_values.len()
                && x
                    .key_values
                    .iter()
                    .zip(y.key_values.iter())
                    .all(|(u, v)| trees_alike(&u.key, &v.key) && trees_alike(&u.value, &v.value))
        }
        (TokenValue::Variant(x), TokenValue::Variant(y)) => {
            x.quoted_name == y.quoted_name && x.closing_comments == y.closing_comments
                && x.values.len() == y.values.len()
                && x.values.iter().zip(y.values.iter()).all(|(u, v)| trees_alike(u, v))
        }
        _ => false,
    }
}

#[test]
fn test_outer_braces_option() {
    let mut options = FormatOptions::new();
    options.always_include_outer_braces = true;
    let out = eon::reformat("a: 1", &options).unwrap();
    assert_eq!(out, "{\n\ta: 1\n}");
}

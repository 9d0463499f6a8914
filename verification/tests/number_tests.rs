use eon::number::{Number, NumberParseOutcome};

fn parse_number(s: &str) -> Result<Number, String> {
    match Number::parse_step(s) {
        NumberParseOutcome::Value(n) => Ok(n),
        NumberParseOutcome::Failure(msg) => Err(msg),
        NumberParseOutcome::Decimal { negate, literal } => {
            Number::from_decimal_bits(negate, literal.parse::<f64>().ok().map(f64::to_bits))
        }
        NumberParseOutcome::Fallback { negate, literal } => {
            Number::from_fallback_bits(negate, literal.parse::<f64>().ok().map(f64::to_bits))
        }
    }
}

#[test]
fn test_parse_number() {
    let integers = [
        ("0", 0),
        ("-0", 0),
        ("-1", -1),
        ("+1", 1),
        ("123_456_789", 123_456_789),
        ("0xe", 0xe),
        ("0x1f", 0x1f),
        ("0b101010", 0b101010),
        ("-0b101010", -0b101010),
        ("+0b101010", 0b101010),
    ];

    for (string, expected) in integers {
        let number = parse_number(string).expect("Failed to parse number");
        assert_eq!(number.as_i128(), Some(expected), "Parsing integer: {string:?}");
    }
}

#[test]
fn test_cross_representation_equality() {
    // Hex and decimal spellings of the same integer are the same number.
    assert_eq!(parse_number("+0x0a").unwrap(), parse_number("10").unwrap());
    // The canonical NaN equals itself, although IEEE NaN does not.
    assert_eq!(parse_number("+nan").unwrap(), parse_number("+nan").unwrap());
    // Different values stay different.
    assert_ne!(parse_number("1").unwrap(), parse_number("2").unwrap());
    // An integer-valued float equals the integer, whatever width it is.
    assert_eq!(parse_number("5e0").unwrap(), parse_number("5").unwrap());
}

#[test]
fn test_special_literals() {
    let nan = parse_number("+nan").unwrap();
    let pos_inf = parse_number("+inf").unwrap();
    let neg_inf = parse_number("-inf").unwrap();
    assert_eq!(nan.canonical_text(), Some("+nan".to_owned()));
    assert_eq!(pos_inf.canonical_text(), Some("+inf".to_owned()));
    assert_eq!(neg_inf.canonical_text(), Some("-inf".to_owned()));
    assert_ne!(pos_inf, neg_inf);
    assert_eq!(nan, nan);
    // Case variants of nan are rejected by design.
    assert!(parse_number("+NaN").is_err());
    assert!(parse_number("nan").is_err());
    assert!(parse_number("-nan").is_err());
    assert_eq!(
        parse_number("+NaN").unwrap_err(),
        "NaN must be written as '+nan'"
    );
}

#[test]
fn test_narrowing_accessors() {
    let n = parse_number("300").unwrap();
    assert_eq!(n.as_i64(), Some(300));
    assert_eq!(n.as_u64(), Some(300));
    assert_eq!(n.as_u128(), Some(300));

    let neg = parse_number("-300").unwrap();
    assert_eq!(neg.as_i64(), Some(-300));
    assert_eq!(neg.as_u64(), None);
    assert_eq!(neg.as_u128(), None);

    let big = parse_number("0xffff_ffff_ffff_ffff_f").unwrap();
    assert_eq!(big.as_u64(), None);
    assert_eq!(big.as_u128(), Some(0xffff_ffff_ffff_ffff_f));

    // A float with an integral value narrows exactly; a fractional one
    // does not.
    let half = parse_number("0.5").unwrap();
    assert_eq!(half.as_i64(), None);
    let four = parse_number("4.0").unwrap();
    assert_eq!(four.as_i64(), Some(4));
    let big_float = parse_number("1e100").unwrap();
    assert_eq!(big_float.as_i64(), None);
}

#[test]
fn test_narrowing_round_trip() {
    // When `as_i64` yields a value, re-encoding and re-parsing that
    // value gives back an equal number.
    let cases = ["42", "-42", "4.0", "-17", "0x10", "12e2", "-0.0"];
    for s in cases {
        let n = parse_number(s).unwrap();
        if let Some(v) = n.as_i64() {
            let back = parse_number(&v.to_string()).unwrap();
            assert_eq!(back, n, "round trip of {s}");
        }
    }
    assert_eq!(parse_number("4.0").unwrap().as_i64(), Some(4));
}

#[test]
fn test_try_negate() {
    let one = parse_number("1").unwrap();
    let minus_one = one.try_negate().unwrap();
    assert_eq!(minus_one.as_i64(), Some(-1));
    // Negating the unsigned value just past the signed range fails.
    let big = parse_number("0x8000_0000_0000_0000_0000_0000_0000_0000").unwrap();
    assert!(big.try_negate().is_none());
    // Negating a float flips its sign exactly.
    let x = parse_number("2.5").unwrap();
    let y = x.try_negate().unwrap().try_negate().unwrap();
    assert_eq!(x, y);
    // `-` on the largest unsigned 128-bit spelling is too small to hold.
    assert_eq!(
        parse_number("-0xffff_ffff_ffff_ffff_ffff_ffff_ffff_ffff").unwrap_err(),
        "Number too small"
    );
}

#[test]
fn test_number_errors_and_fallback() {
    assert_eq!(
        parse_number("0bxyz").unwrap_err(),
        "Failed to parse binary number. Expected '0b\u{2026}'"
    );
    assert_eq!(
        parse_number("0xzz").unwrap_err(),
        "Failed to parse hexadecimal number. Expected '0x\u{2026}'"
    );
    assert_eq!(
        parse_number("1.2.3").unwrap_err(),
        "Failed to parse float number. Expected a valid float."
    );
    assert_eq!(parse_number("12ab").unwrap_err(), "Failed to parse number");
    // An integer too large for 128 bits falls back to binary64.
    let huge = parse_number("340282366920938463463374607431768211456").unwrap();
    assert_eq!(huge.as_u128(), None);
    // A bare `inf` is read by the binary64 fallback, like the original
    // float grammar does.
    let inf = parse_number("inf").unwrap();
    assert_eq!(inf.canonical_text(), Some("+inf".to_owned()));
}

#[test]
fn test_canonical_text() {
    assert_eq!(
        parse_number("123").unwrap().canonical_text(),
        Some("123".to_owned())
    );
    assert_eq!(
        parse_number("-123").unwrap().canonical_text(),
        Some("-123".to_owned())
    );
    assert_eq!(
        parse_number("-0.0").unwrap().canonical_text(),
        Some("-0.0".to_owned())
    );
    // A finite nonzero float has no canonical text here; its rendering
    // needs a shortest-round-trip algorithm.
    assert_eq!(parse_number("2.5").unwrap().canonical_text(), None);
}

#[test]
fn test_float_widths_compare_equal() {
    // The same value stored at the two float widths is one number.
    let narrow = Number::F32Bits((2.5f32).to_bits());
    let wide = Number::F64Bits((2.5f64).to_bits());
    assert_eq!(narrow, wide);
    let narrow_int = Number::F32Bits((3.0f32).to_bits());
    assert_eq!(narrow_int.as_i64(), Some(3));
    // Negative zero equals positive zero, and both equal integer zero.
    let neg_zero = Number::F64Bits((-0.0f64).to_bits());
    assert_eq!(neg_zero, Number::U128(0));
    // A subnormal widens exactly and is no integer.
    let tiny = Number::F32Bits(1);
    assert_eq!(tiny, Number::F64Bits((f32::from_bits(1) as f64).to_bits()));
    assert_eq!(tiny.as_i64(), None);
}

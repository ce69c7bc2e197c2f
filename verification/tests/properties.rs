use json5::{
    from_str, from_str_with_comments, to_string, to_string_with_options, Error, ErrorCode,
    NumberResult, Position, SerializeOptions, Value,
};

fn num(n: u128) -> Value {
    Value::Number(NumberResult::U128(n))
}

fn fnum(x: f64) -> Value {
    Value::Number(NumberResult::Float(x.to_bits()))
}

fn s(text: &str) -> Value {
    Value::Str(text.to_owned())
}

fn obj(members: Vec<(&str, Value)>) -> Value {
    Value::Object(members.into_iter().map(|(k, v)| (k.to_owned(), v)).collect())
}

// Round-trip: parsing a serialization yields the value back.
#[test]
fn round_trip() {
    let v = obj(vec![
        ("valid", num(1)),
        ("_x", Value::Array(vec![Value::Null, Value::Bool(true), fnum(0.5)])),
        ("$y", s("quotes ' and \" here")),
        ("a b", obj(vec![])),
        ("nested", obj(vec![("inner", Value::Array(vec![]))])),
        ("big", Value::Number(NumberResult::I128(i128::MIN))),
    ]);
    let text = to_string(&v).unwrap();
    assert_eq!(from_str(&text), Ok(v));
}

// Idempotent reserialization: serializing a reparse changes nothing.
#[test]
fn idempotent_reserialization() {
    let v = obj(vec![
        ("k", Value::Array(vec![num(1), fnum(2.5), s("x")])),
        ("m", Value::Bool(false)),
    ]);
    let text = to_string(&v).unwrap();
    let reparsed = from_str(&text).unwrap();
    assert_eq!(to_string(&reparsed), Ok(text));
}

// Leading zero handling.
#[test]
fn leading_zero() {
    assert_eq!(
        from_str("007"),
        Err(Error::new_at(Position { line: 0, column: 0 }, ErrorCode::LeadingZero))
    );
    assert_eq!(from_str("0"), Ok(num(0)));
    assert_eq!(from_str("0.5"), Ok(fnum(0.5)));
    assert_eq!(from_str("0x7"), Ok(num(7)));
}

// One trailing comma is allowed, two are not.
#[test]
fn trailing_comma() {
    assert_eq!(from_str("[1,2,]"), from_str("[1,2]"));
    assert_eq!(
        from_str("[1,,2]"),
        Err(Error::new_at(Position { line: 0, column: 3 }, ErrorCode::ExpectedValue))
    );
    assert_eq!(from_str("{a:1,}"), from_str("{a:1}"));
}

// Surrogate pairs decode to one scalar value; an unpaired surrogate is
// an error.
#[test]
fn surrogate_pairs() {
    assert_eq!(
        from_str("\"\\uD83D\\uDE00\""),
        Ok(Value::Str("\u{1F600}".to_owned()))
    );
    match from_str("\"\\uD800\"") {
        Err(e) => {
            assert_eq!(
                e,
                Error::new_at(
                    Position { line: 0, column: 7 },
                    ErrorCode::InvalidEscapeSequence
                )
            );
        }
        Ok(v) => panic!("unpaired surrogate parsed: {:?}", v),
    }
    // A low surrogate followed by another low surrogate is unpaired.
    match from_str("\"\\uDC00\\uDC00\"") {
        Err(e) => {
            assert_eq!(e.message(), "unpaired surrogate found: dc00 at line 1 column 2");
        }
        Ok(v) => panic!("unpaired surrogate parsed: {:?}", v),
    }
}

// A hex literal that overflows 128 bits fails at the overflowing
// digit's offset.
#[test]
fn hex_overflow_offset() {
    assert_eq!(
        from_str("0x100000000000000000000000000000000"),
        Err(Error::new_at(
            Position { line: 0, column: 34 },
            ErrorCode::OverflowParsingNumber
        ))
    );
    assert_eq!(
        from_str("  0xfffffffffffffffffffffffffffffffff"),
        Err(Error::new_at(
            Position { line: 0, column: 36 },
            ErrorCode::OverflowParsingNumber
        ))
    );
}

// Comment reattachment: a document comment survives a round trip, and
// is dropped when the structure no longer matches.
#[test]
fn comment_reattachment() {
    let (v, comments) = from_str_with_comments("// a\n{x:1}").unwrap();
    assert_eq!(v, obj(vec![("x", num(1))]));
    let options = SerializeOptions::new().comments(&comments);
    let text = to_string_with_options(&v, &options).unwrap();
    assert_eq!(text, "// a\n{\n  x: 1,\n}");

    // A structurally altered value misses the lookup and drops the
    // comment rather than misattach it.
    let (v2, comments2) = from_str_with_comments("[// an element\n1]").unwrap();
    assert_eq!(v2, Value::Array(vec![num(1)]));
    let altered = Value::Array(vec![]);
    let options2 = SerializeOptions::new().comments(&comments2);
    let text2 = to_string_with_options(&altered, &options2).unwrap();
    assert_eq!(text2, "[]");
}

// Keys that are identifiers round-trip unquoted; others always quote.
#[test]
fn identifier_keys() {
    let v = obj(vec![
        ("valid", num(1)),
        ("_x", num(2)),
        ("$y", num(3)),
        ("1x", num(4)),
        ("a b", num(5)),
        ("", num(6)),
    ]);
    let text = to_string(&v).unwrap();
    assert_eq!(
        text,
        "{\n  valid: 1,\n  _x: 2,\n  $y: 3,\n  \"1x\": 4,\n  \"a b\": 5,\n  \"\": 6,\n}"
    );
    assert_eq!(from_str(&text), Ok(v));
}

// The four special numeric literals parse to correctly signed values
// and serialize back to the identical literals.
#[test]
fn special_numerics() {
    for (text, check_bits) in [
        ("Infinity", f64::INFINITY.to_bits()),
        ("-Infinity", f64::NEG_INFINITY.to_bits()),
        ("NaN", 0x7FF8_0000_0000_0000u64),
        ("-NaN", 0xFFF8_0000_0000_0000u64),
    ] {
        let v = from_str(text).unwrap();
        match &v {
            Value::Number(NumberResult::Float(bits)) => {
                assert_eq!(*bits, check_bits);
                let f = f64::from_bits(*bits);
                if text.contains("NaN") {
                    assert!(f.is_nan());
                    assert_eq!(f.is_sign_negative(), text.starts_with('-'));
                } else {
                    assert!(f.is_infinite());
                    assert_eq!(f.is_sign_negative(), text.starts_with('-'));
                }
            }
            other => panic!("expected a float, got {:?}", other),
        }
        assert_eq!(to_string(&v), Ok(text.to_owned()));
    }
}

// The rendered message shows 1-based line and column.
#[test]
fn rendered_message() {
    let e = Error::new_at(Position { line: 0, column: 5 }, ErrorCode::TrailingCharacters);
    assert_eq!(e.message(), "trailing characters at line 1 column 6");
    let e2 = Error::new(ErrorCode::EofParsingString);
    assert_eq!(e2.message(), "EOF parsing string");
    let e3 = Error::custom("boom".to_owned());
    assert_eq!(e3.message(), "boom");
}

// Offset resolution counts CR LF as a single terminator.
#[test]
fn position_from_offset() {
    let text = "ab\r\ncd\ne";
    assert_eq!(Position::from_offset(0, text), Position { line: 0, column: 0 });
    assert_eq!(Position::from_offset(2, text), Position { line: 0, column: 2 });
    assert_eq!(Position::from_offset(4, text), Position { line: 1, column: 0 });
    assert_eq!(Position::from_offset(6, text), Position { line: 1, column: 2 });
    assert_eq!(Position::from_offset(7, text), Position { line: 2, column: 0 });
}

// The classifier accepts the non-ASCII whitespace code points through
// the category table.
#[test]
fn whitespace_classes() {
    assert!(json5::is_json5_whitespace('\u{2003}'));
    assert!(json5::is_json5_whitespace('\u{1680}'));
    assert!(json5::is_json5_whitespace('\u{FEFF}'));
    assert!(!json5::is_json5_whitespace('x'));
    assert!(json5::is_json5_line_terminator('\u{2028}'));
    assert!(!json5::is_json5_line_terminator('\t'));
}

// Identifier classification reaches into the Unicode letter categories.
#[test]
fn identifier_classes() {
    assert!(json5::is_json5_identifier_start('$'));
    assert!(json5::is_json5_identifier_start('_'));
    assert!(json5::is_json5_identifier_start('A'));
    assert!(json5::is_json5_identifier_start('\u{f9}'));
    assert!(!json5::is_json5_identifier_start('1'));
    assert!(json5::is_json5_identifier('1'));
    assert!(json5::is_json5_identifier('\u{200C}'));
    assert!(json5::is_json5_identifier('\u{0301}'));
    assert!(!json5::is_json5_identifier(' '));
    assert_eq!(json5::escape('"', '"'), Some("\\\""));
    assert_eq!(json5::escape('\'', '"'), None);
    assert_eq!(json5::escape('"', '\\'), Some("\\\\"));
    assert_eq!(json5::escape('"', '\n'), Some("\\n"));
    assert_eq!(json5::escape('"', 'a'), None);
}

// Parsing a float literal lands on the exactly rounded bits.
#[test]
fn float_parse_bits() {
    match from_str("0.8675309") {
        Ok(Value::Number(NumberResult::Float(bits))) => {
            assert_eq!(bits, 0.8675309f64.to_bits());
        }
        other => panic!("expected a float, got {:?}", other),
    }
    match from_str("1e999") {
        Ok(Value::Number(NumberResult::Float(bits))) => {
            assert!(f64::from_bits(bits).is_infinite());
        }
        other => panic!("expected a float, got {:?}", other),
    }
}

// A repeated key keeps its first position and takes the last value.
#[test]
fn repeated_keys() {
    assert_eq!(
        from_str("{a:1,b:2,a:3}"),
        Ok(obj(vec![("a", num(3)), ("b", num(2))]))
    );
}

// An empty exponent is rejected like any malformed float literal.
#[test]
fn empty_exponent() {
    assert_eq!(
        from_str("1e"),
        Err(Error::custom_at(
            Position { line: 0, column: 0 },
            "invalid float literal".to_owned()
        ))
    );
    assert_eq!(
        from_str("1e+"),
        Err(Error::custom_at(
            Position { line: 0, column: 0 },
            "invalid float literal".to_owned()
        ))
    );
}

// An unterminated block comment is an error.
#[test]
fn unterminated_block_comment() {
    assert_eq!(
        from_str("1 /* never closed"),
        Err(Error::new(ErrorCode::EofParsingComment))
    );
}

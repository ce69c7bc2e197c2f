use json5::{from_str, Deserializer, Error, ErrorCode, NumberResult, Position, Value};

use ErrorCode::{EofParsingArray, EofParsingBool, EofParsingNull, EofParsingNumber,
    EofParsingObject, EofParsingString, ExpectedBool, ExpectedColon, ExpectedComma,
    ExpectedIdentifier, ExpectedNull, ExpectedNumber, ExpectedValue, InvalidBytes,
    InvalidEscapeSequence, LeadingZero, LineTerminatorInString, OverflowParsingNumber,
    TrailingCharacters};

fn err(code: ErrorCode) -> Error {
    Error::new(code)
}

fn err_at(line: usize, column: usize, code: ErrorCode) -> Error {
    Error::new_at(Position { line, column }, code)
}

fn custom_err_at(line: usize, column: usize, msg: &str) -> Error {
    Error::custom_at(Position { line, column }, msg.to_owned())
}

fn num(n: u128) -> Value {
    Value::Number(NumberResult::U128(n))
}

fn inum(n: i128) -> Value {
    Value::Number(NumberResult::I128(n))
}

fn fnum(x: f64) -> Value {
    Value::Number(NumberResult::Float(x.to_bits()))
}

#[test]
fn parse_null() {
    assert_eq!(from_str("null"), Ok(Value::Null));
    assert_eq!(from_str("nil"), Err(err_at(0, 1, ExpectedNull)));
    assert_eq!(from_str("n"), Err(err(EofParsingNull)));
}

#[test]
fn parse_bool() {
    assert_eq!(from_str("true"), Ok(Value::Bool(true)));
    assert_eq!(from_str("false"), Ok(Value::Bool(false)));
    assert_eq!(from_str("t"), Err(err(EofParsingBool)));
    assert_eq!(from_str("trux"), Err(err_at(0, 3, ExpectedBool)));
}

#[test]
fn parse_number() {
    assert_eq!(from_str("0"), Ok(num(0)));
    assert_eq!(from_str("123"), Ok(num(123)));
    assert_eq!(from_str("-123"), Ok(inum(-123)));
    assert_eq!(from_str("123.456"), Ok(fnum(123.456)));
    assert_eq!(from_str("123.0"), Ok(fnum(123.)));
    assert_eq!(from_str("123."), Ok(fnum(123.)));
    assert_eq!(from_str(".456"), Ok(fnum(0.456)));
    assert_eq!(from_str("0.456"), Ok(fnum(0.456)));
    assert_eq!(from_str("123e-456"), Ok(fnum(123e-456)));
    assert_eq!(from_str("123E-456"), Ok(fnum(123e-456)));
    assert_eq!(from_str("18446744073709551615"), Ok(num(u64::MAX as u128)));
    assert_eq!(from_str("Infinity"), Ok(fnum(f64::INFINITY)));
    assert_eq!(from_str("-Infinity"), Ok(fnum(-f64::INFINITY)));
    assert_eq!(from_str("0xdecaf"), Ok(num(0xdecaf)));
    assert_eq!(from_str("-0xC0FFEE"), Ok(inum(-0xC0FFEE)));
    assert_eq!(from_str("0x7FFFFFFFFFFFFFFF"), Ok(num(i64::MAX as u128)));
    assert_eq!(
        from_str("-0x8000000000000000"),
        Ok(inum(i64::MIN as i128))
    );
    assert_eq!(from_str("0x0"), Ok(num(0)));
    assert_eq!(
        from_str("340282366920938463463374607431768211455"),
        Ok(num(u128::MAX))
    );
    assert_eq!(
        from_str("-170141183460469231731687303715884105728"),
        Ok(inum(i128::MIN))
    );
    assert_eq!(
        from_str("0xffffffffffffffffffffffffffffffff"),
        Ok(num(u128::MAX))
    );
    assert_eq!(
        from_str("-0x80000000000000000000000000000000"),
        Ok(inum(i128::MIN))
    );

    assert_eq!(from_str("0x"), Err(err(EofParsingNumber)));
    assert_eq!(from_str("0x!"), Err(err_at(0, 2, ExpectedNumber)));
    assert_eq!(from_str("inf"), Err(err_at(0, 0, ExpectedValue)));
    assert_eq!(from_str("007"), Err(err_at(0, 0, LeadingZero)));
    assert_eq!(
        from_str("340282366920938463463374607431768211456"),
        Err(custom_err_at(
            0,
            0,
            "number too large to fit in target type"
        ))
    );
    assert_eq!(
        from_str("-170141183460469231731687303715884105729"),
        Err(custom_err_at(
            0,
            0,
            "number too small to fit in target type"
        ))
    );
    assert_eq!(
        from_str("0x100000000000000000000000000000000"),
        Err(err_at(0, 34, OverflowParsingNumber))
    );
    assert_eq!(
        from_str("-0x80000000000000000000000000000001"),
        Err(custom_err_at(
            0,
            0,
            "out of range integral type conversion attempted"
        ))
    );
}

#[test]
fn parse_string() {
    assert_eq!(from_str(r#""can borrow""#), Ok(Value::Str("can borrow".to_owned())));
    assert_eq!(from_str(r#"'"quotes"'"#), Ok(Value::Str(r#""quotes""#.to_owned())));
    assert_eq!(from_str(r#""'quotes'""#), Ok(Value::Str("'quotes'".to_owned())));
    assert_eq!(
        from_str("'\u{4f60}\u{597d}!'"),
        Ok(Value::Str("\u{4f60}\u{597d}!".to_owned()))
    );
    assert_eq!(
        from_str("'\u{2028}\u{2029}'"),
        Ok(Value::Str("\u{2028}\u{2029}".to_owned()))
    );
    assert_eq!(
        from_str(r#""two\nlines""#),
        Ok(Value::Str("two\nlines".to_owned()))
    );
    assert_eq!(from_str("'one \\\nline'"), Ok(Value::Str("one line".to_owned())));
    assert_eq!(
        from_str("'one \\\r\nline'"),
        Ok(Value::Str("one line".to_owned()))
    );
    assert_eq!(
        from_str(r#""zero: '\0'""#),
        Ok(Value::Str("zero: '\0'".to_owned()))
    );
    assert_eq!(
        from_str("'\\u4f60\\u597d\\x21'"),
        Ok(Value::Str("\u{4f60}\u{597d}!".to_owned()))
    );

    assert_eq!(
        from_str("'one\ntwo'"),
        Err(err_at(0, 4, LineTerminatorInString))
    );
    assert_eq!(from_str(r#"'\01'"#), Err(err_at(0, 3, InvalidEscapeSequence)));
    assert_eq!(from_str(r#"'\42'"#), Err(err_at(0, 2, InvalidEscapeSequence)));
    assert_eq!(from_str(r#"'\ubar'"#), Err(err_at(0, 5, InvalidEscapeSequence)));
    assert_eq!(from_str("'..."), Err(err(EofParsingString)));
}

#[test]
fn parse_array() {
    assert_eq!(from_str("[]"), Ok(Value::Array(vec![])));
    assert_eq!(from_str("[null]"), Ok(Value::Array(vec![Value::Null])));
    assert_eq!(
        from_str("[1, 2, 3]"),
        Ok(Value::Array(vec![num(1), num(2), num(3)]))
    );
    assert_eq!(
        from_str("[[1, 2], [3, 4]]"),
        Ok(Value::Array(vec![
            Value::Array(vec![num(1), num(2)]),
            Value::Array(vec![num(3), num(4)]),
        ]))
    );
    assert_eq!(
        from_str(
            "
            [
                'a',
                'b',
                'c', // Trailing comma!
            ]
            "
        ),
        Ok(Value::Array(vec![
            Value::Str("a".to_owned()),
            Value::Str("b".to_owned()),
            Value::Str("c".to_owned()),
        ]))
    );

    assert_eq!(from_str("[1, 2"), Err(err_at(0, 0, EofParsingArray)));
    assert_eq!(from_str("[1 2]"), Err(err_at(0, 3, ExpectedComma)));
    assert_eq!(from_str("[ , ]"), Err(err_at(0, 2, ExpectedValue)));
}

#[test]
fn parse_object() {
    assert_eq!(
        from_str(
            "
            // An object with two properties
            // and a trailing comma
            {
                width: 1920,
                height: 1080,
            }
            "
        ),
        Ok(Value::Object(vec![
            ("width".to_owned(), num(1920)),
            ("height".to_owned(), num(1080)),
        ]))
    );
    assert_eq!(
        from_str("{ _123 : 42 }"),
        Ok(Value::Object(vec![("_123".to_owned(), num(42))]))
    );
    assert_eq!(
        from_str("{ \\u4f60\\u597d: 42 }"),
        Ok(Value::Object(vec![(
            "\u{4f60}\u{597d}".to_owned(),
            num(42)
        )]))
    );

    assert_eq!(
        from_str(r#"{ foo\nbar: 42 }"#),
        Err(err_at(0, 6, InvalidEscapeSequence))
    );
    assert_eq!(
        from_str("{ \\u4f60\\u597d\\u0021: 42 }"),
        Err(err_at(0, 14, ExpectedIdentifier))
    );
    assert_eq!(from_str(r#"{ 123: 42 }"#), Err(err_at(0, 2, ExpectedIdentifier)));
    assert_eq!(
        from_str("{ name 'Joe', age 27 }"),
        Err(err_at(0, 7, ExpectedColon))
    );
    assert_eq!(
        from_str("{ name: 'Joe' age: 27 }"),
        Err(err_at(0, 14, ExpectedComma))
    );
    assert_eq!(
        from_str("{ name: 'Joe', age: 27"),
        Err(err_at(0, 0, EofParsingObject))
    );
}

#[test]
fn comments() {
    assert_eq!(
        from_str(
            "
            // Single line comment
            /* Multi
               line
               comment */
            null
            "
        ),
        Ok(Value::Null)
    );
}

#[test]
fn bytes() {
    let de = Deserializer::from_str("'4a534f4e35'");
    assert_eq!(de.decode_hex(0, "4a534f4e35"), Ok(b"JSON5".to_vec()));
    assert_eq!(de.decode_hex(0, "4A534F4E35"), Ok(b"JSON5".to_vec()));
    assert_eq!(de.decode_hex(0, ""), Ok(vec![]));
    assert_eq!(de.decode_hex(0, "4a534f4e3"), Err(err_at(0, 0, InvalidBytes)));
    assert_eq!(de.decode_hex(2, "4a534f4e3g"), Err(err_at(0, 2, InvalidBytes)));
}

#[test]
fn trailing_characters() {
    assert_eq!(from_str("true false"), Err(err_at(0, 5, TrailingCharacters)));
}

#[test]
fn json5_org_example() {
    assert_eq!(
        from_str(
            r#"
            {
                // comments
                unquoted: 'and you can quote me on that',
                singleQuotes: 'I can use "double quotes" here',
                lineBreaks: "Look, Mom! \
No \\n's!",
                hexadecimal: 0xdecaf,
                leadingDecimalPoint: .8675309, andTrailing: 8675309.,
                positiveSign: +1,
                trailingComma: 'in objects', andIn: ['arrays',],
                "backwardsCompatible": "with JSON",
            }
            "#
        ),
        Ok(Value::Object(vec![
            (
                "unquoted".to_owned(),
                Value::Str("and you can quote me on that".to_owned())
            ),
            (
                "singleQuotes".to_owned(),
                Value::Str("I can use \"double quotes\" here".to_owned())
            ),
            (
                "lineBreaks".to_owned(),
                Value::Str("Look, Mom! No \\n's!".to_owned())
            ),
            ("hexadecimal".to_owned(), num(0xdecaf)),
            ("leadingDecimalPoint".to_owned(), fnum(0.8675309)),
            ("andTrailing".to_owned(), fnum(8675309.0)),
            ("positiveSign".to_owned(), num(1)),
            (
                "trailingComma".to_owned(),
                Value::Str("in objects".to_owned())
            ),
            (
                "andIn".to_owned(),
                Value::Array(vec![Value::Str("arrays".to_owned())])
            ),
            (
                "backwardsCompatible".to_owned(),
                Value::Str("with JSON".to_owned())
            ),
        ]))
    );
}

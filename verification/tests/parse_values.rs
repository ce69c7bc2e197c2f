use json5::{from_str, NumberResult, Value};

fn num(n: u128) -> Value {
    Value::Number(NumberResult::U128(n))
}

fn inum(n: i128) -> Value {
    Value::Number(NumberResult::I128(n))
}

fn fnum(x: f64) -> Value {
    Value::Number(NumberResult::Float(x.to_bits()))
}

fn s(text: &str) -> Value {
    Value::Str(text.to_owned())
}

fn obj(members: Vec<(&str, Value)>) -> Value {
    Value::Object(members.into_iter().map(|(k, v)| (k.to_owned(), v)).collect())
}

fn parses_to(text: &str, v: Value) {
    assert_eq!(from_str(text), Ok(v));
}

fn parses_to_nan(text: &str) {
    match from_str(text) {
        Ok(Value::Number(NumberResult::Float(bits))) => {
            assert!(f64::from_bits(bits).is_nan());
        }
        other => panic!("expected a float value, got {:?}", other),
    }
}

// objects

#[test]
fn parses_empty_objects() {
    parses_to("{}", obj(vec![]));
}

#[test]
fn parses_double_string_property_names() {
    parses_to("{\"a\":1}", obj(vec![("a", num(1))]));
}

#[test]
fn parses_single_string_property_names() {
    parses_to("{'a':1}", obj(vec![("a", num(1))]));
}

#[test]
fn parses_unquoted_property_names() {
    parses_to("{a:1}", obj(vec![("a", num(1))]));
}

#[test]
fn parses_special_character_property_names() {
    parses_to(
        "{$_:1,_$:2,a\u{200C}:3}",
        obj(vec![("$_", num(1)), ("_$", num(2)), ("a\u{200C}", num(3))]),
    );
}

#[test]
fn parses_unicode_property_names() {
    parses_to(
        "{\u{f9}\u{144}\u{ee}\u{10b}\u{f5}\u{10f}\u{eb}:9}",
        obj(vec![(
            "\u{f9}\u{144}\u{ee}\u{10b}\u{f5}\u{10f}\u{eb}",
            num(9),
        )]),
    );
}

#[test]
fn parses_escaped_property_names() {
    parses_to(
        "{\\u0061\\u0062:1,\\u0024\\u005F:2,\\u005F\\u0024:3}",
        obj(vec![("ab", num(1)), ("$_", num(2)), ("_$", num(3))]),
    );
}

#[test]
fn parses_multiple_properties() {
    parses_to("{abc:1,def:2}", obj(vec![("abc", num(1)), ("def", num(2))]));
}

#[test]
fn parses_nested_objects() {
    parses_to("{a:{b:2}}", obj(vec![("a", obj(vec![("b", num(2))]))]));
}

// arrays

#[test]
fn parses_empty_arrays() {
    parses_to("[]", Value::Array(vec![]));
}

#[test]
fn parses_array_values() {
    parses_to("[1]", Value::Array(vec![num(1)]));
}

#[test]
fn parses_multiple_array_values() {
    parses_to("[1,2]", Value::Array(vec![num(1), num(2)]));
}

#[test]
fn parses_nested_arrays() {
    parses_to(
        "[1,[2,3]]",
        Value::Array(vec![num(1), Value::Array(vec![num(2), num(3)])]),
    );
}

#[test]
fn parses_nulls() {
    parses_to("null", Value::Null);
}

#[test]
fn parses_true() {
    parses_to("true", Value::Bool(true));
}

#[test]
fn parses_false() {
    parses_to("false", Value::Bool(false));
}

// numbers

#[test]
fn parses_leading_zeroes() {
    parses_to("[0,0.,0e0]", Value::Array(vec![num(0), fnum(0.), fnum(0.)]));
}

#[test]
fn parses_integers() {
    parses_to(
        "[1,23,456,7890]",
        Value::Array(vec![num(1), num(23), num(456), num(7890)]),
    );
}

#[test]
fn parses_signed_numbers() {
    parses_to(
        "[-1,+2,-.1,-0]",
        Value::Array(vec![inum(-1), num(2), fnum(-0.1), num(0)]),
    );
}

#[test]
fn parses_leading_decimal_points() {
    parses_to("[.1,.23]", Value::Array(vec![fnum(0.1), fnum(0.23)]));
}

#[test]
fn parses_fractional_numbers() {
    parses_to("[1.0,1.23]", Value::Array(vec![fnum(1.), fnum(1.23)]));
}

#[test]
fn parses_exponents() {
    parses_to(
        "[1e0,1e1,1e01,1.e0,1.1e0,1e-1,1e+1]",
        Value::Array(vec![
            fnum(1.),
            fnum(10.),
            fnum(10.),
            fnum(1.),
            fnum(1.1),
            fnum(0.1),
            fnum(10.),
        ]),
    );
}

#[test]
fn parses_hexadecimal_numbers() {
    parses_to(
        "[0x1,0x10,0xff,0xFF]",
        Value::Array(vec![num(1), num(16), num(255), num(255)]),
    );
}

#[test]
fn parses_signed_and_unsiged_infinity() {
    parses_to(
        "[Infinity,-Infinity]",
        Value::Array(vec![fnum(f64::INFINITY), fnum(f64::NEG_INFINITY)]),
    );
}

#[test]
fn parses_signed_and_unsigned_nan() {
    parses_to_nan("NaN");
    parses_to_nan("-NaN");
}

// strings

#[test]
fn parses_double_quoted_strings() {
    parses_to("\"abc\"", s("abc"));
}

#[test]
fn parses_single_quoted_strings() {
    parses_to("'abc'", s("abc"));
}

#[test]
fn parses_nested_quotes_strings() {
    parses_to("['\"',\"'\"]", Value::Array(vec![s("\""), s("'")]));
}

#[test]
fn parses_escaped_characters() {
    parses_to(
        "'\\b\\f\\n\\r\\t\\v\\0\\x0f\\u01fF\\\n\\\r\n\\\r\\\u{2028}\\\u{2029}\\a\\'\\\"'",
        s("\u{0008}\u{000C}\n\r\t\u{000B}\0\x0f\u{01FF}a'\""),
    );
}

// comments

#[test]
fn parses_single_line_comments() {
    parses_to("{//comment\n}", obj(vec![]));
}

#[test]
fn parses_single_line_comments_at_end_of_input() {
    parses_to("{}//comment", obj(vec![]));
}

#[test]
fn parses_multi_line_comments() {
    parses_to("{/*comment\n** */}", obj(vec![]));
}

#[test]
fn parses_whitespace() {
    parses_to(
        "{\t\u{000B}\u{000C} \u{00A0}\u{FEFF}\n\r\u{2028}\u{2029}\u{2003}}",
        obj(vec![]),
    );
}

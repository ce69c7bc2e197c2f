use json5::{to_string, NumberResult, Value};

fn num(n: u128) -> Value {
    Value::Number(NumberResult::U128(n))
}

fn inum(n: i128) -> Value {
    Value::Number(NumberResult::I128(n))
}

fn fnum(x: f64) -> Value {
    Value::Number(NumberResult::Float(x.to_bits()))
}

fn s(text: &str) -> Value {
    Value::Str(text.to_owned())
}

fn obj(members: Vec<(&str, Value)>) -> Value {
    Value::Object(members.into_iter().map(|(k, v)| (k.to_owned(), v)).collect())
}

#[test]
fn serialize_null() {
    assert_eq!(to_string(&Value::Null), Ok("null".to_owned()));
}

#[test]
fn serialize_bool() {
    assert_eq!(to_string(&Value::Bool(true)), Ok("true".to_owned()));
    assert_eq!(to_string(&Value::Bool(false)), Ok("false".to_owned()));
}

#[test]
fn serialize_number() {
    assert_eq!(to_string(&num(123)), Ok("123".to_owned()));
    assert_eq!(to_string(&inum(123)), Ok("123".to_owned()));
    assert_eq!(to_string(&inum(-123)), Ok("-123".to_owned()));
    assert_eq!(to_string(&num(u128::MAX)), Ok("340282366920938463463374607431768211455".to_owned()));
    assert_eq!(to_string(&inum(i128::MIN)), Ok("-170141183460469231731687303715884105728".to_owned()));
    assert_eq!(to_string(&fnum(123.456)), Ok("123.456".to_owned()));
    assert_eq!(to_string(&fnum(-123.456)), Ok("-123.456".to_owned()));
    assert_eq!(to_string(&fnum(f64::INFINITY)), Ok("Infinity".to_owned()));
    assert_eq!(to_string(&fnum(-f64::INFINITY)), Ok("-Infinity".to_owned()));
    assert_eq!(to_string(&fnum(f64::NAN)), Ok("NaN".to_owned()));
    assert_eq!(to_string(&fnum(-f64::NAN)), Ok("-NaN".to_owned()));
    assert_eq!(to_string(&fnum(0.0)), Ok("0".to_owned()));
    assert_eq!(to_string(&fnum(-0.0)), Ok("-0".to_owned()));
    assert_eq!(to_string(&fnum(0.1)), Ok("0.1".to_owned()));
    assert_eq!(to_string(&fnum(5.0)), Ok("5".to_owned()));
    assert_eq!(
        to_string(&fnum(6.283185307179586)),
        Ok("6.283185307179586".to_owned())
    );
}

#[test]
fn serialize_string() {
    assert_eq!(to_string(&s("foo")), Ok(r#""foo""#.to_owned()));
    assert_eq!(to_string(&s(r#"double: ""#)), Ok(r#"'double: "'"#.to_owned()));
    assert_eq!(to_string(&s(r"single: '")), Ok(r#""single: '""#.to_owned()));
    assert_eq!(
        to_string(&s(r#"double: ", single: '"#)),
        Ok(r#""double: \", single: '""#.to_owned())
    );
    assert_eq!(
        to_string(&s("escapes: \\, \n, \r, \u{2028}, \u{2029}")),
        Ok(r#""escapes: \\, \n, \r, \u2028, \u2029""#.to_owned())
    );
}

#[test]
fn serialize_bytes() {
    let mut out: Vec<char> = Vec::new();
    json5::ser::write_hex(&mut out, &[0, 1, 2]);
    assert_eq!(out.iter().collect::<String>(), "000102");
    let mut out: Vec<char> = Vec::new();
    json5::ser::write_hex(&mut out, b"JSON5");
    assert_eq!(out.iter().collect::<String>(), "4a534f4e35");
}

#[test]
fn serialize_array() {
    assert_eq!(to_string(&Value::Array(vec![])), Ok("[]".to_owned()));
    assert_eq!(
        to_string(&Value::Array(vec![num(0), num(1), num(2)])),
        Ok("[\n  0,\n  1,\n  2,\n]".to_owned())
    );
    assert_eq!(
        to_string(&Value::Array(vec![
            Value::Array(vec![num(0)]),
            Value::Array(vec![num(1), num(2)]),
        ])),
        Ok("[\n  [\n    0,\n  ],\n  [\n    1,\n    2,\n  ],\n]".to_owned())
    );
    assert_eq!(
        to_string(&Value::Array(vec![num(1), Value::Bool(true), s("three")])),
        Ok("[\n  1,\n  true,\n  \"three\",\n]".to_owned())
    );
}

#[test]
fn serialize_object() {
    assert_eq!(to_string(&obj(vec![])), Ok("{}".to_owned()));
    assert_eq!(
        to_string(&obj(vec![("foo", num(0)), ("bar", num(1)), ("a b", num(3))])),
        Ok("{\n  foo: 0,\n  bar: 1,\n  \"a b\": 3,\n}".to_owned())
    );
    assert_eq!(
        to_string(&obj(vec![("true", s("yes")), ("false", s("no"))])),
        Ok("{\n  true: \"yes\",\n  false: \"no\",\n}".to_owned())
    );
    assert_eq!(
        to_string(&obj(vec![
            ("\u{3c4}", fnum(std::f64::consts::TAU)),
            ("\u{221e}", fnum(f64::INFINITY)),
        ])),
        Ok("{\n  \u{3c4}: 6.283185307179586,\n  \"\u{221e}\": Infinity,\n}".to_owned())
    );
    assert_eq!(
        to_string(&obj(vec![
            ("width", num(1920)),
            ("height", num(1080)),
            ("aspect-ratio", s("16:9")),
        ])),
        Ok("{\n  width: 1920,\n  height: 1080,\n  \"aspect-ratio\": \"16:9\",\n}".to_owned())
    );
    assert_eq!(
        to_string(&obj(vec![("0", s("zero")), ("1", s("one"))])),
        Ok("{\n  \"0\": \"zero\",\n  \"1\": \"one\",\n}".to_owned())
    );
}

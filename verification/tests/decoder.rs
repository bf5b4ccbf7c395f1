use json::{ParseError, Value};

fn value_from_str(json_str: &str) -> Result<Value, ParseError> {
    let mut pos: usize = 0;
    Value::from_bytes(json_str.as_bytes(), &mut pos)
}

#[test]
fn it_works() {
    let test_fun = |json_str: &str, val: Value| {
        let v = value_from_str(json_str);
        assert_eq!(v.as_ref(), Ok(&val));
    };
    test_fun(r#""""#, Value::String("".to_owned()));
    test_fun(r#""a string""#, Value::String("a string".to_owned()));
    test_fun("\"a \\nstring\"", Value::String("a \nstring".to_owned()));
    test_fun(r#" true"#, Value::Bool(true));
    test_fun(r#" false"#, Value::Bool(false));
    test_fun("3244443214", Value::Number(3244443214));
    value_from_str("[12 , 34 , 45 ,]").unwrap_err();
    value_from_str("[12 ,\t 34 , 45 ]").unwrap();
    value_from_str("[12 , 34 45 ]").unwrap_err();
    value_from_str("[}").unwrap_err();
    value_from_str("[{]").unwrap_err();
    value_from_str("[1 , 2 , 3 , {]").unwrap_err();
    value_from_str("[]").unwrap();
    value_from_str(r#"{}"#).unwrap();
    value_from_str(r#"[{"a": 12]}"#).unwrap_err();
    value_from_str(r#"{"a":[12, 34 , 45]}"#).unwrap();
    value_from_str(r#"{"a":[12 , 34 , 45], "b": 32,}"#).unwrap_err();
    value_from_str("\"abcded\tfdsa\"").unwrap_err();
    value_from_str(
        r#"{ "method": "check_sign", "version": "2.0", "datas": [ "8311016124", "6D7F7F0276962D125AA27AA8DAFE9F26", "2AC2E3F68FC8CCFF23B5D246DA881ECD" ], "src": "posbill", "auth": "B800A6D044EC6324663F75B21A8786F3", "datas_sign": "5AE6549F61D73DCADEE8781D9702DE8E" }"#,
    )
    .unwrap();
    let s = r#"{ "license": "MIT", "private": true, "engines": { "node": ">=8" }, "devDependencies": { "autoprefixer": "9.6.1", "eslint": "6.0.1", "less": "3.9.0", "less-plugin-clean-css": "1.5.1", "postcss-cli": "6.1.3", "stylelint": "10.1.0", "stylelint-config-standard": "18.3.0", "updates": "8.5.0" }, "browserslist": [ "> 1%", "last 2 firefox versions", "last 2 safari versions", "ie 11" ] }"#;
    value_from_str(s).unwrap();
}

#[test]
fn empty_array_and_object() {
    assert_eq!(value_from_str("[]"), Ok(Value::Array(vec![])));
    assert_eq!(value_from_str("{}"), Ok(Value::Object(vec![])));
}

#[test]
fn array_of_numbers_with_whitespace() {
    assert_eq!(
        value_from_str("[12 , 34 , 45 ]"),
        Ok(Value::Array(vec![
            Value::Number(12),
            Value::Number(34),
            Value::Number(45),
        ]))
    );
}

#[test]
fn trailing_comma_rejected() {
    assert_eq!(
        value_from_str("[12,34,45,]"),
        Err(ParseError::UnexpectSymErr(b']'))
    );
}

#[test]
fn escape_is_resolved() {
    assert_eq!(
        value_from_str("\"a \\nstring\""),
        Ok(Value::String("a \nstring".to_owned()))
    );
}

#[test]
fn all_escapes_resolved() {
    assert_eq!(
        value_from_str("\"\\\"\\\\\\/\\b\\f\\n\\r\\t\""),
        Ok(Value::String("\"\\/\u{8}\u{c}\n\r\t".to_owned()))
    );
}

#[test]
fn object_with_array_member() {
    assert_eq!(
        value_from_str("{\"a\":[12,34,45]}"),
        Ok(Value::Object(vec![(
            "a".to_owned(),
            Value::Array(vec![Value::Number(12), Value::Number(34), Value::Number(45)]),
        )]))
    );
}

#[test]
fn unterminated_constructs_are_eof() {
    assert_eq!(value_from_str("\"abc"), Err(ParseError::UnexpectedEof));
    assert_eq!(value_from_str("[1,2"), Err(ParseError::UnexpectedEof));
    assert_eq!(value_from_str("{\"a\":1"), Err(ParseError::UnexpectedEof));
    assert_eq!(value_from_str(""), Err(ParseError::UnexpectedEof));
}

#[test]
fn unknown_escape_names_the_byte() {
    assert_eq!(
        value_from_str("\"\\q\""),
        Err(ParseError::UnexpectSymErr(b'q'))
    );
}

#[test]
fn unicode_escape_is_rejected() {
    assert_eq!(
        value_from_str("\"\\u0041\""),
        Err(ParseError::UnexpectSymErr(b'u'))
    );
}

#[test]
fn control_byte_in_string_rejected() {
    assert_eq!(
        value_from_str("\"a\nb\""),
        Err(ParseError::UnexpectSymErr(b'\n'))
    );
}

#[test]
fn duplicate_key_keeps_first_value() {
    assert_eq!(
        value_from_str("{\"a\":1,\"a\":2}"),
        Ok(Value::Object(vec![("a".to_owned(), Value::Number(1))]))
    );
}

#[test]
fn whitespace_between_tokens_is_ignored() {
    let bare = value_from_str("[1,{\"k\":2}]");
    let spaced = value_from_str(" \t\r\n[ 1 ,\n {\t\"k\"\r: 2 } ] ");
    assert!(bare.is_ok());
    assert_eq!(bare, spaced);
}

#[test]
fn number_round_trip() {
    assert_eq!(value_from_str("0"), Ok(Value::Number(0)));
    assert_eq!(value_from_str("42"), Ok(Value::Number(42)));
    assert_eq!(
        value_from_str("9223372036854775807"),
        Ok(Value::Number(i64::MAX))
    );
}

#[test]
fn number_overflow_saturates() {
    assert_eq!(
        value_from_str("9223372036854775808"),
        Ok(Value::Number(i64::MAX))
    );
    assert_eq!(
        value_from_str("99999999999999999999999"),
        Ok(Value::Number(i64::MAX))
    );
}

#[test]
fn literals_match_exactly() {
    assert_eq!(value_from_str("null"), Ok(Value::Null));
    assert_eq!(value_from_str("tru"), Err(ParseError::UnexpectedEof));
    assert_eq!(value_from_str("nul"), Err(ParseError::UnexpectedEof));
    assert_eq!(value_from_str("falze"), Err(ParseError::UnexpectSymErr(b'z')));
    assert_eq!(value_from_str("trux"), Err(ParseError::UnexpectSymErr(b'x')));
    assert_eq!(value_from_str("n0"), Err(ParseError::UnexpectSymErr(b'0')));
}

#[test]
fn offending_byte_is_reported() {
    assert_eq!(
        value_from_str("[12 , 34 45 ]"),
        Err(ParseError::UnexpectSymErr(b'4'))
    );
    assert_eq!(value_from_str("[}"), Err(ParseError::UnexpectSymErr(b'}')));
    assert_eq!(
        value_from_str("{\"a\":1,}"),
        Err(ParseError::UnexpectSymErr(b'}'))
    );
    assert_eq!(value_from_str("+1"), Err(ParseError::UnexpectSymErr(b'+')));
}

#[test]
fn missing_colon_is_malformed() {
    assert_eq!(value_from_str("{\"a\" 1}"), Err(ParseError::DefaultErr));
}

#[test]
fn invalid_utf8_is_a_decode_error() {
    assert_eq!(
        Value::from_reader(&[0x22, 0xff, 0x22]),
        Err(ParseError::Utf8Err)
    );
}

#[test]
fn multibyte_utf8_passes_through() {
    assert_eq!(
        value_from_str("\"h\u{e9}llo\""),
        Ok(Value::String("h\u{e9}llo".to_owned()))
    );
}

#[test]
fn cursor_stops_after_value_and_tolerates_trailing_bytes() {
    let input = b" true junk";
    let mut pos: usize = 0;
    assert_eq!(Value::from_bytes(input, &mut pos), Ok(Value::Bool(true)));
    assert_eq!(pos, 5);
    assert_eq!(value_from_str("1 2"), Ok(Value::Number(1)));
}

#[test]
fn number_decoder_leaves_terminator_unconsumed() {
    let mut pos: usize = 0;
    let n = Value::get_number(b'1', b"23,45", &mut pos);
    assert_eq!(n, 123);
    assert_eq!(pos, 2);
}

#[test]
fn whitespace_skipper_moves_to_significant_byte() {
    let mut pos: usize = 0;
    json::parser::skip_space(b" \t\r\nx", &mut pos);
    assert_eq!(pos, 4);
    json::parser::skip_space(b" \t\r\nx", &mut pos);
    assert_eq!(pos, 4);
}

#[test]
fn from_reader_decodes_from_the_start() {
    assert_eq!(Value::from_reader(b"{}"), Ok(Value::Object(vec![])));
    assert_eq!(Value::from_reader(b"[null]"), Ok(Value::Array(vec![Value::Null])));
}

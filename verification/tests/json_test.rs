use sga::json::{parse, quoted, Json};

fn rt(v: Json) -> Json {
    parse(&sga::json::stringify(&v)).unwrap()
}

fn s(t: &str) -> Json {
    Json::Str(t.to_string())
}

#[test]
fn test_roundtrip_scalars() {
    assert_eq!(rt(Json::Null), Json::Null);
    assert_eq!(rt(Json::Bool(true)), Json::Bool(true));
    assert_eq!(rt(Json::Bool(false)), Json::Bool(false));
    assert_eq!(rt(Json::Int(42)), Json::Int(42));
    assert_eq!(rt(Json::Int(-7)), Json::Int(-7));
    assert_eq!(rt(Json::Float("3.25".to_string())), Json::Float("3.25".to_string()));
    assert_eq!(rt(s("hello")), s("hello"));
}

#[test]
fn test_roundtrip_array_nested() {
    let inner = Json::Array(vec![Json::Int(1), Json::Int(2)]);
    let outer = Json::Array(vec![inner, Json::Null, Json::Bool(true)]);
    let copy = Json::Array(vec![
        Json::Array(vec![Json::Int(1), Json::Int(2)]),
        Json::Null,
        Json::Bool(true),
    ]);
    assert_eq!(rt(outer), copy);
}

#[test]
fn test_parse_object_becomes_array_of_pairs() {
    let v = parse(r#"{"a": 1, "b": 2}"#).unwrap();
    match v {
        Json::Object(members) => {
            assert_eq!(members.len(), 2);
        }
        other => panic!("expected an object, got {:?}", other),
    }
}

#[test]
fn test_parse_invalid_json_is_err() {
    assert!(parse("not json").is_err());
    assert!(parse(r#"{"a": }"#).is_err());
    assert!(parse("[1, 2,]").is_err());
    assert!(parse("").is_err());
}

#[test]
fn json_object_members_keep_order_and_values() {
    let v = parse(r#" { "b" : [true, null] , "a":-0.5e3 } "#).unwrap();
    assert_eq!(
        v,
        Json::Object(vec![
            ("b".to_string(), Json::Array(vec![Json::Bool(true), Json::Null])),
            ("a".to_string(), Json::Float("-0.5e3".to_string())),
        ])
    );
}

#[test]
fn json_integer_too_large_reads_as_float_text() {
    assert_eq!(parse("9223372036854775807").unwrap(), Json::Int(i64::MAX));
    assert_eq!(parse("-9223372036854775808").unwrap(), Json::Int(i64::MIN));
    assert_eq!(
        parse("9223372036854775808").unwrap(),
        Json::Float("9223372036854775808".to_string())
    );
    assert_eq!(parse("-0").unwrap(), Json::Int(0));
}

#[test]
fn json_string_escapes_are_read() {
    assert_eq!(
        parse(r#""a\"b\\c\/d\n\t\r\b\f\u0041\u00e9""#).unwrap(),
        s("a\"b\\c/d\n\t\r\u{8}\u{c}Aé")
    );
}

#[test]
fn json_error_messages() {
    assert_eq!(
        parse("[1, 2,]").unwrap_err(),
        "json_parse: висячая запятая перед ']' на позиции 6"
    );
    assert_eq!(
        parse(r#"{"a": 1,}"#).unwrap_err(),
        "json_parse: висячая запятая перед '}' на позиции 8"
    );
    assert_eq!(
        parse("").unwrap_err(),
        "json_parse: неожиданный конец строки (ожидалось значение)"
    );
    assert_eq!(
        parse("not json").unwrap_err(),
        "json_parse: ожидался 'u' на позиции 1, получено 'o'"
    );
    assert_eq!(
        parse(r#"{"a": }"#).unwrap_err(),
        "json_parse: неожиданный символ '}' на позиции 6"
    );
    assert_eq!(
        parse("[1 2]").unwrap_err(),
        "json_parse: ожидался ',' или ']' на позиции 3, получено '2'"
    );
    assert_eq!(
        parse(r#"{"a" 1}"#).unwrap_err(),
        "json_parse: ожидался ':' на позиции 5, получено '1'"
    );
    assert_eq!(parse("[1,").unwrap_err(), "json_parse: неожиданный конец строки (ожидалось значение)");
    assert_eq!(parse("[1").unwrap_err(), "json_parse: незакрытый массив");
    assert_eq!(parse(r#"{"a":1"#).unwrap_err(), "json_parse: незакрытый объект");
    assert_eq!(parse(r#""abc"#).unwrap_err(), "json_parse: незакрытая строка");
    assert_eq!(parse(r#""\"#).unwrap_err(), "json_parse: незакрытый escape в конце строки");
    assert_eq!(parse(r#""\x""#).unwrap_err(), "json_parse: неизвестный escape '\\x'");
    assert_eq!(parse(r#""\u12""#).unwrap_err(), "json_parse: невалидная hex-цифра '\"' в \\u-escape");
    assert_eq!(parse(r#""\u12"#).unwrap_err(), "json_parse: незавершённый \\u-escape");
    assert_eq!(
        parse(r#""\ud800""#).unwrap_err(),
        "json_parse: суррогатные пары \\uXXXX (символы вне BMP) не поддерживаются в v0.1"
    );
    assert_eq!(parse("-").unwrap_err(), "json_parse: ожидалась цифра на позиции 1");
    assert_eq!(parse("1.").unwrap_err(), "json_parse: ожидалась цифра после '.' на позиции 2");
    assert_eq!(parse("1e+").unwrap_err(), "json_parse: ожидалась цифра в экспоненте на позиции 3");
    assert_eq!(
        parse("1 2").unwrap_err(),
        "json_parse: лишние данные после корневого значения на позиции 2"
    );
    assert_eq!(
        parse("01").unwrap_err(),
        "json_parse: лишние данные после корневого значения на позиции 1"
    );
    assert_eq!(parse("tru").unwrap_err(), "json_parse: неожиданный конец строки, ожидался 'e'");
}

#[test]
fn json_quote_escapes() {
    assert_eq!(quoted("a\"b\\c\nd\te\rf"), r#""a\"b\\c\nd\te\rf""#);
    assert_eq!(quoted("\u{1}\u{1f}"), r#""\u0001\u001f""#);
    assert_eq!(quoted("é/"), "\"é/\"");
    assert_eq!(quoted(""), "\"\"");
}

fn sample_object() -> Json {
    Json::Object(vec![
        ("x".to_string(), Json::Array(vec![Json::Int(-12), Json::Float("1.5".to_string())])),
        ("y\n".to_string(), Json::Str("q\"".to_string())),
        ("z".to_string(), Json::Object(vec![])),
    ])
}

#[test]
fn json_stringify_exact_text() {
    let v = sample_object();
    assert_eq!(sga::json::stringify(&v), r#"{"x":[-12,1.5],"y\n":"q\"","z":{}}"#);
    assert_eq!(sga::json::stringify(&Json::Array(vec![])), "[]");
    assert_eq!(sga::json::stringify(&Json::Int(i64::MIN)), "-9223372036854775808");
    assert_eq!(rt(v), sample_object());
}

#[test]
fn decimal_float_texts_read_back_as_floats() {
    for t in ["-0.0", "100.0", "0.25", "-12.5", "1000000000000000000000.0"] {
        assert_eq!(rt(Json::Float(t.to_string())), Json::Float(t.to_string()));
    }
}

use tomson::{parse_json, parse_toml, Json, JsonValue, Toml, TomlValue};

#[test]
fn test_to_json() {
    let res = Toml::as_json(&mut "[foo.bar]\n\nbaz=1".to_string());
    assert_eq!(res.is_ok(), true)
}

#[test]
fn test_to_toml() {
    let res = Json::as_toml(&mut r#"{"foo":1}"#.to_string());
    assert_eq!(res.is_ok(), true)
}

#[test]
fn parse_json_builds_the_expected_tree() {
    let v = parse_json(r#"{"foo":1,"bar":[true,"x"],"neg":-2}"#).unwrap();
    let JsonValue::Object(entries) = v else {
        panic!("expected an object")
    };
    assert_eq!(entries.len(), 3);
    assert!(entries.contains(&("foo".to_string(), JsonValue::U64(1))));
    assert!(entries.contains(&(
        "bar".to_string(),
        JsonValue::Array(vec![JsonValue::Boolean(true), JsonValue::Str("x".to_string())])
    )));
    assert!(entries.contains(&("neg".to_string(), JsonValue::I64(-2))));
}

#[test]
fn parse_toml_builds_the_expected_tree() {
    let v = parse_toml("[outer]\ninner = 5\nname = \"n\"").unwrap();
    let TomlValue::Table(entries) = v else {
        panic!("expected a table")
    };
    assert_eq!(entries.len(), 1);
    let (key, TomlValue::Table(inner)) = &entries[0] else {
        panic!("expected an inner table")
    };
    assert_eq!(key.as_str(), "outer");
    assert_eq!(inner.len(), 2);
    assert!(inner.contains(&("inner".to_string(), TomlValue::Integer(5))));
    assert!(inner.contains(&("name".to_string(), TomlValue::Str("n".to_string()))));
}

#[test]
fn malformed_json_is_a_single_diagnostic() {
    let err = parse_json(r#"{"a":}"#).unwrap_err();
    assert!(err.line >= 1);
    assert!(err.col >= 1);
    assert!(!err.desc.is_empty());
}

#[test]
fn malformed_json_through_the_adapter() {
    let res = Json::as_toml(&mut r#"{"a":}"#.to_string());
    assert!(res.is_err());
}

#[test]
fn two_toml_errors_are_both_reported() {
    let errs = parse_toml("a = 1\na = 2\nb = 3\nb = 4").unwrap_err();
    assert_eq!(errs.len(), 2);
    assert!(errs[0].desc.contains("duplicate key"));
    assert!(errs[1].desc.contains("duplicate key"));
    assert!(errs[0].lo < errs[0].hi);
}

#[test]
fn two_toml_errors_through_the_adapter() {
    let res = Toml::as_json(&mut "a = 1\na = 2\nb = 3\nb = 4".to_string());
    let errs = res.unwrap_err();
    assert_eq!(errs.len(), 2);
}

#[test]
fn parsed_values_act_as_sources() {
    let mut doc = JsonValue::Array(vec![JsonValue::Null, JsonValue::I64(8)]);
    let toml = Json::as_toml(&mut doc).unwrap();
    assert_eq!(
        toml,
        TomlValue::Array(vec![TomlValue::Str(String::new()), TomlValue::Integer(8)])
    );

    let mut doc = TomlValue::Datetime("1979-05-27T07:32:00Z".to_string());
    let json = Toml::as_json(&mut doc).unwrap();
    assert_eq!(json, JsonValue::Str("1979-05-27T07:32:00Z".to_string()));
}

#[test]
fn datetime_parses_and_degrades_through_the_adapters() {
    let json = Toml::as_json(&mut "best = 1979-05-27T07:32:00Z".to_string()).unwrap();
    let JsonValue::Object(entries) = json else {
        panic!("expected an object")
    };
    assert_eq!(
        entries,
        vec![("best".to_string(), JsonValue::Str("1979-05-27T07:32:00Z".to_string()))]
    );
}

#[test]
fn float_payloads_cross_the_boundary_bit_exactly() {
    let json = parse_json(r#"{"pi":3.5}"#).unwrap();
    let JsonValue::Object(entries) = json else {
        panic!("expected an object")
    };
    assert_eq!(entries, vec![("pi".to_string(), JsonValue::Float(3.5f64.to_bits()))]);

    let toml = parse_toml("x = 0.25").unwrap();
    let TomlValue::Table(entries) = toml else {
        panic!("expected a table")
    };
    assert_eq!(entries, vec![("x".to_string(), TomlValue::Float(0.25f64.to_bits()))]);
}

#[test]
fn full_pipeline_json_to_toml_to_json() {
    let toml = Json::as_toml(&mut r#"{"a":{"b":[1,2]},"c":true}"#.to_string()).unwrap();
    let mut toml_src = toml;
    let json = Toml::as_json(&mut toml_src).unwrap();
    let JsonValue::Object(entries) = json else {
        panic!("expected an object")
    };
    assert_eq!(entries.len(), 2);
    assert!(entries.contains(&("c".to_string(), JsonValue::Boolean(true))));
    assert!(entries.contains(&(
        "a".to_string(),
        JsonValue::Object(vec![(
            "b".to_string(),
            JsonValue::Array(vec![JsonValue::I64(1), JsonValue::I64(2)])
        )])
    )));
}

#[test]
fn overlong_exponent_is_declined_not_crashed() {
    let err = parse_json(r#"{"a":1e99999999999999999999}"#).unwrap_err();
    assert!(err.desc.contains("exponent"));
    let res = Json::as_toml(&mut r#"{"a":1e99999999999999999999}"#.to_string());
    assert!(res.is_err());
    let err = parse_json(r#"{"a":1E-99999999999999999999}"#).unwrap_err();
    assert!(err.desc.contains("exponent"));
}

#[test]
fn long_digit_runs_elsewhere_still_parse() {
    assert!(parse_json(r#"{"a":1234567890123456789}"#).is_ok());
    assert!(parse_json(r#"{"id":"99999999999999999999999999"}"#).is_ok());
    assert!(parse_json(r#"{"a":1.5e18,"b":2e+10}"#).is_ok());
}

use tomson::{json_to_toml, toml_to_json, JsonValue, TomlValue};

fn obj(entries: Vec<(&str, JsonValue)>) -> JsonValue {
    JsonValue::Object(entries.into_iter().map(|(k, v)| (k.to_string(), v)).collect())
}

fn table(entries: Vec<(&str, TomlValue)>) -> TomlValue {
    TomlValue::Table(entries.into_iter().map(|(k, v)| (k.to_string(), v)).collect())
}

/// Sort a converted tree's tables by key, recursively, so two trees can be
/// compared without regard to entry order.
fn normalize_toml(v: TomlValue) -> TomlValue {
    match v {
        TomlValue::Array(items) => {
            TomlValue::Array(items.into_iter().map(normalize_toml).collect())
        }
        TomlValue::Table(entries) => {
            let mut entries: Vec<(String, TomlValue)> = entries
                .into_iter()
                .map(|(k, x)| (k, normalize_toml(x)))
                .collect();
            entries.sort_by(|a, b| a.0.cmp(&b.0));
            TomlValue::Table(entries)
        }
        other => other,
    }
}

#[test]
fn scalar_round_trip_is_identity() {
    let doc = obj(vec![
        ("int", JsonValue::I64(-42)),
        ("seven", JsonValue::I64(7)),
        ("float", JsonValue::Float(2.5f64.to_bits())),
        ("text", JsonValue::Str("hello".to_string())),
        ("flag", JsonValue::Boolean(true)),
        (
            "list",
            JsonValue::Array(vec![
                JsonValue::I64(1),
                JsonValue::Str("x".to_string()),
                JsonValue::Boolean(false),
            ]),
        ),
        ("nested", obj(vec![("inner", JsonValue::I64(3))])),
    ]);
    let toml = json_to_toml(&doc);
    let back = toml_to_json(&toml);
    assert_eq!(back, doc);
}

#[test]
fn null_degrades_to_empty_string_and_stays_there() {
    let doc = obj(vec![("gone", JsonValue::Null)]);
    let once = toml_to_json(&json_to_toml(&doc));
    assert_eq!(once, obj(vec![("gone", JsonValue::Str(String::new()))]));
    let twice = toml_to_json(&json_to_toml(&once));
    assert_eq!(twice, once);
}

#[test]
fn toml_round_trip_is_identity_without_datetime() {
    let doc = table(vec![
        ("int", TomlValue::Integer(-3)),
        ("float", TomlValue::Float(0.25f64.to_bits())),
        ("text", TomlValue::Str("abc".to_string())),
        ("flag", TomlValue::Boolean(false)),
        (
            "list",
            TomlValue::Array(vec![TomlValue::Integer(1), TomlValue::Integer(2)]),
        ),
        ("nested", table(vec![("inner", TomlValue::Str("v".to_string()))])),
    ]);
    let json = toml_to_json(&doc);
    let back = json_to_toml(&json);
    assert_eq!(back, doc);
}

#[test]
fn unsigned_max_wraps_to_minus_one() {
    let toml = json_to_toml(&JsonValue::U64(18446744073709551615));
    assert_eq!(toml, TomlValue::Integer(-1));
}

#[test]
fn unsigned_in_signed_range_is_unchanged() {
    let toml = json_to_toml(&JsonValue::U64(9223372036854775807));
    assert_eq!(toml, TomlValue::Integer(9223372036854775807));
    let toml = json_to_toml(&JsonValue::U64(9223372036854775808));
    assert_eq!(toml, TomlValue::Integer(-9223372036854775808));
}

#[test]
fn datetime_degrades_to_its_exact_text() {
    let doc = table(vec![(
        "when",
        TomlValue::Datetime("1979-05-27T07:32:00Z".to_string()),
    )]);
    let json = toml_to_json(&doc);
    assert_eq!(
        json,
        obj(vec![("when", JsonValue::Str("1979-05-27T07:32:00Z".to_string()))])
    );
}

#[test]
fn empty_containers_round_trip() {
    let empty_obj = obj(vec![]);
    let as_toml = json_to_toml(&empty_obj);
    assert_eq!(as_toml, table(vec![]));
    assert_eq!(toml_to_json(&as_toml), empty_obj);

    let empty_arr = JsonValue::Array(vec![]);
    let as_toml = json_to_toml(&empty_arr);
    assert_eq!(as_toml, TomlValue::Array(vec![]));
    assert_eq!(toml_to_json(&as_toml), empty_arr);
}

#[test]
fn key_order_does_not_matter_up_to_reordering() {
    let one = obj(vec![
        ("a", JsonValue::I64(1)),
        ("b", obj(vec![("x", JsonValue::Boolean(true)), ("y", JsonValue::I64(2))])),
    ]);
    let two = obj(vec![
        ("b", obj(vec![("y", JsonValue::I64(2)), ("x", JsonValue::Boolean(true))])),
        ("a", JsonValue::I64(1)),
    ]);
    let converted_one = normalize_toml(json_to_toml(&one));
    let converted_two = normalize_toml(json_to_toml(&two));
    assert_eq!(converted_one, converted_two);
}

#[test]
fn nan_bits_survive_the_round_trip() {
    let bits = f64::NAN.to_bits();
    let doc = obj(vec![("odd", JsonValue::Float(bits))]);
    let back = toml_to_json(&json_to_toml(&doc));
    assert_eq!(back, doc);
}

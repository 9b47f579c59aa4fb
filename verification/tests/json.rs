use agent::json::{Json, JsonObject, MAX_DEPTH};

fn object(entries: Vec<(&str, Json)>) -> Json {
    Json::Object(JsonObject::from_entries(
        entries.into_iter().map(|(k, v)| (k.to_string(), v)).collect(),
    ))
}

#[test]
fn a_text_is_parsed_to_the_value_it_writes() {
    let json = Json::parse(
        "{\"b\": [null, true, 7, \"x\\n\"], \"a\": {\"n\": -1, \"f\": 1.5}, \"c\": 18446744073709551615}",
    )
    .unwrap();
    let float = |text: &str| Json::Float(text.parse::<serde_json::Number>().unwrap());
    assert_eq!(
        json,
        object(vec![
            (
                "b",
                Json::array(vec![
                    Json::Null,
                    Json::Bool(true),
                    Json::UInt(7),
                    Json::Str("x\n".into()),
                ]),
            ),
            ("a", object(vec![("n", Json::Int(-1)), ("f", float("1.5"))])),
            ("c", Json::UInt(u64::MAX)),
        ])
    );
    assert_eq!(Json::parse("{"), None);
    assert_eq!(Json::parse(""), None);
    assert_eq!(Json::parse("{} {}"), None);
}

#[test]
fn values_are_read_by_key_and_kind() {
    let json = Json::parse("{\"s\": \"text\", \"n\": 5, \"m\": -5, \"d\": 5.0}").unwrap();
    assert_eq!(json.str_at("s"), Some("text"));
    assert_eq!(json.str_at("n"), None);
    assert_eq!(json.str_at("x"), None);
    assert_eq!(json.u64_at("n"), Some(5));
    assert_eq!(json.u64_at("m"), None);
    assert_eq!(json.u64_at("d"), None);
    assert_eq!(json.u64_at("s"), None);
    assert_eq!(json.get("s"), Some(&Json::Str("text".into())));
    assert_eq!(Json::Null.get("s"), None);
    assert_eq!(Json::array(vec![Json::UInt(1)]).get("0"), None);
}

#[test]
fn a_key_that_comes_twice_keeps_its_last_value() {
    let json = Json::parse("{\"a\": 1, \"b\": 2, \"a\": 3}").unwrap();
    assert_eq!(json, object(vec![("a", Json::UInt(3)), ("b", Json::UInt(2))]));
}

#[test]
fn a_value_is_written_in_the_order_of_its_fields() {
    let json = object(vec![
        ("z", Json::Str("a \"quoted\" text\n".into())),
        ("a", Json::array(vec![Json::UInt(1), Json::Null, Json::Bool(false)])),
    ]);
    assert_eq!(json.to_text(), "{\"z\":\"a \\\"quoted\\\" text\\n\",\"a\":[1,null,false]}");
    assert_eq!(
        object(vec![("z", Json::UInt(1)), ("a", Json::Null)]).to_pretty_text(),
        "{\n  \"z\": 1,\n  \"a\": null\n}"
    );
}

#[test]
fn a_value_without_floats_is_read_back() {
    let json = object(vec![
        ("", Json::Str("\u{0}\u{7f}é\u{2028}\\\"".into())),
        ("max", Json::UInt(u64::MAX)),
        ("none", Json::Null),
        ("no", Json::Bool(false)),
        ("min", Json::Int(i64::MIN)),
        ("list", Json::array(vec![object(vec![]), Json::array(vec![]), Json::Int(-1)])),
    ]);
    assert_eq!(Json::parse(&json.to_text()), Some(json.clone()));
    assert_eq!(Json::parse(&json.to_pretty_text()), Some(json));
}

#[test]
fn a_value_goes_through_serde_json_unchanged() {
    let text = "{\"b\":[null,true,7,-7,0.5,\"x\"],\"a\":{}}";
    let value: serde_json::Value = serde_json::from_str(text).unwrap();
    let json = Json::from_value(value.clone());
    assert_eq!(json, json.clone());
    assert_eq!(json.to_value(), value);
    assert_eq!(json.to_text(), text);
}

fn nested(depth: u64) -> Json {
    let mut value = Json::Null;
    for _ in 0..depth {
        value = Json::array(vec![value]);
    }
    value
}

#[test]
fn values_are_read_back_to_the_greatest_depth() {
    let deepest = nested(MAX_DEPTH);
    assert_eq!(Json::parse(&deepest.to_text()), Some(deepest));
    assert_eq!(Json::parse(&nested(MAX_DEPTH + 1).to_text()), None);
}

#[test]
fn integers_are_the_same_numbers_however_they_are_held() {
    assert_eq!(Json::Int(5).as_u64(), Some(5));
    assert_eq!(Json::Int(-5).as_u64(), None);
    assert_eq!(Json::Int(5).to_value(), Json::UInt(5).to_value());
    assert_eq!(Json::from_value(Json::Int(5).to_value()), Json::UInt(5));
    assert_eq!(Json::Int(-5).to_text(), "-5");
    assert_eq!(Json::Int(i64::MIN).clone(), Json::Int(i64::MIN));
}

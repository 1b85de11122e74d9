use local_agent::json::{Json, JsonNumber};

#[test]
fn values_are_read_and_written() {
    let text = "{\"a\":[1,-2,true,null,\"x\\n\\\"\\u0001é\"],\"b\":{\"c\":0.5}}";
    let j = Json::parse(text).unwrap();
    assert_eq!(j.to_text().unwrap(), text);
    assert_eq!(j.show(), text);
    match j.get("a").unwrap() {
        Json::Array(v) => {
            assert_eq!(v[0], Json::Number(JsonNumber::Unsigned(1)));
            assert_eq!(v[1], Json::Number(JsonNumber::Negative(-2)));
            assert_eq!(v[4], Json::Text("x\n\"\u{1}é".to_string()));
        }
        _ => panic!("an array"),
    }
}

#[test]
fn keys_come_in_ascending_order_and_the_last_value_counts() {
    let j = Json::parse("{\"b\":1,\"a\":2,\"b\":3}").unwrap();
    assert_eq!(j.to_text().unwrap(), "{\"a\":2,\"b\":3}");
}

#[test]
fn texts_that_are_no_json_are_refused() {
    assert_eq!(
        Json::parse("{").unwrap_err(),
        "EOF while parsing an object at line 1 column 1"
    );
    assert!(Json::parse("").is_err());
    assert!(Json::parse("1 2").is_err());
}

#[test]
fn missing_fields_have_defaults() {
    let j = Json::parse("{\"t\":\"x\",\"n\":7,\"m\":-7,\"f\":1.5}").unwrap();
    assert_eq!(j.text_or("t", "d"), "x");
    assert_eq!(j.text_or("n", "d"), "d");
    assert_eq!(j.text_or("none", "d"), "d");
    assert_eq!(j.integer_or("n", 3), 7);
    assert_eq!(j.integer_or("m", 3), 3);
    assert_eq!(j.integer_or("f", 3), 3);
    assert_eq!(j.integer_or("t", 3), 3);
    assert_eq!(Json::Array(vec![]).text_or("t", "d"), "d");
    assert!(Json::Null.get("t").is_none());
}

#[test]
fn values_survive_the_conversions() {
    let text = "{\"big\":18446744073709551615,\"f\":1e300,\"l\":[[],{}],\"s\":\"\"}";
    let v: serde_json::Value = serde_json::from_str(text).unwrap();
    let j = Json::from_value(v.clone());
    assert_eq!(j.to_value(), v);
    assert_eq!(j.clone(), j);
    assert_eq!(j.to_text().unwrap(), serde_json::to_string(&v).unwrap());
}

use github_importer::json::{to_json_text, to_py_str, truthy, JsonNumber, JsonValue};
use github_importer::text::{is_whitespace, sort_strings, split_chars, trim_str};

fn from_serde(v: &serde_json::Value) -> JsonValue {
    match v {
        serde_json::Value::Null => JsonValue::Null,
        serde_json::Value::Bool(b) => JsonValue::Bool(*b),
        serde_json::Value::Number(n) => JsonValue::Number(JsonNumber {
            text: n.to_string(),
            as_u64: n.as_u64(),
            is_zero: n.as_f64() == Some(0.0),
        }),
        serde_json::Value::String(s) => JsonValue::Str(s.clone()),
        serde_json::Value::Array(a) => JsonValue::Array(a.iter().map(from_serde).collect()),
        serde_json::Value::Object(o) => JsonValue::Object(o.iter().map(|(k, v)| (k.clone(), from_serde(v))).collect()),
    }
}

#[test]
fn whitespace_is_what_char_is_whitespace_says() {
    for c in (0u32..=0x10FFFF).filter_map(char::from_u32) {
        assert_eq!(is_whitespace(c), c.is_whitespace(), "{:#x}", c as u32);
    }
}

#[test]
fn trimming_is_what_str_trim_gives() {
    for text in ["  a b \t", "\u{3000}x\u{85}", "", "   ", "plain", "\u{200b}zero-width\u{200b}"] {
        assert_eq!(trim_str(text), text.trim(), "{text:?}");
    }
}

#[test]
fn compact_json_is_what_serde_json_prints() {
    let samples = [
        r#"{"a":1,"b":[true,false,null],"c":"q\"uote\\ \u0001 \n"}"#,
        r#"[]"#,
        r#"{"emoji":"\u00e9\u2603","neg":-3,"f":1.5}"#,
    ];
    for text in samples {
        let v: serde_json::Value = serde_json::from_str(text).unwrap();
        assert_eq!(to_json_text(&from_serde(&v)), serde_json::to_string(&v).unwrap(), "{text}");
    }
}

#[test]
fn python_rendering_and_truthiness() {
    let v: serde_json::Value = serde_json::from_str(r#"{"a": [1, "x", null, true], "b": {}}"#).unwrap();
    assert_eq!(to_py_str(&from_serde(&v)), "{'a': [1, x, None, True], 'b': {}}");
    assert!(!truthy(&JsonValue::Null));
    assert!(!truthy(&from_serde(&serde_json::Value::from(0u64))));
    assert!(truthy(&JsonValue::Str("x".into())));
}

#[test]
fn sorting_is_code_point_order() {
    let sorted = sort_strings(vec!["b".into(), "B".into(), "a".into(), "ä".into(), "".into()]);
    let mut expected = vec!["b".to_string(), "B".to_string(), "a".to_string(), "ä".to_string(), String::new()];
    expected.sort();
    assert_eq!(sorted, expected);
}

#[test]
fn splitting_is_what_str_split_gives() {
    for text in ["a,b,,c", "", ",", "abc"] {
        let chars: Vec<char> = text.chars().collect();
        let parts: Vec<String> = split_chars(&chars, ',').into_iter().map(|p| p.into_iter().collect()).collect();
        let expected: Vec<String> = text.split(',').map(String::from).collect();
        assert_eq!(parts, expected, "{text:?}");
    }
}

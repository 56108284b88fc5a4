use esm_message::arma_value::ArmaValue;

fn s(text: &str) -> ArmaValue {
    ArmaValue::String(text.to_string())
}

#[test]
fn test_it_converts_bool() {
    assert_eq!(ArmaValue::Boolean(true).to_text(), "true");
    assert_eq!(ArmaValue::Boolean(false).to_text(), "false");
}

#[test]
fn test_it_converts_hash_map() {
    let vec = vec![
        ("key".to_string(), s("value")),
        ("key2".to_string(), ArmaValue::Boolean(true)),
    ];

    assert_eq!(
        ArmaValue::HashMap(vec).to_text(),
        r#"[[""key"", ""value""], [""key2"", true]]"#
    );
}

#[test]
fn test_macro_arma_value() {
    // Map form
    let int = 55u64;
    let result = ArmaValue::HashMap(vec![
        ("string".to_string(), s("world")),
        ("int".to_string(), ArmaValue::from_u64(int)),
        ("bool".to_string(), ArmaValue::Boolean(false)),
        (
            "array".to_string(),
            ArmaValue::Array(vec![
                ArmaValue::from_u64(1),
                ArmaValue::from_u64(2),
                ArmaValue::from_u64(3),
            ]),
        ),
        (
            "hash".to_string(),
            ArmaValue::HashMap(vec![
                ("true".to_string(), ArmaValue::Boolean(true)),
                ("false".to_string(), ArmaValue::Boolean(false)),
            ]),
        ),
    ]);

    assert_eq!(
        result.to_text(),
        r#"[[""string"", ""world""], [""int"", 55], [""bool"", false], [""array"", [1, 2, 3]], [""hash"", [[""true"", true], [""false"", false]]]]"#
    );

    // Array form
    let result = ArmaValue::Array(vec![
        s("string"),
        ArmaValue::from_u64(int),
        ArmaValue::Boolean(false),
        ArmaValue::Array(vec![
            ArmaValue::from_u64(1),
            ArmaValue::from_u64(2),
            ArmaValue::from_u64(3),
        ]),
        ArmaValue::HashMap(vec![
            ("true".to_string(), ArmaValue::Boolean(true)),
            ("false".to_string(), ArmaValue::Boolean(false)),
        ]),
    ]);
    assert_eq!(
        result.to_text(),
        r#"[""string"", 55, false, [1, 2, 3], [[""true"", true], [""false"", false]]]"#
    );

    // String
    let result = s("test");
    assert_eq!(result.to_text(), "\"\"test\"\"");

    // Number
    let result = ArmaValue::from_u64(55);
    assert_eq!(result.to_text(), "55");

    // Boolean
    let result = ArmaValue::Boolean(true);
    assert_eq!(result.to_text(), "true");

    // Empty value
    let result = ArmaValue::Nil;
    assert_eq!(result.to_text(), "nil");

    let result = ArmaValue::Nil;
    assert_eq!(result.to_text(), "nil");
}

#[test]
fn test_json_render_and_parse() {
    let value = ArmaValue::HashMap(vec![
        ("a".to_string(), s("x\"y")),
        ("b".to_string(), ArmaValue::Array(vec![ArmaValue::Nil, ArmaValue::Boolean(true)])),
    ]);
    let text = esm_message::json::render_json(&value);
    assert_eq!(text, "{\"a\":\"x\\\"y\",\"b\":[null,true]}");
    let chars: Vec<char> = text.chars().collect();
    let back = esm_message::json::parse_json_text(&chars).unwrap();
    assert_eq!(back, value);
}

#[test]
fn test_json_parse_rejects_garbage() {
    for bad in ["", "[1,", "{\"a\":}", "tru", "\"unterminated", "01"] {
        let chars: Vec<char> = bad.chars().collect();
        assert!(esm_message::json::parse_json_text(&chars).is_err());
    }
}

#[test]
fn test_string_map_insert_and_get() {
    let mut m = esm_message::data::StringMap::new();
    m.insert("k".into(), "1".into());
    m.insert("j".into(), "2".into());
    m.insert("k".into(), "3".into());
    assert_eq!(m.len(), 2);
    assert_eq!(m.get("k").map(|v| v.as_str()), Some("3"));
    assert_eq!(m.get("j").map(|v| v.as_str()), Some("2"));
    assert_eq!(m.get("missing"), None);
}

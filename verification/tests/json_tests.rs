use fmus_core::json::{json_eq, parse_json, to_json_text, JsonValue};

fn sample() -> JsonValue {
    JsonValue::Obj(vec![
        ("name".to_string(), JsonValue::Str("fmus".to_string())),
        ("count".to_string(), JsonValue::num_u64(12)),
        (
            "tags".to_string(),
            JsonValue::Arr(vec![
                JsonValue::Str("a\"b".to_string()),
                JsonValue::Bool(true),
                JsonValue::Null,
            ]),
        ),
        ("ratio".to_string(), JsonValue::Num("-0.5e2".to_string())),
    ])
}

#[test]
fn serializer_produces_exact_text() {
    let text = to_json_text(&sample());
    assert_eq!(
        text,
        "{\"name\":\"fmus\",\"count\":12,\"tags\":[\"a\\\"b\",true,null],\"ratio\":-0.5e2}"
    );
}

#[test]
fn escapes_are_emitted_and_read_back() {
    let v = JsonValue::Str("line\nbreak\tand \\ \"q\"".to_string());
    let text = to_json_text(&v);
    assert_eq!(text, "\"line\\nbreak\\tand \\\\ \\\"q\\\"\"");
    let back = parse_json(&text).unwrap();
    assert!(json_eq(&back, &v));
}

#[test]
fn round_trip_preserves_the_value() {
    let v = sample();
    let text = to_json_text(&v);
    let back = parse_json(&text).unwrap();
    assert!(json_eq(&back, &v));
}

#[test]
fn parser_handles_whitespace_and_nesting() {
    let v = parse_json(" { \"a\" : [ 1 , { \"b\" : false } ] } ").unwrap();
    let a = v.obj_get("a").unwrap();
    let second = a.arr_get(1).unwrap();
    let b = second.obj_get("b").unwrap();
    assert!(json_eq(b, &JsonValue::Bool(false)));
}

#[test]
fn parser_rejects_malformed_text() {
    assert!(parse_json("").is_none());
    assert!(parse_json("{").is_none());
    assert!(parse_json("[1,]").is_none());
    assert!(parse_json("{\"a\":}").is_none());
    assert!(parse_json("true false").is_none());
    assert!(parse_json("1.").is_none());
    assert!(parse_json("nul").is_none());
}

#[test]
fn parser_accepts_numbers_in_full_form() {
    for t in ["0", "-7", "3.25", "6e4", "-1.5E-2"] {
        let v = parse_json(t).unwrap();
        assert!(json_eq(&v, &JsonValue::Num(t.to_string())), "{}", t);
    }
}

#[test]
fn our_output_agrees_with_an_independent_reader() {
    let text = to_json_text(&sample());
    let theirs: serde_json::Value = serde_json::from_str(&text).unwrap();
    let reference: serde_json::Value = serde_json::from_str(
        "{\"name\":\"fmus\",\"count\":12,\"tags\":[\"a\\\"b\",true,null],\"ratio\":-50.0}",
    )
    .unwrap();
    assert_eq!(theirs, reference);
}

#[test]
fn our_parser_accepts_an_independent_writer() {
    let value: serde_json::Value =
        serde_json::from_str("{\"k\":[1,\"two\",null,{\"deep\":true}]}").unwrap();
    let their_text = serde_json::to_string(&value).unwrap();
    let ours = parse_json(&their_text).unwrap();
    let expected = JsonValue::Obj(vec![(
        "k".to_string(),
        JsonValue::Arr(vec![
            JsonValue::Num("1".to_string()),
            JsonValue::Str("two".to_string()),
            JsonValue::Null,
            JsonValue::Obj(vec![("deep".to_string(), JsonValue::Bool(true))]),
        ]),
    )]);
    assert!(json_eq(&ours, &expected));
}

#[test]
fn deep_equality_distinguishes_values() {
    assert!(!json_eq(&JsonValue::Null, &JsonValue::Bool(false)));
    assert!(!json_eq(
        &JsonValue::Arr(vec![JsonValue::Null]),
        &JsonValue::Arr(vec![])
    ));
    assert!(json_eq(
        &JsonValue::Num("10".to_string()),
        &JsonValue::Num("10".to_string())
    ));
    assert!(!json_eq(
        &JsonValue::Num("10".to_string()),
        &JsonValue::Num("1.0e1".to_string())
    ));
}

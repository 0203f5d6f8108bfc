use fmus_core::client::HttpResponse;
use fmus_core::errors::ClientError;
use fmus_core::json::JsonValue;
use fmus_core::response::ResponseBodyType;

fn resp(headers: Vec<(&str, &str)>, body: &[u8]) -> HttpResponse {
    HttpResponse {
        status: 200,
        headers: headers
            .into_iter()
            .map(|(k, v)| (k.to_string(), v.to_string()))
            .collect(),
        body: body.to_vec(),
        time: 0,
    }
}

#[test]
fn content_type_header_with_charset_is_json() {
    let r = resp(
        vec![("content-type", "application/json; charset=utf-8")],
        b"ignored",
    );
    assert_eq!(r.detect_content_type(), ResponseBodyType::Json);
}

#[test]
fn header_lookup_is_case_insensitive() {
    let r = resp(vec![("Content-Type", "TEXT/HTML")], b"");
    assert_eq!(r.detect_content_type(), ResponseBodyType::Html);
}

#[test]
fn missing_header_with_structured_body_is_json() {
    let r = resp(vec![], b"{\"a\":1}");
    assert_eq!(r.detect_content_type(), ResponseBodyType::Json);
}

#[test]
fn missing_header_with_empty_body_is_text() {
    let r = resp(vec![], b"");
    assert_eq!(r.detect_content_type(), ResponseBodyType::Text);
}

#[test]
fn missing_header_with_other_body_is_binary() {
    let r = resp(vec![], b"plain words");
    assert_eq!(r.detect_content_type(), ResponseBodyType::Binary);
}

#[test]
fn xml_image_and_text_prefixes() {
    assert_eq!(
        resp(vec![("content-type", "text/xml")], b"").detect_content_type(),
        ResponseBodyType::Xml
    );
    assert_eq!(
        resp(vec![("content-type", "application/xml")], b"").detect_content_type(),
        ResponseBodyType::Xml
    );
    assert_eq!(
        resp(vec![("content-type", "image/png")], b"").detect_content_type(),
        ResponseBodyType::Image
    );
    assert_eq!(
        resp(vec![("content-type", "text/csv")], b"").detect_content_type(),
        ResponseBodyType::Text
    );
}

#[test]
fn text_decodes_utf8_and_rejects_other_bytes() {
    let ok = resp(vec![], "héllo".as_bytes());
    assert_eq!(ok.text().unwrap(), "héllo");
    let bad = resp(vec![], &[0xff, 0xfe]);
    assert!(matches!(
        bad.text(),
        Err(ClientError::BodyDecodeError { .. })
    ));
}

#[test]
fn json_parses_the_body_or_fails() {
    let ok = resp(vec![], b" [1, 2, 3] ");
    let v = ok.json().unwrap();
    assert!(matches!(v, JsonValue::Arr(ref elts) if elts.len() == 3));
    let bad = resp(vec![], b"{broken");
    assert!(matches!(
        bad.json(),
        Err(ClientError::BodyDecodeError { .. })
    ));
}

#[test]
fn assert_status_checks_equality() {
    let r = resp(vec![], b"");
    assert!(r.assert_status(200).is_ok());
    assert!(r.assert_status(404).is_err());
}

#[test]
fn assert_header_matches_value_case_insensitively_on_the_key() {
    let r = resp(vec![("X-Thing", "yes")], b"");
    assert!(r.assert_header("x-thing", "yes").is_ok());
    assert!(r.assert_header("X-Thing", "no").is_err());
    assert!(r.assert_header("absent", "yes").is_err());
}

#[test]
fn assert_json_path_walks_fields_and_indices() {
    let r = resp(
        vec![],
        b"{\"user\":{\"tags\":[\"a\",\"b\"],\"age\":7}}",
    );
    assert!(r
        .assert_json_path("user.age", &JsonValue::Num("7".to_string()))
        .is_ok());
    assert!(r
        .assert_json_path("user.tags.[1]", &JsonValue::Str("b".to_string()))
        .is_ok());
    assert!(r
        .assert_json_path("user.tags.[2]", &JsonValue::Str("c".to_string()))
        .is_err());
    assert!(r
        .assert_json_path("user.missing", &JsonValue::Null)
        .is_err());
    assert!(r
        .assert_json_path("user.age", &JsonValue::Num("8".to_string()))
        .is_err());
    assert!(r
        .assert_json_path("user.tags.[x]", &JsonValue::Null)
        .is_err());
}

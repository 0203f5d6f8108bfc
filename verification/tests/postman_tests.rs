use fmus_core::api::{auth_header, build_graphql_body, command_method_supported, Auth};
use fmus_core::collections::Collection;
use fmus_core::json::{json_eq, parse_json, to_json_text, JsonValue};
use fmus_core::postman::{export_collection, import_collection, import_postman_collection};

const SAMPLE: &str = "{\
\"info\":{\"name\":\"Sample\",\"description\":\"demo\"},\
\"item\":[],\
\"variable\":[\
{\"key\":\"host\",\"value\":\"a\"},\
{\"key\":\"host\",\"value\":\"b\"},\
{\"key\":\"off\",\"value\":\"x\",\"disabled\":true}\
]}";

#[test]
fn import_reads_info_and_enabled_variables() {
    let c = import_postman_collection(SAMPLE).unwrap();
    assert_eq!(c.name, "Sample");
    assert_eq!(c.description.as_deref(), Some("demo"));
    assert_eq!(c.id.len(), 36);
    assert!(c.requests.is_empty());
    // Later values win; disabled entries are skipped.
    assert_eq!(c.variables, vec![("host".to_string(), "b".to_string())]);
}

#[test]
fn import_rejects_malformed_documents() {
    assert!(import_postman_collection("not json").is_err());
    assert!(import_postman_collection("{\"item\":[]}").is_err());
    assert!(import_postman_collection("{\"info\":{\"name\":\"x\"}}").is_err());
    assert!(import_postman_collection(
        "{\"info\":{\"name\":\"x\"},\"item\":[],\"variable\":[{\"key\":\"k\"}]}"
    )
    .is_err());
}

#[test]
fn import_collection_dispatches_on_format() {
    assert!(import_collection("POSTMAN", SAMPLE).is_ok());
    assert!(import_collection("har", SAMPLE).is_err());
}

fn collection() -> Collection {
    Collection {
        id: "c-1".to_string(),
        name: "api".to_string(),
        description: Some("d".to_string()),
        requests: vec!["r-1".to_string()],
        folders: vec![],
        variables: vec![("host".to_string(), "a".to_string())],
    }
}

#[test]
fn export_json_is_the_plain_structured_form() {
    let text = export_collection(&collection(), "json").unwrap();
    let v: serde_json::Value = serde_json::from_str(&text).unwrap();
    assert_eq!(v["id"], "c-1");
    assert_eq!(v["name"], "api");
    assert_eq!(v["requests"][0], "r-1");
    assert_eq!(v["variables"]["host"], "a");
}

#[test]
fn export_postman_round_trips_through_import() {
    let text = export_collection(&collection(), "Postman").unwrap();
    let v: serde_json::Value = serde_json::from_str(&text).unwrap();
    assert_eq!(v["info"]["_postman_id"], "c-1");
    assert_eq!(v["item"].as_array().unwrap().len(), 0);
    let back = import_postman_collection(&text).unwrap();
    assert_eq!(back.name, "api");
    assert_eq!(back.description.as_deref(), Some("d"));
    assert_eq!(back.variables, vec![("host".to_string(), "a".to_string())]);
}

#[test]
fn export_rejects_unknown_formats() {
    assert!(export_collection(&collection(), "yaml").is_err());
}

#[test]
fn command_auth_header_variants() {
    let basic = Auth {
        auth_type: "basic".to_string(),
        username: Some("user".to_string()),
        password: Some("pass".to_string()),
        token: None,
        api_key: None,
        prefix: None,
    };
    assert_eq!(
        auth_header(&basic).unwrap(),
        (
            "Authorization".to_string(),
            "Basic dXNlcjpwYXNz".to_string()
        )
    );

    let bearer = Auth {
        auth_type: "bearer".to_string(),
        username: None,
        password: None,
        token: Some("t".to_string()),
        api_key: None,
        prefix: None,
    };
    assert_eq!(
        auth_header(&bearer).unwrap(),
        ("Authorization".to_string(), "Bearer t".to_string())
    );

    let apikey = Auth {
        auth_type: "apikey".to_string(),
        username: None,
        password: None,
        token: None,
        api_key: Some("k".to_string()),
        prefix: None,
    };
    assert_eq!(
        auth_header(&apikey).unwrap(),
        ("X-API-Key".to_string(), "k".to_string())
    );

    let incomplete = Auth {
        auth_type: "basic".to_string(),
        username: Some("u".to_string()),
        password: None,
        token: None,
        api_key: None,
        prefix: None,
    };
    assert!(auth_header(&incomplete).is_err());

    let unknown = Auth {
        auth_type: "ntlm".to_string(),
        username: None,
        password: None,
        token: None,
        api_key: None,
        prefix: None,
    };
    assert!(auth_header(&unknown).is_err());
}

#[test]
fn command_method_set_excludes_trace_and_connect() {
    assert!(command_method_supported("get"));
    assert!(command_method_supported("OPTIONS"));
    assert!(!command_method_supported("TRACE"));
    assert!(!command_method_supported("CONNECT"));
    assert!(!command_method_supported("BREW"));
}

#[test]
fn graphql_body_carries_query_then_variables_then_operation() {
    let body = build_graphql_body(
        "query { me }",
        Some(JsonValue::Obj(vec![(
            "id".to_string(),
            JsonValue::num_u64(3),
        )])),
        Some("Me".to_string()),
    );
    assert_eq!(
        to_json_text(&body),
        "{\"query\":\"query { me }\",\"variables\":{\"id\":3},\"operationName\":\"Me\"}"
    );

    let minimal = build_graphql_body("query { me }", None, None);
    let expected = JsonValue::Obj(vec![(
        "query".to_string(),
        JsonValue::Str("query { me }".to_string()),
    )]);
    assert!(json_eq(&minimal, &expected));
    let reread = parse_json(&to_json_text(&minimal)).unwrap();
    assert!(json_eq(&reread, &expected));
}

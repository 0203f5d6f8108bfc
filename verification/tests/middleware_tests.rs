use fmus_core::client::{HttpResponse, RequestParams};
use fmus_core::middleware::{
    create_middleware, HeaderSetter, Middleware, MiddlewareManager, ResponseStamp,
};

fn setter(value: &str) -> HeaderSetter {
    HeaderSetter {
        key: "X-Order".to_string(),
        value: value.to_string(),
    }
}

fn stamp(value: &str) -> ResponseStamp {
    ResponseStamp {
        key: "X-Order".to_string(),
        value: value.to_string(),
    }
}

fn response() -> HttpResponse {
    HttpResponse {
        status: 200,
        headers: vec![],
        body: vec![],
        time: 0,
    }
}

#[test]
fn request_transforms_run_in_registration_order() {
    // Entries [A, B] both write the same header: the surviving value shows
    // who ran last. Requests run A then B, so B's value survives.
    let mut chain: MiddlewareManager<HeaderSetter> = MiddlewareManager::new();
    chain.add(Middleware::new("A", Some(setter("from-a")), None));
    chain.add(Middleware::new("B", Some(setter("from-b")), None));
    let out = chain.apply_to_request(RequestParams::new("http://x", "GET"));
    assert_eq!(
        out.headers.unwrap(),
        vec![("X-Order".to_string(), "from-b".to_string())]
    );
}

#[test]
fn response_transforms_run_in_reverse_registration_order() {
    // Responses run B then A, so A's value survives.
    let mut chain: MiddlewareManager<ResponseStamp> = MiddlewareManager::new();
    chain.add(Middleware::new("A", None, Some(stamp("from-a"))));
    chain.add(Middleware::new("B", None, Some(stamp("from-b"))));
    let out = chain.apply_to_response(response());
    assert_eq!(
        out.headers,
        vec![("X-Order".to_string(), "from-a".to_string())]
    );
}

#[test]
fn absent_sides_leave_values_unchanged() {
    let mut chain: MiddlewareManager<HeaderSetter> = MiddlewareManager::new();
    chain.add(create_middleware("noop", None, None));
    let out = chain.apply_to_request(RequestParams::new("http://x", "GET"));
    assert!(out.headers.is_none());
    let resp = chain.apply_to_response(response());
    assert_eq!(resp.status, 200);
    assert!(resp.headers.is_empty());
}

#[test]
fn an_empty_chain_is_the_identity() {
    let chain: MiddlewareManager<HeaderSetter> = MiddlewareManager::new();
    let out = chain.apply_to_request(RequestParams::new("http://x", "POST"));
    assert_eq!(out.url, "http://x");
    assert_eq!(out.method, "POST");
}

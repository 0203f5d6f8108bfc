use fmus_core::auth::{Auth, OAuth2Auth};
use fmus_core::client::{ClientConfig, HttpClient, RequestParams};
use fmus_core::errors::ClientError;

fn client_with_base(base: &str) -> HttpClient {
    HttpClient::new(Some(ClientConfig {
        base_url: Some(base.to_string()),
        timeout: None,
        headers: None,
    }))
}

#[test]
fn relative_url_is_concatenated_verbatim_for_every_method() {
    let methods = vec![
        "GET", "POST", "PUT", "DELETE", "PATCH", "HEAD", "OPTIONS", "TRACE", "CONNECT",
    ];
    for m in methods {
        let client = client_with_base("http://base.example//v1");
        let prepared = client
            .prepare_request(RequestParams::new("//users/../x", m), 0)
            .unwrap();
        // Literal concatenation: no slash normalization, no segment cleanup.
        assert_eq!(prepared.url, "http://base.example//v1//users/../x");
        assert_eq!(prepared.method, m);
    }
}

#[test]
fn lowercase_methods_are_canonicalized() {
    let client = client_with_base("http://b");
    let prepared = client
        .prepare_request(RequestParams::new("/p", "get"), 0)
        .unwrap();
    assert_eq!(prepared.method, "GET");
}

#[test]
fn absolute_url_ignores_the_base() {
    let client = client_with_base("http://base.example");
    let prepared = client
        .prepare_request(RequestParams::new("https://other.example/x", "GET"), 0)
        .unwrap();
    assert_eq!(prepared.url, "https://other.example/x");
}

#[test]
fn unsupported_method_is_rejected_without_any_transport_work() {
    // The stub: a transport that fails the test if the pipeline hands it a
    // request. With an unsupported method, `prepare_request` errs, so the
    // stub is never reached.
    let transport_stub = |_req: &RequestParams| -> ! { panic!("transport must not be invoked") };
    let client = client_with_base("http://b");
    let r = client.prepare_request(RequestParams::new("/p", "BREW"), 0);
    match r {
        Err(ClientError::UnsupportedMethod { method }) => assert_eq!(method, "BREW"),
        Err(_) => panic!("wrong error kind"),
        Ok(prepared) => transport_stub(&prepared),
    }
}

#[test]
fn headers_merge_with_request_values_winning_case_insensitively() {
    let client = HttpClient::new(Some(ClientConfig {
        base_url: None,
        timeout: None,
        headers: Some(vec![
            ("Accept".to_string(), "text/plain".to_string()),
            ("X-Env".to_string(), "prod".to_string()),
        ]),
    }));
    let mut params = RequestParams::new("http://x/", "GET");
    params.headers = Some(vec![
        ("accept".to_string(), "application/json".to_string()),
        ("X-Extra".to_string(), "1".to_string()),
    ]);
    let prepared = client.prepare_request(params, 0).unwrap();
    let headers = prepared.headers.unwrap();
    assert_eq!(
        headers,
        vec![
            ("Accept".to_string(), "application/json".to_string()),
            ("X-Env".to_string(), "prod".to_string()),
            ("X-Extra".to_string(), "1".to_string()),
        ]
    );
}

#[test]
fn auth_failure_aborts_before_transport() {
    let client = client_with_base("http://b");
    let mut params = RequestParams::new("/p", "GET");
    params.auth = Some(Auth::OAuth2(OAuth2Auth {
        client_id: String::new(),
        client_secret: String::new(),
        token_url: String::new(),
        scopes: vec![],
        access_token: Some("tok".to_string()),
        refresh_token: None,
        expires_at: Some(10),
    }));
    let r = client.prepare_request(params, 99);
    assert!(matches!(r, Err(ClientError::AuthError { .. })));
}

#[test]
fn bearer_auth_is_applied_as_a_header() {
    let client = client_with_base("http://b");
    let mut params = RequestParams::new("/p", "GET");
    params.auth = Some(Auth::bearer("z"));
    let prepared = client.prepare_request(params, 0).unwrap();
    let headers = prepared.headers.unwrap();
    assert_eq!(
        headers,
        vec![("Authorization".to_string(), "Bearer z".to_string())]
    );
    assert!(prepared.auth.is_none());
}

#[test]
fn timeout_precedence_request_then_client_then_fallback() {
    let c_none = HttpClient::new(Some(ClientConfig {
        base_url: None,
        timeout: None,
        headers: None,
    }));
    let c_five = HttpClient::new(Some(ClientConfig {
        base_url: None,
        timeout: Some(5),
        headers: None,
    }));
    let mut with_override = RequestParams::new("http://x", "GET");
    with_override.timeout = Some(2);
    let plain = RequestParams::new("http://x", "GET");

    assert_eq!(c_five.effective_timeout(&with_override), 2);
    assert_eq!(c_five.effective_timeout(&plain), 5);
    assert_eq!(c_none.effective_timeout(&plain), 30);
}

#[test]
fn default_client_config() {
    let client = HttpClient::new(None);
    assert!(client.config.base_url.is_none());
    assert_eq!(client.config.timeout, Some(30));
}

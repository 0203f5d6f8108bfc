use fmus_core::auth::{ApiKeyLocation, Auth, AuthResolver, OAuth2Auth};
use fmus_core::errors::ClientError;
use fmus_core::json::{json_eq, to_json_text, JsonValue};

fn oauth2_with(access_token: Option<&str>, expires_at: Option<u64>) -> Auth {
    Auth::OAuth2(OAuth2Auth {
        client_id: "cid".to_string(),
        client_secret: "SECRET-REDACTED".to_string(),
        token_url: "https://auth.example/token".to_string(),
        scopes: vec!["read".to_string()],
        access_token: access_token.map(|t| t.to_string()),
        refresh_token: None,
        expires_at,
    })
}

#[test]
fn no_auth_resolves_to_no_effect() {
    let effect = AuthResolver::resolve(&Auth::NoAuth, 0).unwrap();
    assert_eq!(effect.insertions.len(), 0);
}

#[test]
fn basic_auth_encodes_credentials() {
    let auth = Auth::basic("user", "pass");
    let effect = AuthResolver::resolve(&auth, 0).unwrap();
    assert_eq!(effect.insertions.len(), 1);
    let ins = &effect.insertions[0];
    assert_eq!(ins.key, "Authorization");
    assert_eq!(ins.value, "Basic dXNlcjpwYXNz");
    assert!(matches!(ins.location, ApiKeyLocation::Header));
}

#[test]
fn bearer_auth_uses_token_verbatim() {
    let auth = Auth::bearer("tok-123");
    let effect = AuthResolver::resolve(&auth, 0).unwrap();
    assert_eq!(effect.insertions[0].key, "Authorization");
    assert_eq!(effect.insertions[0].value, "Bearer tok-123");
}

#[test]
fn api_key_goes_to_its_location() {
    let auth = Auth::api_key("X-Token", "abc", ApiKeyLocation::Query);
    let effect = AuthResolver::resolve(&auth, 0).unwrap();
    assert_eq!(effect.insertions[0].key, "X-Token");
    assert_eq!(effect.insertions[0].value, "abc");
    assert!(matches!(effect.insertions[0].location, ApiKeyLocation::Query));
}

#[test]
fn oauth2_with_past_expiry_fails() {
    let auth = oauth2_with(Some("tok"), Some(100));
    let r = AuthResolver::resolve(&auth, 200);
    assert!(matches!(r, Err(ClientError::AuthError { .. })));
}

#[test]
fn oauth2_without_expiry_uses_access_token_verbatim() {
    let auth = oauth2_with(Some("live-token"), None);
    let effect = AuthResolver::resolve(&auth, u64::MAX).unwrap();
    assert_eq!(effect.insertions.len(), 1);
    assert_eq!(effect.insertions[0].key, "Authorization");
    assert_eq!(effect.insertions[0].value, "Bearer live-token");
}

#[test]
fn oauth2_with_future_expiry_succeeds() {
    let auth = oauth2_with(Some("t"), Some(1_000));
    let effect = AuthResolver::resolve(&auth, 999).unwrap();
    assert_eq!(effect.insertions[0].value, "Bearer t");
}

#[test]
fn oauth2_without_token_fails() {
    let auth = oauth2_with(None, None);
    assert!(matches!(
        AuthResolver::resolve(&auth, 0),
        Err(ClientError::AuthError { .. })
    ));
}

#[test]
fn custom_auth_without_resolver_fails() {
    let auth = Auth::custom("hmac", JsonValue::Null);
    assert!(matches!(
        AuthResolver::resolve(&auth, 0),
        Err(ClientError::AuthError { .. })
    ));
}

#[test]
fn to_http_auth_shapes() {
    assert!(Auth::NoAuth.to_http_auth().is_none());

    let basic = Auth::basic("u", "p").to_http_auth().unwrap();
    assert_eq!(basic.auth_type, "basic");
    let expected = JsonValue::Obj(vec![
        ("username".to_string(), JsonValue::Str("u".to_string())),
        ("password".to_string(), JsonValue::Str("p".to_string())),
    ]);
    assert!(json_eq(&basic.credentials, &expected));

    let bearer = Auth::bearer("t").to_http_auth().unwrap();
    assert_eq!(bearer.auth_type, "bearer");
    assert!(json_eq(&bearer.credentials, &JsonValue::Str("t".to_string())));

    let oauth = oauth2_with(Some("a"), Some(5)).to_http_auth().unwrap();
    assert_eq!(oauth.auth_type, "oauth2");
    let text = to_json_text(&oauth.credentials);
    assert!(text.contains("\"expires_at\":5"));
    assert!(text.contains("\"access_token\":\"a\""));
}

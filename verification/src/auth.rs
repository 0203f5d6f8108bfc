//! Credentials and their resolution into wire effects: a declarative
//! description of an authentication scheme is turned into concrete header,
//! query or cookie insertions before a request goes out.

use vstd::prelude::*;
use vstd::utf8::encode_utf8;

use crate::errors::ClientError;
use crate::json::{JsonValue, JsonVal};

verus! {

/// The authentication schemes a request can name.
#[derive(Debug, Clone)]
pub enum AuthType {
    NoAuth,
    Basic,
    Bearer,
    ApiKey,
    OAuth2,
    AWS,
    NTLM,
    Digest,
    Custom(String),
}

/// Where an API-key credential is placed on the wire.
#[derive(Debug, Clone, Copy, PartialEq, Eq, Structural)]
pub enum ApiKeyLocation {
    Header,
    Query,
    Cookie,
}

/// An API-key credential.
#[derive(Debug, Clone)]
pub struct ApiKeyAuth {
    pub key: String,
    pub value: String,
    pub location: ApiKeyLocation,
}

/// A username/password credential.
#[derive(Debug, Clone)]
pub struct BasicAuth {
    pub username: String,
    pub password: String,
}

/// A bearer-token credential.
#[derive(Debug, Clone)]
pub struct BearerAuth {
    pub token: String,
}

/// An OAuth2 credential; the token fields may be refreshed by a collaborator
/// and written back.
#[derive(Debug, Clone)]
pub struct OAuth2Auth {
    pub client_id: String,
    pub client_secret: String,
    pub token_url: String,
    pub scopes: Vec<String>,
    pub access_token: Option<String>,
    pub refresh_token: Option<String>,
    pub expires_at: Option<u64>,
}

/// A custom credential, interpreted by a caller-supplied resolver.
#[derive(Debug, Clone)]
pub struct CustomAuth {
    pub auth_type: String,
    pub data: JsonValue,
}

/// A declarative credential.
#[derive(Debug, Clone)]
pub enum Auth {
    NoAuth,
    Basic(BasicAuth),
    Bearer(BearerAuth),
    ApiKey(ApiKeyAuth),
    OAuth2(OAuth2Auth),
    Custom(CustomAuth),
}

/// The model of one wire insertion.
pub struct InsertionV {
    pub location: ApiKeyLocation,
    pub key: Seq<char>,
    pub value: Seq<char>,
}

/// One concrete header, query-parameter or cookie insertion.
#[derive(Debug, Clone)]
pub struct WireInsertion {
    pub location: ApiKeyLocation,
    pub key: String,
    pub value: String,
}

impl View for WireInsertion {
    type V = InsertionV;

    open spec fn view(&self) -> InsertionV {
        InsertionV { location: self.location, key: self.key@, value: self.value@ }
    }
}

/// The concrete effect of a resolved credential: a set of insertions,
/// empty for "no effect".
#[derive(Debug, Clone)]
pub struct WireEffect {
    pub insertions: Vec<WireInsertion>,
}

impl View for WireEffect {
    type V = Seq<InsertionV>;

    open spec fn view(&self) -> Seq<InsertionV> {
        Seq::new(self.insertions@.len(), |i: int| self.insertions@[i]@)
    }
}

/// The result of `base64::encode` on the given bytes.
pub uninterp spec fn base64_of(bytes: Seq<u8>) -> Seq<char>;

/// Relies on `base64::encode`: standard alphabet with `=` padding, so four
/// output characters for every started group of three input bytes, and a
/// result that depends on the input bytes alone.
#[verifier::external_body]
pub(crate) fn base64_encode(bytes: &Vec<u8>) -> (r: String)
    ensures
        r@ == base64_of(bytes@),
        r@.len() == 4 * ((bytes@.len() + 2) / 3),
{
    base64::encode(bytes)
}

/// The bytes whose base64 encoding forms a Basic authorization value.
pub open spec fn basic_credential_bytes(username: Seq<char>, password: Seq<char>) -> Seq<u8> {
    encode_utf8(username + seq![':'] + password)
}

/// An OAuth2 credential counts as expired when it carries an expiry not
/// after `now`; one without an expiry never expires.
pub open spec fn oauth2_expired(o: OAuth2Auth, now: u64) -> bool {
    o.expires_at is Some && o.expires_at->0 <= now
}

/// What resolving a credential yields: the insertions to apply, or `None`
/// when resolution must fail (missing or expired token, or a custom scheme
/// with no registered resolver).
pub open spec fn spec_resolve(auth: Auth, now: u64) -> Option<Seq<InsertionV>> {
    match auth {
        Auth::NoAuth => Some(Seq::empty()),
        Auth::Basic(b) => Some(
            seq![
                InsertionV {
                    location: ApiKeyLocation::Header,
                    key: "Authorization"@,
                    value: "Basic "@ + base64_of(
                        basic_credential_bytes(b.username@, b.password@),
                    ),
                },
            ],
        ),
        Auth::Bearer(b) => Some(
            seq![
                InsertionV {
                    location: ApiKeyLocation::Header,
                    key: "Authorization"@,
                    value: "Bearer "@ + b.token@,
                },
            ],
        ),
        Auth::ApiKey(k) => Some(
            seq![InsertionV { location: k.location, key: k.key@, value: k.value@ }],
        ),
        Auth::OAuth2(o) => if o.access_token is Some && !oauth2_expired(o, now) {
            Some(
                seq![
                    InsertionV {
                        location: ApiKeyLocation::Header,
                        key: "Authorization"@,
                        value: "Bearer "@ + o.access_token->0@,
                    },
                ],
            )
        } else {
            None
        },
        Auth::Custom(_) => None,
    }
}

/// Turns credentials into wire effects; purely a data transform, deterministic
/// given the credential and the current time.
pub struct AuthResolver {}

impl AuthResolver {
    /// Resolves a credential into its wire effect, or fails with an
    /// authentication error exactly when `spec_resolve` yields nothing.
    pub fn resolve(auth: &Auth, now: u64) -> (r: Result<WireEffect, ClientError>)
        ensures
            match spec_resolve(*auth, now) {
                Some(ins) => r is Ok && r->Ok_0@ == ins,
                None => r is Err && r->Err_0 is AuthError,
            },
    {
        match auth {
            Auth::NoAuth => {
                let e = WireEffect { insertions: Vec::new() };
                assert(e@ =~= Seq::<InsertionV>::empty());
                Ok(e)
            },
            Auth::Basic(b) => {
                let mut joined = String::new();
                joined.append(b.username.as_str());
                joined.append(":");
                joined.append(b.password.as_str());
                proof {
                    reveal_strlit(":");
                    assert(":"@ =~= seq![':']);
                    assert(joined@ == b.username@ + seq![':'] + b.password@);
                }
                let bytes = joined.as_str().as_bytes_vec();
                let encoded = base64_encode(&bytes);
                let mut value = String::new();
                value.append("Basic ");
                value.append(encoded.as_str());
                let mut ins: Vec<WireInsertion> = Vec::new();
                ins.push(
                    WireInsertion {
                        location: ApiKeyLocation::Header,
                        key: String::from_str("Authorization"),
                        value,
                    },
                );
                let e = WireEffect { insertions: ins };
                assert(e@ =~= spec_resolve(*auth, now)->0);
                Ok(e)
            },
            Auth::Bearer(b) => {
                let mut value = String::new();
                value.append("Bearer ");
                value.append(b.token.as_str());
                let mut ins: Vec<WireInsertion> = Vec::new();
                ins.push(
                    WireInsertion {
                        location: ApiKeyLocation::Header,
                        key: String::from_str("Authorization"),
                        value,
                    },
                );
                let e = WireEffect { insertions: ins };
                assert(e@ =~= spec_resolve(*auth, now)->0);
                Ok(e)
            },
            Auth::ApiKey(k) => {
                let mut ins: Vec<WireInsertion> = Vec::new();
                ins.push(
                    WireInsertion {
                        location: k.location,
                        key: k.key.clone(),
                        value: k.value.clone(),
                    },
                );
                let e = WireEffect { insertions: ins };
                assert(e@ =~= spec_resolve(*auth, now)->0);
                Ok(e)
            },
            Auth::OAuth2(o) => {
                let expired = match &o.expires_at {
                    Some(t) => *t <= now,
                    None => false,
                };
                match &o.access_token {
                    Some(tok) if !expired => {
                        let mut value = String::new();
                        value.append("Bearer ");
                        value.append(tok.as_str());
                        let mut ins: Vec<WireInsertion> = Vec::new();
                        ins.push(
                            WireInsertion {
                                location: ApiKeyLocation::Header,
                                key: String::from_str("Authorization"),
                                value,
                            },
                        );
                        let e = WireEffect { insertions: ins };
                        assert(e@ =~= spec_resolve(*auth, now)->0);
                        Ok(e)
                    },
                    Some(_) => Err(
                        ClientError::AuthError {
                            detail: String::from_str("access token is expired"),
                        },
                    ),
                    None => Err(
                        ClientError::AuthError {
                            detail: String::from_str("no access token is present"),
                        },
                    ),
                }
            },
            Auth::Custom(_) => Err(
                ClientError::AuthError {
                    detail: String::from_str("no resolver is registered for this custom scheme"),
                },
            ),
        }
    }
}

/// An OAuth2 credential whose expiry is not after `now` fails resolution.
pub proof fn lemma_oauth2_expired_fails(o: OAuth2Auth, now: u64)
    requires
        o.expires_at is Some,
        o.expires_at->0 <= now,
    ensures
        spec_resolve(Auth::OAuth2(o), now) is None,
{
}

/// An OAuth2 credential without an expiry resolves to a bearer header that
/// uses the stored access token verbatim.
pub proof fn lemma_oauth2_without_expiry_uses_token(o: OAuth2Auth, now: u64)
    requires
        o.expires_at is None,
        o.access_token is Some,
    ensures
        spec_resolve(Auth::OAuth2(o), now) == Some(
            seq![
                InsertionV {
                    location: ApiKeyLocation::Header,
                    key: "Authorization"@,
                    value: "Bearer "@ + o.access_token->0@,
                },
            ],
        ),
{
}

/// The structured scopes list of an OAuth2 credential.
pub open spec fn scopes_model(s: Seq<String>) -> Seq<JsonVal> {
    Seq::new(s.len(), |i: int| JsonVal::Str(s[i]@))
}

/// The generic wire form of a credential, if it has one.
pub open spec fn spec_to_http_auth(auth: Auth) -> Option<(Seq<char>, JsonVal)> {
    match auth {
        Auth::NoAuth => None,
        Auth::Basic(b) => Some(
            (
                "basic"@,
                JsonVal::Obj(
                    seq![
                        ("username"@, JsonVal::Str(b.username@)),
                        ("password"@, JsonVal::Str(b.password@)),
                    ],
                ),
            ),
        ),
        Auth::Bearer(b) => Some(("bearer"@, JsonVal::Str(b.token@))),
        Auth::ApiKey(k) => Some(
            (
                "api_key"@,
                JsonVal::Obj(
                    seq![
                        ("key"@, JsonVal::Str(k.key@)),
                        ("value"@, JsonVal::Str(k.value@)),
                        (
                            "location"@,
                            JsonVal::Str(
                                match k.location {
                                    ApiKeyLocation::Header => "header"@,
                                    ApiKeyLocation::Query => "query"@,
                                    ApiKeyLocation::Cookie => "cookie"@,
                                },
                            ),
                        ),
                    ],
                ),
            ),
        ),
        Auth::OAuth2(o) => Some(
            (
                "oauth2"@,
                JsonVal::Obj(
                    seq![
                        ("client_id"@, JsonVal::Str(o.client_id@)),
                        ("client_secret"@, JsonVal::Str(o.client_secret@)),
                        ("token_url"@, JsonVal::Str(o.token_url@)),
                        ("scopes"@, JsonVal::Arr(scopes_model(o.scopes@))),
                        (
                            "access_token"@,
                            match o.access_token {
                                Some(t) => JsonVal::Str(t@),
                                None => JsonVal::Null,
                            },
                        ),
                        (
                            "refresh_token"@,
                            match o.refresh_token {
                                Some(t) => JsonVal::Str(t@),
                                None => JsonVal::Null,
                            },
                        ),
                        (
                            "expires_at"@,
                            match o.expires_at {
                                Some(t) => JsonVal::Num(crate::text::dec_str(t as nat)),
                                None => JsonVal::Null,
                            },
                        ),
                    ],
                ),
            ),
        ),
        Auth::Custom(c) => Some((c.auth_type@, crate::json::jv(c.data))),
    }
}

impl Auth {
    /// The generic wire form of this credential: a scheme name with a
    /// structured payload, or nothing for the empty credential.
    pub fn to_http_auth(&self) -> (r: Option<crate::client::AuthConfig>)
        ensures
            match spec_to_http_auth(*self) {
                Some(m) => r is Some && (r->0).auth_type@ == m.0 && (r->0).credentials@ == m.1,
                None => r is None,
            },
    {
        match self {
            Auth::NoAuth => None,
            Auth::Basic(b) => {
                let mut ms: Vec<(String, JsonValue)> = Vec::new();
                ms.push((String::from_str("username"), JsonValue::Str(b.username.clone())));
                ms.push((String::from_str("password"), JsonValue::Str(b.password.clone())));
                let credentials = JsonValue::Obj(ms);
                proof {
                    let m = spec_to_http_auth(*self)->0;
                    crate::json::lemma_jv_pairs(credentials->Obj_0@);
                    assert(credentials@->Obj_0 =~= m.1->Obj_0);
                }
                Some(
                    crate::client::AuthConfig {
                        auth_type: String::from_str("basic"),
                        credentials,
                    },
                )
            },
            Auth::Bearer(b) => Some(
                crate::client::AuthConfig {
                    auth_type: String::from_str("bearer"),
                    credentials: JsonValue::Str(b.token.clone()),
                },
            ),
            Auth::ApiKey(k) => {
                let mut ms: Vec<(String, JsonValue)> = Vec::new();
                ms.push((String::from_str("key"), JsonValue::Str(k.key.clone())));
                ms.push((String::from_str("value"), JsonValue::Str(k.value.clone())));
                let loc = match k.location {
                    ApiKeyLocation::Header => "header",
                    ApiKeyLocation::Query => "query",
                    ApiKeyLocation::Cookie => "cookie",
                };
                ms.push((String::from_str("location"), JsonValue::str_of(loc)));
                let credentials = JsonValue::Obj(ms);
                proof {
                    let m = spec_to_http_auth(*self)->0;
                    crate::json::lemma_jv_pairs(credentials->Obj_0@);
                    assert(credentials@->Obj_0 =~= m.1->Obj_0);
                }
                Some(
                    crate::client::AuthConfig {
                        auth_type: String::from_str("api_key"),
                        credentials,
                    },
                )
            },
            Auth::OAuth2(o) => {
                let mut scopes: Vec<JsonValue> = Vec::new();
                let mut i: usize = 0;
                while i < o.scopes.len()
                    invariant
                        i <= o.scopes@.len(),
                        scopes@.len() == i,
                        forall|j: int| 0 <= j < i ==> crate::json::jv(scopes@[j])
                            == JsonVal::Str(o.scopes@[j]@),
                    decreases o.scopes@.len() - i,
                {
                    scopes.push(JsonValue::Str(o.scopes[i].clone()));
                    i = i + 1;
                }
                proof {
                    crate::json::lemma_jv_seq(scopes@);
                    assert(crate::json::jv_seq(scopes@) =~= scopes_model(o.scopes@));
                }
                let mut ms: Vec<(String, JsonValue)> = Vec::new();
                ms.push((String::from_str("client_id"), JsonValue::Str(o.client_id.clone())));
                ms.push(
                    (String::from_str("client_secret"), JsonValue::Str(o.client_secret.clone())),
                );
                ms.push((String::from_str("token_url"), JsonValue::Str(o.token_url.clone())));
                ms.push((String::from_str("scopes"), JsonValue::Arr(scopes)));
                ms.push(
                    (
                        String::from_str("access_token"),
                        match &o.access_token {
                            Some(t) => JsonValue::Str(t.clone()),
                            None => JsonValue::Null,
                        },
                    ),
                );
                ms.push(
                    (
                        String::from_str("refresh_token"),
                        match &o.refresh_token {
                            Some(t) => JsonValue::Str(t.clone()),
                            None => JsonValue::Null,
                        },
                    ),
                );
                ms.push(
                    (
                        String::from_str("expires_at"),
                        match o.expires_at {
                            Some(t) => JsonValue::num_u64(t),
                            None => JsonValue::Null,
                        },
                    ),
                );
                let credentials = JsonValue::Obj(ms);
                proof {
                    let m = spec_to_http_auth(*self)->0;
                    crate::json::lemma_jv_pairs(credentials->Obj_0@);
                    assert(credentials@->Obj_0 =~= m.1->Obj_0);
                }
                Some(
                    crate::client::AuthConfig {
                        auth_type: String::from_str("oauth2"),
                        credentials,
                    },
                )
            },
            Auth::Custom(c) => Some(
                crate::client::AuthConfig {
                    auth_type: c.auth_type.clone(),
                    credentials: c.data.clone(),
                },
            ),
        }
    }

    /// A Basic credential from its parts.
    pub fn basic(username: &str, password: &str) -> (r: Self)
        ensures
            r is Basic,
            r->Basic_0.username@ == username@,
            r->Basic_0.password@ == password@,
    {
        Auth::Basic(
            BasicAuth { username: String::from_str(username), password: String::from_str(password) },
        )
    }

    /// A Bearer credential from its token.
    pub fn bearer(token: &str) -> (r: Self)
        ensures
            r is Bearer,
            r->Bearer_0.token@ == token@,
    {
        Auth::Bearer(BearerAuth { token: String::from_str(token) })
    }

    /// An API-key credential from its parts.
    pub fn api_key(key: &str, value: &str, location: ApiKeyLocation) -> (r: Self)
        ensures
            r is ApiKey,
            r->ApiKey_0.key@ == key@,
            r->ApiKey_0.value@ == value@,
            r->ApiKey_0.location == location,
    {
        Auth::ApiKey(
            ApiKeyAuth {
                key: String::from_str(key),
                value: String::from_str(value),
                location,
            },
        )
    }

    /// An OAuth2 credential before any token exchange: the token fields
    /// start empty.
    pub fn oauth2(client_id: &str, client_secret: &str, token_url: &str, scopes: Vec<String>) -> (r:
        Self)
        ensures
            r is OAuth2,
            r->OAuth2_0.client_id@ == client_id@,
            r->OAuth2_0.client_secret@ == client_secret@,
            r->OAuth2_0.token_url@ == token_url@,
            r->OAuth2_0.scopes == scopes,
            r->OAuth2_0.access_token is None,
            r->OAuth2_0.refresh_token is None,
            r->OAuth2_0.expires_at is None,
    {
        Auth::OAuth2(
            OAuth2Auth {
                client_id: String::from_str(client_id),
                client_secret: String::from_str(client_secret),
                token_url: String::from_str(token_url),
                scopes,
                access_token: None,
                refresh_token: None,
                expires_at: None,
            },
        )
    }

    /// A custom credential from its scheme name and payload.
    pub fn custom(auth_type: &str, data: JsonValue) -> (r: Self)
        ensures
            r is Custom,
            r->Custom_0.auth_type@ == auth_type@,
            r->Custom_0.data == data,
    {
        Auth::Custom(CustomAuth { auth_type: String::from_str(auth_type), data })
    }
}

} // verus!

//! Compute parts of the surrounding tool's command layer: the generic
//! authentication header, the method set it accepts, and GraphQL request
//! shaping. The commands' network work lives outside the library.

use vstd::prelude::*;
use vstd::utf8::encode_utf8;

use crate::auth::base64_of;
use crate::json::{jv, lemma_jv_pairs, JsonValue, JsonVal};
use crate::text::{str_eq, to_upper, upper};

verus! {

/// A generic authentication description, as the command layer receives it.
#[derive(Debug, Clone)]
pub struct Auth {
    pub auth_type: String,
    pub username: Option<String>,
    pub password: Option<String>,
    pub token: Option<String>,
    pub api_key: Option<String>,
    pub prefix: Option<String>,
}

/// The header an authentication description resolves to, if it is complete:
/// Basic and Bearer authorization headers, or an API key under its chosen
/// header name.
pub open spec fn spec_auth_header(a: Auth) -> Option<(Seq<char>, Seq<char>)> {
    if a.auth_type@ == "basic"@ {
        if a.username is Some && a.password is Some {
            Some(
                (
                    "Authorization"@,
                    "Basic "@ + base64_of(
                        encode_utf8(a.username->0@ + seq![':'] + a.password->0@),
                    ),
                ),
            )
        } else {
            None
        }
    } else if a.auth_type@ == "bearer"@ {
        if a.token is Some {
            Some(("Authorization"@, "Bearer "@ + a.token->0@))
        } else {
            None
        }
    } else if a.auth_type@ == "apikey"@ {
        if a.api_key is Some {
            Some(
                (
                    match a.prefix {
                        Some(p) => p@,
                        None => "X-API-Key"@,
                    },
                    a.api_key->0@,
                ),
            )
        } else {
            None
        }
    } else {
        None
    }
}

/// The authorization header for a generic authentication description;
/// fails exactly when the description is incomplete or names an unsupported
/// scheme.
pub fn auth_header(a: &Auth) -> (r: Result<(String, String), String>)
    ensures
        match spec_auth_header(*a) {
            Some(h) => r is Ok && (r->Ok_0).0@ == h.0 && (r->Ok_0).1@ == h.1,
            None => r is Err,
        },
{
    if str_eq(a.auth_type.as_str(), "basic") {
        let username = match &a.username {
            Some(u) => u,
            None => {
                return Err(String::from_str("Username is required for basic auth"));
            },
        };
        let password = match &a.password {
            Some(p) => p,
            None => {
                return Err(String::from_str("Password is required for basic auth"));
            },
        };
        let mut joined = String::new();
        joined.append(username.as_str());
        joined.append(":");
        joined.append(password.as_str());
        proof {
            reveal_strlit(":");
            assert(":"@ =~= seq![':']);
            assert(joined@ == a.username->0@ + seq![':'] + a.password->0@);
        }
        let bytes = joined.as_str().as_bytes_vec();
        let encoded = crate::auth::base64_encode(&bytes);
        let mut value = String::new();
        value.append("Basic ");
        value.append(encoded.as_str());
        Ok((String::from_str("Authorization"), value))
    } else if str_eq(a.auth_type.as_str(), "bearer") {
        let token = match &a.token {
            Some(t) => t,
            None => {
                return Err(String::from_str("Token is required for bearer auth"));
            },
        };
        let mut value = String::new();
        value.append("Bearer ");
        value.append(token.as_str());
        Ok((String::from_str("Authorization"), value))
    } else if str_eq(a.auth_type.as_str(), "apikey") {
        let key = match &a.api_key {
            Some(k) => k,
            None => {
                return Err(String::from_str("API key is required"));
            },
        };
        let name = match &a.prefix {
            Some(p) => p.clone(),
            None => String::from_str("X-API-Key"),
        };
        Ok((name, key.clone()))
    } else {
        Err(String::from_str("Unsupported auth type"))
    }
}

/// The method set the command layer accepts, compared after upper-casing.
pub open spec fn spec_command_method(m: Seq<char>) -> bool {
    let u = upper(m);
    ||| u == "GET"@
    ||| u == "POST"@
    ||| u == "PUT"@
    ||| u == "DELETE"@
    ||| u == "PATCH"@
    ||| u == "HEAD"@
    ||| u == "OPTIONS"@
}

/// Whether the command layer accepts this method string.
pub fn command_method_supported(m: &str) -> (r: bool)
    ensures
        r == spec_command_method(m@),
{
    let u = to_upper(m);
    str_eq(u.as_str(), "GET") || str_eq(u.as_str(), "POST") || str_eq(u.as_str(), "PUT")
        || str_eq(u.as_str(), "DELETE") || str_eq(u.as_str(), "PATCH") || str_eq(
        u.as_str(),
        "HEAD",
    ) || str_eq(u.as_str(), "OPTIONS")
}

/// The body of a GraphQL exchange: the query, then the variables when
/// present, then the operation name when present.
pub open spec fn spec_graphql_body(
    query: Seq<char>,
    variables: Option<JsonVal>,
    operation_name: Option<Seq<char>>,
) -> JsonVal {
    let base = seq![("query"@, JsonVal::Str(query))];
    let with_vars = match variables {
        Some(v) => base.push(("variables"@, v)),
        None => base,
    };
    let with_op = match operation_name {
        Some(o) => with_vars.push(("operationName"@, JsonVal::Str(o))),
        None => with_vars,
    };
    JsonVal::Obj(with_op)
}

/// Builds the body of a GraphQL exchange.
pub fn build_graphql_body(
    query: &str,
    variables: Option<JsonValue>,
    operation_name: Option<String>,
) -> (r: JsonValue)
    ensures
        r@ == spec_graphql_body(
            query@,
            match variables {
                Some(v) => Some(v@),
                None => None,
            },
            match operation_name {
                Some(o) => Some(o@),
                None => None,
            },
        ),
{
    let ghost vv = match &variables {
        Some(v) => Some(jv(*v)),
        None => None::<JsonVal>,
    };
    let mut ms: Vec<(String, JsonValue)> = Vec::new();
    ms.push((String::from_str("query"), JsonValue::str_of(query)));
    match variables {
        Some(v) => {
            ms.push((String::from_str("variables"), v));
        },
        None => {},
    }
    match &operation_name {
        Some(o) => {
            ms.push((String::from_str("operationName"), JsonValue::Str(o.clone())));
        },
        None => {},
    }
    let r = JsonValue::Obj(ms);
    proof {
        lemma_jv_pairs(r->Obj_0@);
        assert(r@->Obj_0 =~= spec_graphql_body(
            query@,
            vv,
            match operation_name {
                Some(o) => Some(o@),
                None => None,
            },
        )->Obj_0);
    }
    r
}

} // verus!

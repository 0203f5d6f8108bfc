//! The request pipeline: configuration, request descriptions, header
//! merging, URL resolution, credential application and timeout selection.
//! The one network exchange itself is performed by the surrounding program;
//! everything before and after it is specified and verified here.

use vstd::prelude::*;

use crate::auth::{Auth, AuthResolver, InsertionV, ApiKeyLocation, spec_resolve};
use crate::errors::ClientError;
use crate::json::{jv, JsonValue, JsonVal};
use crate::text::{
    lower, upper, starts_with_seq, to_upper, starts_with, str_eq, str_eq_ci,
};

verus! {

/// The timeout applied when neither the request nor the client names one.
pub const DEFAULT_TIMEOUT_SECS: u64 = 30;

/// Client-level configuration shared by every request of a client.
#[derive(Debug, Clone)]
pub struct ClientConfig {
    pub base_url: Option<String>,
    pub timeout: Option<u64>,
    pub headers: Option<Vec<(String, String)>>,
}

/// A credential in its generic wire form: a scheme name and a structured
/// payload.
#[derive(Debug, Clone)]
pub struct AuthConfig {
    pub auth_type: String,
    pub credentials: JsonValue,
}

/// One request description, as a caller hands it to the pipeline.
#[derive(Debug, Clone)]
pub struct RequestParams {
    pub url: String,
    pub method: String,
    pub headers: Option<Vec<(String, String)>>,
    pub params: Option<Vec<(String, String)>>,
    pub body: Option<JsonValue>,
    pub timeout: Option<u64>,
    pub auth: Option<Auth>,
}

/// The model of a request description.
pub struct RequestParamsV {
    pub url: Seq<char>,
    pub method: Seq<char>,
    pub headers: Option<Seq<(Seq<char>, Seq<char>)>>,
    pub params: Option<Seq<(Seq<char>, Seq<char>)>>,
    pub body: Option<JsonVal>,
    pub timeout: Option<u64>,
    pub auth: Option<Auth>,
}

impl View for RequestParams {
    type V = RequestParamsV;

    open spec fn view(&self) -> RequestParamsV {
        RequestParamsV {
            url: self.url@,
            method: self.method@,
            headers: self.headers.deep_view(),
            params: self.params.deep_view(),
            body: match self.body {
                Some(b) => Some(jv(b)),
                None => None,
            },
            timeout: self.timeout,
            auth: self.auth,
        }
    }
}

/// One response, as handed back to the caller.
#[derive(Debug, Clone)]
pub struct HttpResponse {
    pub status: u16,
    pub headers: Vec<(String, String)>,
    pub body: Vec<u8>,
    pub time: u64,
}

/// The model of a response.
pub struct HttpResponseV {
    pub status: u16,
    pub headers: Seq<(Seq<char>, Seq<char>)>,
    pub body: Seq<u8>,
    pub time: u64,
}

impl View for HttpResponse {
    type V = HttpResponseV;

    open spec fn view(&self) -> HttpResponseV {
        HttpResponseV {
            status: self.status,
            headers: self.headers.deep_view(),
            body: self.body@,
            time: self.time,
        }
    }
}

impl RequestParams {
    /// A bare request description: a URL and a method, nothing else.
    pub fn new(url: &str, method: &str) -> (r: Self)
        ensures
            r.url@ == url@,
            r.method@ == method@,
            r.headers is None,
            r.params is None,
            r.body is None,
            r.timeout is None,
            r.auth is None,
    {
        RequestParams {
            url: String::from_str(url),
            method: String::from_str(method),
            headers: None,
            params: None,
            body: None,
            timeout: None,
            auth: None,
        }
    }
}

/// The view of an optional string.
pub open spec fn opt_str_view(o: Option<String>) -> Option<Seq<char>> {
    match o {
        Some(s) => Some(s@),
        None => None,
    }
}

/// The pairs of an optional list, with the empty list for `None`.
pub open spec fn opt_pairs_view(o: Option<Vec<(String, String)>>) -> Seq<(Seq<char>, Seq<char>)> {
    match o {
        Some(v) => v.deep_view(),
        None => Seq::empty(),
    }
}

/// Replaces the value under the first key that matches `k` case-insensitively,
/// keeping that key's spelling; appends the pair when no key matches.
pub open spec fn spec_upsert_ci(
    hs: Seq<(Seq<char>, Seq<char>)>,
    k: Seq<char>,
    v: Seq<char>,
) -> Seq<(Seq<char>, Seq<char>)>
    decreases hs.len(),
{
    if hs.len() == 0 {
        seq![(k, v)]
    } else if lower(hs[0].0) == lower(k) {
        seq![(hs[0].0, v)] + hs.drop_first()
    } else {
        seq![hs[0]] + spec_upsert_ci(hs.drop_first(), k, v)
    }
}

/// Applies the pairs of `extra` to `base` in order, later values winning on
/// case-insensitive key collisions.
pub open spec fn spec_merge_headers(
    base: Seq<(Seq<char>, Seq<char>)>,
    extra: Seq<(Seq<char>, Seq<char>)>,
) -> Seq<(Seq<char>, Seq<char>)>
    decreases extra.len(),
{
    if extra.len() == 0 {
        base
    } else {
        spec_merge_headers(spec_upsert_ci(base, extra[0].0, extra[0].1), extra.drop_first())
    }
}

/// The value under the first key that matches `k` case-insensitively.
pub open spec fn spec_lookup_ci(hs: Seq<(Seq<char>, Seq<char>)>, k: Seq<char>) -> Option<
    Seq<char>,
>
    decreases hs.len(),
{
    if hs.len() == 0 {
        None
    } else if lower(hs[0].0) == lower(k) {
        Some(hs[0].1)
    } else {
        spec_lookup_ci(hs.drop_first(), k)
    }
}

/// Applying a credential's insertions: headers are upserted, query parameters
/// appended, and a cookie becomes a `Cookie: key=value` header.
pub open spec fn spec_apply_effect(
    headers: Seq<(Seq<char>, Seq<char>)>,
    query: Seq<(Seq<char>, Seq<char>)>,
    ins: Seq<InsertionV>,
) -> (Seq<(Seq<char>, Seq<char>)>, Seq<(Seq<char>, Seq<char>)>)
    decreases ins.len(),
{
    if ins.len() == 0 {
        (headers, query)
    } else {
        let x = ins[0];
        let next = match x.location {
            ApiKeyLocation::Header => (spec_upsert_ci(headers, x.key, x.value), query),
            ApiKeyLocation::Query => (headers, query.push((x.key, x.value))),
            ApiKeyLocation::Cookie => (
                spec_upsert_ci(headers, "Cookie"@, x.key + "="@ + x.value),
                query,
            ),
        };
        spec_apply_effect(next.0, next.1, ins.drop_first())
    }
}

/// Whether a URL already carries a scheme the pipeline recognizes.
pub open spec fn has_scheme(url: Seq<char>) -> bool {
    starts_with_seq(url, "http://"@) || starts_with_seq(url, "https://"@)
}

/// The effective URL of a request: an absolute URL is used as-is, a relative
/// one is concatenated onto the configured base, literally.
pub open spec fn spec_resolved_url(base: Option<Seq<char>>, url: Seq<char>) -> Seq<char> {
    match base {
        Some(b) => if has_scheme(url) {
            url
        } else {
            b + url
        },
        None => url,
    }
}

/// A relative URL is resolved by literal concatenation: no normalization of
/// slashes or segments takes place.
pub proof fn lemma_relative_url_is_literal_concat(base: Seq<char>, url: Seq<char>)
    requires
        !has_scheme(url),
    ensures
        spec_resolved_url(Some(base), url) == base + url,
{
}

/// The fixed set of supported methods, compared after ASCII upper-casing.
pub open spec fn spec_supported_method(m: Seq<char>) -> bool {
    let u = upper(m);
    ||| u == "GET"@
    ||| u == "POST"@
    ||| u == "PUT"@
    ||| u == "DELETE"@
    ||| u == "PATCH"@
    ||| u == "HEAD"@
    ||| u == "OPTIONS"@
    ||| u == "TRACE"@
    ||| u == "CONNECT"@
}

/// The effective timeout: per-request, else client default, else the fixed
/// fallback.
pub open spec fn spec_effective_timeout(request: Option<u64>, client: Option<u64>) -> u64 {
    match request {
        Some(t) => t,
        None => match client {
            Some(t) => t,
            None => DEFAULT_TIMEOUT_SECS,
        },
    }
}

/// A copy of a pair list with the same model.
pub fn copy_pairs(v: &Vec<(String, String)>) -> (r: Vec<(String, String)>)
    ensures
        r.deep_view() == v.deep_view(),
{
    let mut out: Vec<(String, String)> = Vec::new();
    let mut i: usize = 0;
    while i < v.len()
        invariant
            i <= v@.len(),
            out@.len() == i,
            forall|k: int| 0 <= k < i ==> out@[k].0@ == v@[k].0@ && out@[k].1@ == v@[k].1@,
        decreases v@.len() - i,
    {
        let key = v[i].0.clone();
        let val = v[i].1.clone();
        out.push((key, val));
        i = i + 1;
    }
    assert(out.deep_view() =~= v.deep_view());
    out
}

/// The first position whose key matches `k` case-insensitively.
fn find_ci(hs: &Vec<(String, String)>, k: &str) -> (r: Option<usize>)
    ensures
        match r {
            Some(i) => i < hs@.len() && lower(hs@[i as int].0@) == lower(k@) && forall|j: int|
                0 <= j < i ==> lower(hs@[j].0@) != lower(k@),
            None => forall|j: int| 0 <= j < hs@.len() ==> lower(hs@[j].0@) != lower(k@),
        },
{
    let n = hs.len();
    let mut i: usize = 0;
    while i < n
        invariant
            n == hs@.len(),
            i <= n,
            forall|j: int| 0 <= j < i ==> lower(hs@[j].0@) != lower(k@),
        decreases n - i,
    {
        if str_eq_ci(hs[i].0.as_str(), k) {
            return Some(i);
        }
        i = i + 1;
    }
    None
}

/// `spec_upsert_ci` replaces in place at the first match.
proof fn lemma_upsert_at_match(
    hs: Seq<(Seq<char>, Seq<char>)>,
    k: Seq<char>,
    v: Seq<char>,
    i: int,
)
    requires
        0 <= i < hs.len(),
        lower(hs[i].0) == lower(k),
        forall|j: int| 0 <= j < i ==> lower(hs[j].0) != lower(k),
    ensures
        spec_upsert_ci(hs, k, v) == hs.update(i, (hs[i].0, v)),
    decreases i,
{
    if i == 0 {
        assert(spec_upsert_ci(hs, k, v) =~= hs.update(0, (hs[0].0, v)));
    } else {
        lemma_upsert_at_match(hs.drop_first(), k, v, i - 1);
        assert(spec_upsert_ci(hs, k, v) == seq![hs[0]] + spec_upsert_ci(hs.drop_first(), k, v));
        assert(spec_upsert_ci(hs, k, v) =~= hs.update(i, (hs[i].0, v)));
    }
}

/// `spec_upsert_ci` appends when no key matches.
proof fn lemma_upsert_no_match(hs: Seq<(Seq<char>, Seq<char>)>, k: Seq<char>, v: Seq<char>)
    requires
        forall|j: int| 0 <= j < hs.len() ==> lower(hs[j].0) != lower(k),
    ensures
        spec_upsert_ci(hs, k, v) == hs.push((k, v)),
    decreases hs.len(),
{
    if hs.len() == 0 {
        assert(spec_upsert_ci(hs, k, v) =~= hs.push((k, v)));
    } else {
        lemma_upsert_no_match(hs.drop_first(), k, v);
        assert(spec_upsert_ci(hs, k, v) =~= hs.push((k, v)));
    }
}

/// Upserts one pair, case-insensitively on the key.
pub fn upsert_ci(hs: &mut Vec<(String, String)>, k: &str, v: &str)
    ensures
        final(hs).deep_view() == spec_upsert_ci(old(hs).deep_view(), k@, v@),
{
    let ghost dv = hs.deep_view();
    match find_ci(hs, k) {
        Some(i) => {
            let key = hs[i].0.clone();
            hs.set(i, (key, String::from_str(v)));
            proof {
                lemma_upsert_at_match(dv, k@, v@, i as int);
                assert(hs.deep_view() =~= dv.update(i as int, (dv[i as int].0, v@)));
            }
        },
        None => {
            hs.push((String::from_str(k), String::from_str(v)));
            proof {
                lemma_upsert_no_match(dv, k@, v@);
                assert(hs.deep_view() =~= dv.push((k@, v@)));
            }
        },
    }
}

/// The value under `k`, looked up case-insensitively.
pub fn lookup_ci<'a>(hs: &'a Vec<(String, String)>, k: &str) -> (r: Option<&'a String>)
    ensures
        match r {
            Some(s) => spec_lookup_ci(hs.deep_view(), k@) == Some(s@),
            None => spec_lookup_ci(hs.deep_view(), k@) is None,
        },
{
    let ghost dv = hs.deep_view();
    match find_ci(hs, k) {
        Some(i) => {
            proof {
                lemma_lookup_at_match(dv, k@, i as int);
            }
            Some(&hs[i].1)
        },
        None => {
            proof {
                lemma_lookup_no_match(dv, k@);
            }
            None
        },
    }
}

/// `spec_lookup_ci` finds the first match.
proof fn lemma_lookup_at_match(hs: Seq<(Seq<char>, Seq<char>)>, k: Seq<char>, i: int)
    requires
        0 <= i < hs.len(),
        lower(hs[i].0) == lower(k),
        forall|j: int| 0 <= j < i ==> lower(hs[j].0) != lower(k),
    ensures
        spec_lookup_ci(hs, k) == Some(hs[i].1),
    decreases i,
{
    if i > 0 {
        lemma_lookup_at_match(hs.drop_first(), k, i - 1);
    }
}

/// `spec_lookup_ci` yields nothing when no key matches.
proof fn lemma_lookup_no_match(hs: Seq<(Seq<char>, Seq<char>)>, k: Seq<char>)
    requires
        forall|j: int| 0 <= j < hs.len() ==> lower(hs[j].0) != lower(k),
    ensures
        spec_lookup_ci(hs, k) is None,
    decreases hs.len(),
{
    if hs.len() > 0 {
        lemma_lookup_no_match(hs.drop_first(), k);
    }
}

/// The main HTTP client: configuration around a transport supplied by the
/// surrounding program.
#[derive(Debug, Clone)]
pub struct HttpClient {
    pub config: ClientConfig,
}

impl HttpClient {
    /// A client over the given configuration; without one, the defaults:
    /// no base URL, a thirty-unit timeout, no default headers.
    pub fn new(config: Option<ClientConfig>) -> (r: Self)
        ensures
            match config {
                Some(c) => r.config == c,
                None => r.config.base_url is None && r.config.timeout == Some(
                    DEFAULT_TIMEOUT_SECS,
                ) && r.config.headers is None,
            },
    {
        HttpClient {
            config: match config {
                Some(c) => c,
                None => ClientConfig {
                    base_url: None,
                    timeout: Some(DEFAULT_TIMEOUT_SECS),
                    headers: None,
                },
            },
        }
    }

    /// The effective timeout for a request against this client.
    pub fn effective_timeout(&self, params: &RequestParams) -> (r: u64)
        ensures
            r == spec_effective_timeout(params.timeout, self.config.timeout),
    {
        match params.timeout {
            Some(t) => t,
            None => match self.config.timeout {
                Some(t) => t,
                None => DEFAULT_TIMEOUT_SECS,
            },
        }
    }

    /// Steps of the pipeline before the network exchange: validates the
    /// method, resolves the URL against the base, merges client and request
    /// headers (later values win, case-insensitively), and applies the
    /// resolved credential. Middleware and timeout selection follow on the
    /// result. No network work happens here.
    pub fn prepare_request(&self, params: RequestParams, now: u64) -> (r: Result<
        RequestParams,
        ClientError,
    >)
        ensures
            !spec_supported_method(params.method@) ==> r is Err && (r->Err_0 matches
                ClientError::UnsupportedMethod { method } && method@ == params.method@),
            spec_supported_method(params.method@) && params.auth is Some && spec_resolve(
                params.auth->0,
                now,
            ) is None ==> r is Err && r->Err_0 is AuthError,
            spec_supported_method(params.method@) && (params.auth is None || spec_resolve(
                params.auth->0,
                now,
            ) is Some) ==> r is Ok && {
                let p = r->Ok_0;
                let merged = spec_merge_headers(
                    opt_pairs_view(self.config.headers),
                    opt_pairs_view(params.headers),
                );
                let ins = match params.auth {
                    Some(a) => spec_resolve(a, now)->0,
                    None => Seq::empty(),
                };
                let applied = spec_apply_effect(merged, opt_pairs_view(params.params), ins);
                &&& p.method@ == upper(params.method@)
                &&& p.url@ == spec_resolved_url(opt_str_view(self.config.base_url), params.url@)
                &&& p.headers is Some && p.headers->0.deep_view() == applied.0
                &&& p.params is Some && p.params->0.deep_view() == applied.1
                &&& p.body == params.body
                &&& p.timeout == params.timeout
                &&& p.auth is None
            },
    {
        let ghost p0 = params;
        let RequestParams { url, method, headers, params: query, body, timeout, auth } = params;

        let canon = to_upper(method.as_str());
        let supported = str_eq(canon.as_str(), "GET") || str_eq(canon.as_str(), "POST")
            || str_eq(canon.as_str(), "PUT") || str_eq(canon.as_str(), "DELETE") || str_eq(
            canon.as_str(),
            "PATCH",
        ) || str_eq(canon.as_str(), "HEAD") || str_eq(canon.as_str(), "OPTIONS") || str_eq(
            canon.as_str(),
            "TRACE",
        ) || str_eq(canon.as_str(), "CONNECT");
        if !supported {
            return Err(ClientError::UnsupportedMethod { method });
        }

        let resolved_url = match &self.config.base_url {
            Some(b) => {
                if starts_with(url.as_str(), "http://") || starts_with(url.as_str(), "https://") {
                    url
                } else {
                    let mut u = b.clone();
                    u.append(url.as_str());
                    u
                }
            },
            None => url,
        };

        let mut merged: Vec<(String, String)> = match &self.config.headers {
            Some(h) => copy_pairs(h),
            None => Vec::new(),
        };
        proof {
            assert(merged.deep_view() =~= opt_pairs_view(self.config.headers));
        }
        let ghost base_dv = merged.deep_view();
        let ghost extra_dv = opt_pairs_view(headers);
        match &headers {
            Some(hs) => {
                let n = hs.len();
                let mut i: usize = 0;
                proof {
                    assert(extra_dv.skip(0) =~= extra_dv);
                }
                while i < n
                    invariant
                        n == hs@.len(),
                        i <= n,
                        extra_dv == hs.deep_view(),
                        spec_merge_headers(base_dv, extra_dv) == spec_merge_headers(
                            merged.deep_view(),
                            extra_dv.skip(i as int),
                        ),
                    decreases n - i,
                {
                    upsert_ci(&mut merged, hs[i].0.as_str(), hs[i].1.as_str());
                    proof {
                        assert(extra_dv.skip(i as int).drop_first() =~= extra_dv.skip(i + 1));
                    }
                    i = i + 1;
                }
                proof {
                    assert(extra_dv.skip(n as int) =~= Seq::<(Seq<char>, Seq<char>)>::empty());
                }
            },
            None => {
                proof {
                    assert(extra_dv =~= Seq::<(Seq<char>, Seq<char>)>::empty());
                }
            },
        }

        let mut query_vec: Vec<(String, String)> = match query {
            Some(q) => q,
            None => Vec::new(),
        };
        proof {
            assert(query_vec.deep_view() =~= opt_pairs_view(p0.params));
        }

        let ghost merged_dv = merged.deep_view();
        let ghost query_dv = query_vec.deep_view();
        let ghost ins_model: Seq<InsertionV> = match &auth {
            Some(a) => spec_resolve(*a, now)->0,
            None => Seq::empty(),
        };
        match auth {
            Some(a) => {
                match AuthResolver::resolve(&a, now) {
                    Ok(effect) => {
                        apply_effect(&mut merged, &mut query_vec, &effect);
                        proof {
                            assert(effect@ == ins_model);
                        }
                    },
                    Err(e) => {
                        return Err(e);
                    },
                }
            },
            None => {
                proof {
                    assert(spec_apply_effect(merged_dv, query_dv, ins_model) == (
                        merged_dv,
                        query_dv,
                    ));
                }
            },
        }

        Ok(
            RequestParams {
                url: resolved_url,
                method: canon,
                headers: Some(merged),
                params: Some(query_vec),
                body,
                timeout,
                auth: None,
            },
        )
    }
}

/// Applies a credential's insertions to a header list and a query list.
pub fn apply_effect(
    hs: &mut Vec<(String, String)>,
    qs: &mut Vec<(String, String)>,
    effect: &crate::auth::WireEffect,
)
    ensures
        (final(hs).deep_view(), final(qs).deep_view()) == spec_apply_effect(
            old(hs).deep_view(),
            old(qs).deep_view(),
            effect@,
        ),
{
    let ghost h0 = hs.deep_view();
    let ghost q0 = qs.deep_view();
    let ghost ins = effect@;
    let n = effect.insertions.len();
    let mut i: usize = 0;
    proof {
        assert(ins.skip(0) =~= ins);
    }
    while i < n
        invariant
            n == effect.insertions@.len(),
            i <= n,
            ins == effect@,
            ins.len() == n,
            forall|k: int| 0 <= k < n ==> ins[k] == effect.insertions@[k]@,
            spec_apply_effect(h0, q0, ins) == spec_apply_effect(
                hs.deep_view(),
                qs.deep_view(),
                ins.skip(i as int),
            ),
        decreases n - i,
    {
        let item = &effect.insertions[i];
        match item.location {
            ApiKeyLocation::Header => {
                upsert_ci(hs, item.key.as_str(), item.value.as_str());
            },
            ApiKeyLocation::Query => {
                let ghost qprev = qs.deep_view();
                let k = item.key.clone();
                let v = item.value.clone();
                qs.push((k, v));
                assert(qs.deep_view() =~= qprev.push((item@.key, item@.value)));
            },
            ApiKeyLocation::Cookie => {
                let mut cookie = item.key.clone();
                cookie.append("=");
                cookie.append(item.value.as_str());
                upsert_ci(hs, "Cookie", cookie.as_str());
            },
        }
        proof {
            assert(ins.skip(i as int).drop_first() =~= ins.skip(i + 1));
        }
        i = i + 1;
    }
    proof {
        assert(ins.skip(n as int) =~= Seq::<InsertionV>::empty());
    }
}

} // verus!

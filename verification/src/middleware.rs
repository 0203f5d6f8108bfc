//! Named request/response transforms, applied around a pipeline run:
//! request transforms run in registration order, response transforms in
//! reverse registration order, so the first-registered entry is the
//! outermost layer in both directions.

use vstd::prelude::*;

use crate::client::{spec_upsert_ci, HttpResponse, HttpResponseV, RequestParams,
    RequestParamsV};

verus! {

/// A two-sided transform capability: every implementation states its effect
/// on the models, and its executable methods are held to that statement.
/// Transforms are total: they cannot fail the pipeline.
pub trait Transform: Sized {
    /// The effect of this transform on a request description.
    spec fn spec_request(&self, r: RequestParamsV) -> RequestParamsV;

    /// The effect of this transform on a response.
    spec fn spec_response(&self, r: HttpResponseV) -> HttpResponseV;

    /// Applies the request side of the transform.
    fn transform_request(&self, r: RequestParams) -> (out: RequestParams)
        ensures
            out@ == self.spec_request(r@),
    ;

    /// Applies the response side of the transform.
    fn transform_response(&self, r: HttpResponse) -> (out: HttpResponse)
        ensures
            out@ == self.spec_response(r@),
    ;
}

/// One named middleware entry; either side may be absent, and an absent side
/// leaves the value unchanged.
pub struct Middleware<T> {
    pub name: String,
    pub request_fn: Option<T>,
    pub response_fn: Option<T>,
}

impl<T: Transform> Middleware<T> {
    /// What this entry does to a request model.
    pub open spec fn spec_req(&self, r: RequestParamsV) -> RequestParamsV {
        match self.request_fn {
            Some(t) => t.spec_request(r),
            None => r,
        }
    }

    /// What this entry does to a response model.
    pub open spec fn spec_resp(&self, r: HttpResponseV) -> HttpResponseV {
        match self.response_fn {
            Some(t) => t.spec_response(r),
            None => r,
        }
    }

    /// A named entry from its two optional sides.
    pub fn new(name: &str, request_fn: Option<T>, response_fn: Option<T>) -> (r: Self)
        ensures
            r.name@ == name@,
            r.request_fn == request_fn,
            r.response_fn == response_fn,
    {
        Middleware { name: String::from_str(name), request_fn, response_fn }
    }

    /// Applies the request side, or returns the request unchanged.
    pub fn apply_to_request(&self, params: RequestParams) -> (out: RequestParams)
        ensures
            out@ == self.spec_req(params@),
    {
        match &self.request_fn {
            Some(t) => t.transform_request(params),
            None => params,
        }
    }

    /// Applies the response side, or returns the response unchanged.
    pub fn apply_to_response(&self, response: HttpResponse) -> (out: HttpResponse)
        ensures
            out@ == self.spec_resp(response@),
    {
        match &self.response_fn {
            Some(t) => t.transform_response(response),
            None => response,
        }
    }
}

/// A named entry from its two optional sides.
pub fn create_middleware<T: Transform>(
    name: &str,
    request_fn: Option<T>,
    response_fn: Option<T>,
) -> (r: Middleware<T>)
    ensures
        r.name@ == name@,
        r.request_fn == request_fn,
        r.response_fn == response_fn,
{
    Middleware::new(name, request_fn, response_fn)
}

/// The fold of the request sides over a chain, first registered first.
pub open spec fn chain_request<T: Transform>(
    ms: Seq<Middleware<T>>,
    r: RequestParamsV,
) -> RequestParamsV
    decreases ms.len(),
{
    if ms.len() == 0 {
        r
    } else {
        chain_request(ms.drop_first(), ms[0].spec_req(r))
    }
}

/// The fold of the response sides over a chain, last registered first: the
/// first-registered entry sees the response last.
pub open spec fn chain_response<T: Transform>(
    ms: Seq<Middleware<T>>,
    r: HttpResponseV,
) -> HttpResponseV
    decreases ms.len(),
{
    if ms.len() == 0 {
        r
    } else {
        ms[0].spec_resp(chain_response(ms.drop_first(), r))
    }
}

/// With entries `[a, b]`, request transforms run in order `a` then `b`, and
/// response transforms in order `b` then `a`.
pub proof fn lemma_chain_order_two<T: Transform>(
    a: Middleware<T>,
    b: Middleware<T>,
    r: RequestParamsV,
    s: HttpResponseV,
)
    ensures
        chain_request(seq![a, b], r) == b.spec_req(a.spec_req(r)),
        chain_response(seq![a, b], s) == a.spec_resp(b.spec_resp(s)),
{
    let two = seq![a, b];
    let one = seq![b];
    let none = Seq::<Middleware<T>>::empty();
    assert(two[0] == a);
    assert(one[0] == b);
    assert(two.drop_first() =~= one);
    assert(one.drop_first() =~= none);
    assert(chain_request(two, r) == chain_request(one, a.spec_req(r)));
    assert(chain_request(one, a.spec_req(r)) == chain_request(none, b.spec_req(a.spec_req(r))));
    assert(chain_request(none, b.spec_req(a.spec_req(r))) == b.spec_req(a.spec_req(r)));
    assert(chain_response(two, s) == a.spec_resp(chain_response(one, s)));
    assert(chain_response(one, s) == b.spec_resp(chain_response(none, s)));
    assert(chain_response(none, s) == s);
}

/// An ordered, append-only list of middleware entries, frozen for the
/// lifetime of a pipeline run.
pub struct MiddlewareManager<T> {
    pub middlewares: Vec<Middleware<T>>,
}

impl<T: Transform> MiddlewareManager<T> {
    /// An empty chain.
    pub fn new() -> (r: Self)
        ensures
            r.middlewares@.len() == 0,
    {
        MiddlewareManager { middlewares: Vec::new() }
    }

    /// Appends one entry at the end of the chain.
    pub fn add(&mut self, middleware: Middleware<T>)
        ensures
            final(self).middlewares@ == old(self).middlewares@.push(middleware),
    {
        self.middlewares.push(middleware);
    }

    /// Applies every request side in registration order.
    pub fn apply_to_request(&self, params: RequestParams) -> (out: RequestParams)
        ensures
            out@ == chain_request(self.middlewares@, params@),
    {
        let ghost ms = self.middlewares@;
        let n = self.middlewares.len();
        let mut current = params;
        let mut i: usize = 0;
        proof {
            assert(ms.skip(0) =~= ms);
        }
        while i < n
            invariant
                n == ms.len(),
                ms == self.middlewares@,
                i <= n,
                chain_request(ms, params@) == chain_request(ms.skip(i as int), current@),
            decreases n - i,
        {
            current = self.middlewares[i].apply_to_request(current);
            proof {
                assert(ms.skip(i as int).drop_first() =~= ms.skip(i + 1));
            }
            i = i + 1;
        }
        proof {
            assert(ms.skip(n as int) =~= Seq::<Middleware<T>>::empty());
        }
        current
    }

    /// Applies every response side in reverse registration order.
    pub fn apply_to_response(&self, response: HttpResponse) -> (out: HttpResponse)
        ensures
            out@ == chain_response(self.middlewares@, response@),
    {
        let ghost ms = self.middlewares@;
        let n = self.middlewares.len();
        let mut current = response;
        let mut i: usize = n;
        proof {
            assert(ms.skip(n as int) =~= Seq::<Middleware<T>>::empty());
        }
        while i > 0
            invariant
                n == ms.len(),
                ms == self.middlewares@,
                i <= n,
                current@ == chain_response(ms.skip(i as int), response@),
            decreases i,
        {
            i = i - 1;
            current = self.middlewares[i].apply_to_response(current);
            proof {
                assert(ms.skip(i as int).drop_first() =~= ms.skip(i + 1));
                assert(ms.skip(i as int)[0] == ms[i as int]);
            }
        }
        proof {
            assert(ms.skip(0) =~= ms);
        }
        current
    }
}

/// A ready-made transform: upserts one fixed header on requests and leaves
/// responses unchanged.
pub struct HeaderSetter {
    pub key: String,
    pub value: String,
}

impl Transform for HeaderSetter {
    open spec fn spec_request(&self, r: RequestParamsV) -> RequestParamsV {
        RequestParamsV {
            headers: Some(
                spec_upsert_ci(
                    match r.headers {
                        Some(h) => h,
                        None => Seq::empty(),
                    },
                    self.key@,
                    self.value@,
                ),
            ),
            ..r
        }
    }

    open spec fn spec_response(&self, r: HttpResponseV) -> HttpResponseV {
        r
    }

    fn transform_request(&self, r: RequestParams) -> (out: RequestParams)
    {
        let RequestParams { url, method, headers, params, body, timeout, auth } = r;
        let mut hs: Vec<(String, String)> = match headers {
            Some(h) => h,
            None => Vec::new(),
        };
        crate::client::upsert_ci(&mut hs, self.key.as_str(), self.value.as_str());
        RequestParams { url, method, headers: Some(hs), params, body, timeout, auth }
    }

    fn transform_response(&self, r: HttpResponse) -> (out: HttpResponse)
    {
        r
    }
}

/// A ready-made transform: upserts one fixed header on responses and leaves
/// requests unchanged.
pub struct ResponseStamp {
    pub key: String,
    pub value: String,
}

impl Transform for ResponseStamp {
    open spec fn spec_request(&self, r: RequestParamsV) -> RequestParamsV {
        r
    }

    open spec fn spec_response(&self, r: HttpResponseV) -> HttpResponseV {
        HttpResponseV { headers: spec_upsert_ci(r.headers, self.key@, self.value@), ..r }
    }

    fn transform_request(&self, r: RequestParams) -> (out: RequestParams)
    {
        r
    }

    fn transform_response(&self, r: HttpResponse) -> (out: HttpResponse)
    {
        let HttpResponse { status, headers, body, time } = r;
        let mut hs = headers;
        crate::client::upsert_ci(&mut hs, self.key.as_str(), self.value.as_str());
        HttpResponse { status, headers: hs, body, time }
    }
}

} // verus!

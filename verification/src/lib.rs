//! Client execution engine for an API-testing tool: an HTTP request pipeline
//! (authentication, middleware, URL resolution, response inspection) and a
//! WebSocket session state machine with reconnection policy, together with
//! the collection / environment stores that the surrounding tool manages.

use vstd::prelude::*;

pub mod errors;
pub mod text;
pub mod json;
pub mod auth;
pub mod client;
pub mod middleware;
pub mod response;
pub mod ws;
pub mod ident;
pub mod environments;
pub mod collections;
pub mod api;
pub mod postman;

verus! {

/// Variables of the active environment, as a key/value mapping with unique
/// keys.
pub type Environment = Vec<(String, String)>;

/// Setting a variable replaces the value under an exactly matching key, or
/// appends the pair.
pub open spec fn spec_env_set(
    env: Seq<(Seq<char>, Seq<char>)>,
    k: Seq<char>,
    v: Seq<char>,
) -> Seq<(Seq<char>, Seq<char>)>
    decreases env.len(),
{
    if env.len() == 0 {
        seq![(k, v)]
    } else if env[0].0 == k {
        seq![(k, v)] + env.drop_first()
    } else {
        seq![env[0]] + spec_env_set(env.drop_first(), k, v)
    }
}

/// The main entry point: an HTTP client together with the variables of the
/// active environment.
pub struct FmusClient {
    pub http_client: client::HttpClient,
    pub environment: Environment,
}

impl FmusClient {
    /// A client over the given configuration and environment; either may be
    /// absent.
    pub fn new(config: Option<client::ClientConfig>, env: Option<Environment>) -> (r: Self)
        ensures
            match config {
                Some(c) => r.http_client.config == c,
                None => r.http_client.config.base_url is None && r.http_client.config.timeout
                    == Some(client::DEFAULT_TIMEOUT_SECS) && r.http_client.config.headers
                    is None,
            },
            match env {
                Some(e) => r.environment == e,
                None => r.environment@.len() == 0,
            },
    {
        FmusClient {
            http_client: client::HttpClient::new(config),
            environment: match env {
                Some(e) => e,
                None => Vec::new(),
            },
        }
    }

    /// The HTTP client.
    pub fn http(&self) -> (r: &client::HttpClient)
        ensures
            r == &self.http_client,
    {
        &self.http_client
    }

    /// The environment variables.
    pub fn env(&self) -> (r: &Environment)
        ensures
            r == &self.environment,
    {
        &self.environment
    }

    /// Sets one environment variable, replacing any value under the same key.
    pub fn set_env(&mut self, key: &str, value: &str)
        ensures
            final(self).http_client == old(self).http_client,
            final(self).environment.deep_view() == spec_env_set(
                old(self).environment.deep_view(),
                key@,
                value@,
            ),
    {
        let ghost dv = self.environment.deep_view();
        let n = self.environment.len();
        let mut i: usize = 0;
        while i < n
            invariant
                n == self.environment@.len(),
                i <= n,
                *self == *old(self),
                dv == self.environment.deep_view(),
                forall|j: int| 0 <= j < i ==> dv[j].0 != key@,
            decreases n - i,
        {
            if text::str_eq(self.environment[i].0.as_str(), key) {
                self.environment.set(i, (String::from_str(key), String::from_str(value)));
                proof {
                    lemma_env_set_at(dv, key@, value@, i as int);
                    assert(self.environment.deep_view() =~= dv.update(i as int, (key@, value@)));
                }
                return;
            }
            i = i + 1;
        }
        self.environment.push((String::from_str(key), String::from_str(value)));
        proof {
            lemma_env_set_append(dv, key@, value@);
            assert(self.environment.deep_view() =~= dv.push((key@, value@)));
        }
    }
}

/// `spec_env_set` replaces in place at the first exact match.
proof fn lemma_env_set_at(env: Seq<(Seq<char>, Seq<char>)>, k: Seq<char>, v: Seq<char>, i: int)
    requires
        0 <= i < env.len(),
        env[i].0 == k,
        forall|j: int| 0 <= j < i ==> env[j].0 != k,
    ensures
        spec_env_set(env, k, v) == env.update(i, (k, v)),
    decreases i,
{
    if i == 0 {
        assert(spec_env_set(env, k, v) =~= env.update(0, (k, v)));
    } else {
        lemma_env_set_at(env.drop_first(), k, v, i - 1);
        assert(spec_env_set(env, k, v) =~= env.update(i, (k, v)));
    }
}

/// `spec_env_set` appends when no key matches exactly.
proof fn lemma_env_set_append(env: Seq<(Seq<char>, Seq<char>)>, k: Seq<char>, v: Seq<char>)
    requires
        forall|j: int| 0 <= j < env.len() ==> env[j].0 != k,
    ensures
        spec_env_set(env, k, v) == env.push((k, v)),
    decreases env.len(),
{
    if env.len() == 0 {
        assert(spec_env_set(env, k, v) =~= env.push((k, v)));
    } else {
        lemma_env_set_append(env.drop_first(), k, v);
        assert(spec_env_set(env, k, v) =~= env.push((k, v)));
    }
}

/// A client over the given configuration and environment.
pub fn client(config: Option<client::ClientConfig>, env: Option<Environment>) -> (r: FmusClient)
    ensures
        match config {
            Some(c) => r.http_client.config == c,
            None => r.http_client.config.base_url is None,
        },
{
    FmusClient::new(config, env)
}

/// The library's version string.
pub fn version() -> (r: &'static str)
    ensures
        r@ == "0.0.1"@,
{
    "0.0.1"
}

} // verus!

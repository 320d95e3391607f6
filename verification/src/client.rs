//! Rate-limited, cache-aware API client core.
//!
//! Three read operations against the external character service share one
//! token bucket (burst 10, steady 5 requests per second) and one TTL
//! response cache. The protocol per operation: build the request URL, check
//! the cache; on a hit return the cached payload untouched — without
//! consuming or even inspecting a token; on a miss, acquire a token
//! (sleeping and retrying for as long as the bucket is empty), issue the
//! HTTP request, classify the response, and cache a successful body under
//! the URL with the operation's TTL.
//!
//! The HTTP transport lives with the caller. The caller drives the
//! protocol: `begin_fetch` answers from the cache or names the URL to
//! fetch, `poll_token` grants a permit or says how long to sleep before
//! asking again, and `finish_fetch` classifies the response and fills the
//! cache. Everything decided between those calls is decided here.

use vstd::prelude::*;
use crate::cache::ResponseCache;
use crate::limiter::{RateLimiter, CLOCK_MAX_MS, TOKEN_SCALE};

verus! {

/// Burst capacity of the shared bucket, in whole tokens.
pub const BURST_TOKENS: u64 = 10;

/// Steady refill rate of the shared bucket, in tokens per second.
pub const REFILL_PER_SECOND: u64 = 5;

/// The three read operations of the character service.
#[derive(Clone, Copy, PartialEq, Eq, Structural, Debug)]
pub enum FetchOp {
    Characters,
    Items,
    PassiveSkills,
}

/// How long a successful response stays fresh: character lists for 60 s,
/// items and passive skills — which change more often during play — for
/// 30 s.
pub open spec fn spec_ttl_ms(op: FetchOp) -> u64 {
    match op {
        FetchOp::Characters => 60000u64,
        FetchOp::Items => 30000u64,
        FetchOp::PassiveSkills => 30000u64,
    }
}

pub fn ttl_ms(op: FetchOp) -> (r: u64)
    ensures
        r == spec_ttl_ms(op),
{
    match op {
        FetchOp::Characters => 60000,
        FetchOp::Items => 30000,
        FetchOp::PassiveSkills => 30000,
    }
}

/// What `urlencoding::encode` returns for a string: a function of the
/// characters alone.
pub uninterp spec fn percent_encoded(s: Seq<char>) -> Seq<char>;

/// Relies on `urlencoding::encode`: percent-encodes every byte except
/// ASCII alphanumerics and `-`, `_`, `.`, `~`; deterministic in its input,
/// and empty input encodes to empty output.
#[verifier::external_body]
fn encode_component(s: &str) -> (r: String)
    ensures
        r@ == percent_encoded(s@),
        s@.len() == 0 ==> r@.len() == 0,
{
    urlencoding::encode(s).into_owned()
}

/// The request URL of an operation, with both identifying parameters
/// percent-encoded. The character name is part of the key only for the
/// per-character operations.
pub open spec fn spec_request_url(op: FetchOp, account: Seq<char>, character: Seq<char>) -> Seq<
    char,
> {
    match op {
        FetchOp::Characters => {
            "https://www.pathofexile.com/character-window/get-characters?accountName="@
                + percent_encoded(account)
        },
        FetchOp::Items => {
            "https://www.pathofexile.com/character-window/get-items?accountName="@
                + percent_encoded(account) + "&character="@ + percent_encoded(character)
        },
        FetchOp::PassiveSkills => {
            "https://www.pathofexile.com/character-window/get-passive-skills?accountName="@
                + percent_encoded(account) + "&character="@ + percent_encoded(character)
        },
    }
}

/// Build the request URL for an operation; it doubles as the cache key.
pub fn request_url(op: FetchOp, account_name: &str, character_name: &str) -> (r: String)
    ensures
        r@ == spec_request_url(op, account_name@, character_name@),
{
    let encoded_account = encode_component(account_name);
    match op {
        FetchOp::Characters => {
            let mut url: String =
                "https://www.pathofexile.com/character-window/get-characters?accountName=".to_owned();
            url.append(encoded_account.as_str());
            url
        },
        FetchOp::Items => {
            let mut url: String =
                "https://www.pathofexile.com/character-window/get-items?accountName=".to_owned();
            url.append(encoded_account.as_str());
            url.append("&character=");
            url.append(encode_component(character_name).as_str());
            url
        },
        FetchOp::PassiveSkills => {
            let mut url: String =
                "https://www.pathofexile.com/character-window/get-passive-skills?accountName=".to_owned();
            url.append(encoded_account.as_str());
            url.append("&character=");
            url.append(encode_component(character_name).as_str());
            url
        },
    }
}

/// A failed fetch, as the caller reports it onward.
#[derive(Clone, Copy, PartialEq, Eq, Structural, Debug)]
pub enum ApiError {
    /// HTTP 403: the profile is private.
    PrivateProfile,
    /// HTTP 429: the service itself rejected the request rate.
    RateLimited,
    /// Any other non-success status.
    Http(u16),
}

impl ApiError {
    /// A human-readable description of the error.
    pub fn message(&self) -> (r: String)
        ensures
            (match self {
                ApiError::PrivateProfile => r@
                    == "Profile is private. Please set your POE profile to public in account settings."@,
                ApiError::RateLimited => r@ == "Rate limited. Please try again later."@,
                ApiError::Http(_) => r@ == "Request failed."@,
            }),
    {
        match self {
            ApiError::PrivateProfile => {
                "Profile is private. Please set your POE profile to public in account settings.".to_owned()
            },
            ApiError::RateLimited => "Rate limited. Please try again later.".to_owned(),
            ApiError::Http(_) => "Request failed.".to_owned(),
        }
    }
}

/// First step of a fetch: either the fresh cached payload, or the URL the
/// caller must fetch.
#[derive(Debug, PartialEq)]
pub enum BeginFetch {
    Cached(String),
    Fetch(String),
}

/// One round of waiting on the bucket: a permit, or how many milliseconds
/// to sleep before asking again.
#[derive(Clone, Copy, PartialEq, Eq, Structural, Debug)]
pub enum TokenPoll {
    Granted,
    WaitMs(u64),
}

/// The client: the shared token bucket and response cache. Construct one
/// and share it behind the caller's lock; the HTTP transport stays with
/// the caller.
pub struct PoeApiClient {
    pub limiter: RateLimiter,
    pub cache: ResponseCache,
}

impl PoeApiClient {
    pub open spec fn wf(self) -> bool {
        &&& self.limiter.wf()
        &&& self.cache.wf()
    }

    /// A fresh client: a full bucket of 10 tokens refilling at 5 per
    /// second, and an empty cache.
    pub fn new(now_ms: u64) -> (r: PoeApiClient)
        requires
            now_ms <= CLOCK_MAX_MS,
        ensures
            r.wf(),
            r.limiter.spec_tokens() == BURST_TOKENS * TOKEN_SCALE,
            r.limiter.spec_max() == BURST_TOKENS * TOKEN_SCALE,
            r.limiter.spec_refill_per_ms() == REFILL_PER_SECOND,
            r.limiter.spec_last_update() == now_ms,
            forall|k: Seq<char>| !r.cache.contains_key(k),
    {
        PoeApiClient {
            limiter: RateLimiter::new(BURST_TOKENS, REFILL_PER_SECOND, now_ms),
            cache: ResponseCache::new(),
        }
    }

    /// Start a fetch: answer from the cache when the key is fresh at
    /// `now_ms`, otherwise name the URL to fetch. Never touches the rate
    /// limiter — a cache hit costs no token and no wait — and never
    /// changes the client.
    pub fn begin_fetch(&self, op: FetchOp, account_name: &str, character_name: &str, now_ms: u64)
        -> (r: BeginFetch)
        requires
            self.wf(),
        ensures
            ({
                let key = spec_request_url(op, account_name@, character_name@);
                match r {
                    BeginFetch::Cached(p) => self.cache.spec_get(key, now_ms) == Some(p@),
                    BeginFetch::Fetch(url) => url@ == key && self.cache.spec_get(key, now_ms)
                        is None,
                }
            }),
    {
        let url = request_url(op, account_name, character_name);
        match self.cache.get(url.as_str(), now_ms) {
            Some(payload) => BeginFetch::Cached(payload),
            None => BeginFetch::Fetch(url),
        }
    }

    /// Ask the bucket for a permit at `now_ms`. On refusal, the answer
    /// carries how long to sleep before retrying; a token taken meanwhile
    /// by a concurrent caller simply makes the retry wait again. The cache
    /// is untouched.
    pub fn poll_token(&mut self, now_ms: u64) -> (r: TokenPoll)
        requires
            old(self).wf(),
            now_ms <= CLOCK_MAX_MS,
        ensures
            final(self).wf(),
            final(self).cache == old(self).cache,
            final(self).limiter == old(self).limiter.spec_try_acquire(now_ms).0,
            (match r {
                TokenPoll::Granted => old(self).limiter.spec_try_acquire(now_ms).1,
                TokenPoll::WaitMs(w) => !old(self).limiter.spec_try_acquire(now_ms).1 && w
                    == final(self).limiter.spec_wait_ms(),
            }),
    {
        if self.limiter.try_acquire(now_ms) {
            TokenPoll::Granted
        } else {
            TokenPoll::WaitMs(self.limiter.time_until_available())
        }
    }

    /// Classify a response and settle the fetch: 403 is a private profile,
    /// 429 a service-side rate refusal, any other non-2xx a plain HTTP
    /// failure — none of them cached, none retried here. A 2xx body is
    /// stored under the operation's URL for the operation's TTL and handed
    /// back. The rate limiter is untouched.
    pub fn finish_fetch(
        &mut self,
        op: FetchOp,
        account_name: &str,
        character_name: &str,
        status: u16,
        body: &str,
        now_ms: u64,
    ) -> (r: Result<String, ApiError>)
        requires
            old(self).wf(),
            now_ms <= CLOCK_MAX_MS,
        ensures
            final(self).wf(),
            final(self).limiter == old(self).limiter,
            status == 403 ==> r == Result::<String, ApiError>::Err(ApiError::PrivateProfile)
                && final(self).cache == old(self).cache,
            status == 429 ==> r == Result::<String, ApiError>::Err(ApiError::RateLimited)
                && final(self).cache == old(self).cache,
            (status != 403 && status != 429 && !(200 <= status < 300)) ==> r == Result::<
                String,
                ApiError,
            >::Err(ApiError::Http(status)) && final(self).cache == old(self).cache,
            (200 <= status < 300) ==> (match r {
                Ok(p) => p@ == body@,
                Err(_) => false,
            }),
            (200 <= status < 300) ==> final(self).cache.contains_key(
                spec_request_url(op, account_name@, character_name@),
            ) && final(self).cache.entry_payload(
                spec_request_url(op, account_name@, character_name@),
            ) == body@ && final(self).cache.entry_expiry(
                spec_request_url(op, account_name@, character_name@),
            ) == now_ms + spec_ttl_ms(op),
            (200 <= status < 300) ==> forall|k: Seq<char>|
                k != spec_request_url(op, account_name@, character_name@) ==> (
                #[trigger] final(self).cache.contains_key(k) <==> old(self).cache.contains_key(k)),
            (200 <= status < 300) ==> forall|k: Seq<char>|
                k != spec_request_url(op, account_name@, character_name@)
                    && old(self).cache.contains_key(k)
                    ==> #[trigger] final(self).cache.entry_payload(k)
                        == old(self).cache.entry_payload(k)
                    && final(self).cache.entry_expiry(k) == old(self).cache.entry_expiry(k),
    {
        if status == 403 {
            return Err(ApiError::PrivateProfile);
        }
        if status == 429 {
            return Err(ApiError::RateLimited);
        }
        if !(200 <= status && status < 300) {
            return Err(ApiError::Http(status));
        }
        let url = request_url(op, account_name, character_name);
        let owned_body: String = body.to_owned();
        self.cache.put(url.as_str(), body, ttl_ms(op), now_ms);
        proof {
            let key = spec_request_url(op, account_name@, character_name@);
            assert forall|k: Seq<char>|
                k != key && old(self).cache.contains_key(k) implies self.cache.entry_payload(k)
                == old(self).cache.entry_payload(k) && self.cache.entry_expiry(k) == old(
                self,
            ).cache.entry_expiry(k) by {
                assert(k != url@);
            }
        }
        Ok(owned_body)
    }
}

} // verus!

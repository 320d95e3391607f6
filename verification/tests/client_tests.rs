use poe_watcher::client::{ApiError, BeginFetch, FetchOp, PoeApiClient, TokenPoll};

#[test]
fn request_urls_are_percent_encoded() {
    let url = poe_watcher::client::request_url(FetchOp::Characters, "my account", "");
    assert_eq!(
        url,
        "https://www.pathofexile.com/character-window/get-characters?accountName=my%20account"
    );
    let url = poe_watcher::client::request_url(FetchOp::Items, "acc&name", "Wild Char");
    assert_eq!(
        url,
        "https://www.pathofexile.com/character-window/get-items?accountName=acc%26name&character=Wild%20Char"
    );
    let url = poe_watcher::client::request_url(FetchOp::PassiveSkills, "plain", "Char");
    assert_eq!(
        url,
        "https://www.pathofexile.com/character-window/get-passive-skills?accountName=plain&character=Char"
    );
}

#[test]
fn cold_cache_misses_then_success_fills_it() {
    let mut client = PoeApiClient::new(0);
    let begin = client.begin_fetch(FetchOp::Items, "acct", "char", 0);
    let url = match begin {
        BeginFetch::Fetch(url) => url,
        BeginFetch::Cached(_) => panic!("cold cache cannot hit"),
    };
    assert_eq!(client.poll_token(0), TokenPoll::Granted);
    let r = client.finish_fetch(FetchOp::Items, "acct", "char", 200, "{\"items\":[]}", 0);
    assert_eq!(r, Ok("{\"items\":[]}".to_string()));
    // within the 30 s TTL the same request is answered from the cache
    match client.begin_fetch(FetchOp::Items, "acct", "char", 29_999) {
        BeginFetch::Cached(p) => assert_eq!(p, "{\"items\":[]}"),
        BeginFetch::Fetch(_) => panic!("fresh entry must hit"),
    }
    // once the TTL has elapsed the request goes out again
    match client.begin_fetch(FetchOp::Items, "acct", "char", 30_000) {
        BeginFetch::Fetch(u) => assert_eq!(u, url),
        BeginFetch::Cached(_) => panic!("expired entry must miss"),
    }
}

#[test]
fn character_list_keeps_for_a_minute() {
    let mut client = PoeApiClient::new(0);
    client.poll_token(0);
    client.finish_fetch(FetchOp::Characters, "acct", "", 200, "[]", 0).unwrap();
    assert!(matches!(
        client.begin_fetch(FetchOp::Characters, "acct", "", 59_999),
        BeginFetch::Cached(_)
    ));
    assert!(matches!(
        client.begin_fetch(FetchOp::Characters, "acct", "", 60_000),
        BeginFetch::Fetch(_)
    ));
}

#[test]
fn statuses_map_to_typed_errors_and_are_not_cached() {
    let mut client = PoeApiClient::new(0);
    assert_eq!(
        client.finish_fetch(FetchOp::Characters, "a", "", 403, "denied", 0),
        Err(ApiError::PrivateProfile)
    );
    assert_eq!(
        client.finish_fetch(FetchOp::Characters, "a", "", 429, "slow down", 0),
        Err(ApiError::RateLimited)
    );
    assert_eq!(
        client.finish_fetch(FetchOp::Characters, "a", "", 500, "boom", 0),
        Err(ApiError::Http(500))
    );
    // none of those answers entered the cache
    assert!(matches!(
        client.begin_fetch(FetchOp::Characters, "a", "", 1),
        BeginFetch::Fetch(_)
    ));
}

#[test]
fn concurrent_cold_fetches_both_pass_the_limiter_and_a_third_is_cached() {
    let mut client = PoeApiClient::new(0);
    // two callers race on a cold cache: both miss, both consume a token
    assert!(matches!(
        client.begin_fetch(FetchOp::Items, "acct", "char", 0),
        BeginFetch::Fetch(_)
    ));
    assert!(matches!(
        client.begin_fetch(FetchOp::Items, "acct", "char", 0),
        BeginFetch::Fetch(_)
    ));
    assert_eq!(client.poll_token(0), TokenPoll::Granted);
    assert_eq!(client.poll_token(0), TokenPoll::Granted);
    assert_eq!(client.limiter.tokens_milli(), 8_000);
    client.finish_fetch(FetchOp::Items, "acct", "char", 200, "body", 0).unwrap();
    client.finish_fetch(FetchOp::Items, "acct", "char", 200, "body", 0).unwrap();
    // a third call within the TTL is served from the cache without any
    // rate-limiter traffic: the bucket is untouched
    let before = client.limiter.tokens_milli();
    match client.begin_fetch(FetchOp::Items, "acct", "char", 1) {
        BeginFetch::Cached(p) => assert_eq!(p, "body"),
        BeginFetch::Fetch(_) => panic!("warm cache must hit"),
    }
    assert_eq!(client.limiter.tokens_milli(), before);
}

#[test]
fn exhausted_bucket_says_how_long_to_wait() {
    let mut client = PoeApiClient::new(0);
    for _ in 0..10 {
        assert_eq!(client.poll_token(0), TokenPoll::Granted);
    }
    assert_eq!(client.poll_token(0), TokenPoll::WaitMs(200));
    // the wait contract: sleep what was asked, then retry
    assert_eq!(client.poll_token(200), TokenPoll::Granted);
}

#[test]
fn error_messages() {
    assert_eq!(
        ApiError::PrivateProfile.message(),
        "Profile is private. Please set your POE profile to public in account settings."
    );
    assert_eq!(ApiError::RateLimited.message(), "Rate limited. Please try again later.");
    assert_eq!(ApiError::Http(500).message(), "Request failed.");
}

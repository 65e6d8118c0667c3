use url_shortener::codec::encode;
use url_shortener::protocol::{resolve, shorten, shorten_twice, ResolveError, ShortenError};
use url_shortener::store::MemStore;

fn base() -> String {
    "sho.rt".to_string()
}

#[test]
fn shorten_composes_the_link() {
    let mut store = MemStore::new();
    let link = shorten(&mut store, &"http://example.com".to_string(), &base()).unwrap();
    // The first minted identifier is 1, whose token is "3".
    assert_eq!(link, "sho.rt/3");
    assert_eq!(store.row_count(), 1);
    assert_eq!(store.insert_call_count(), 1);
    assert_eq!(store.find_id_call_count(), 1);
    assert_eq!(store.find_url_call_count(), 0);
    assert_eq!(store.failure_count(), 0);
}

#[test]
fn idempotent_shortening() {
    let mut store = MemStore::new();
    let url = "http://example.com".to_string();
    let first = shorten(&mut store, &url, &base()).unwrap();
    let second = shorten(&mut store, &url, &base()).unwrap();
    assert_eq!(first, second);
    assert_eq!(store.insert_call_count(), 1);
    assert_eq!(store.find_id_call_count(), 2);
    assert_eq!(store.row_count(), 1);
    assert_eq!(store.failure_count(), 0);
}

#[test]
fn shorten_twice_law_on_a_fresh_url() {
    let mut store = MemStore::new();
    let (first, second) = shorten_twice(&mut store, &"http://example.com".to_string(), &base());
    assert_eq!(first.unwrap(), second.unwrap());
    assert_eq!(store.insert_call_count(), 1);
}

#[test]
fn shorten_then_resolve_round_trip() {
    let mut store = MemStore::new();
    let url = "https://example.com/some/long/path?q=1".to_string();
    let link = shorten(&mut store, &url, &base()).unwrap();
    let token = link.strip_prefix("sho.rt/").unwrap();
    assert_eq!(resolve(&mut store, token).unwrap(), url);
    assert_eq!(store.find_url_call_count(), 1);
}

#[test]
fn distinct_urls_get_distinct_links() {
    let mut store = MemStore::new();
    let link_a = shorten(&mut store, &"http://a.example".to_string(), &base()).unwrap();
    let link_b = shorten(&mut store, &"http://b.example".to_string(), &base()).unwrap();
    assert_ne!(link_a, link_b);
    assert_eq!(store.row_count(), 2);
}

#[test]
fn textually_different_urls_are_distinct_entities() {
    // No normalization: a trailing slash makes a different stored row.
    let mut store = MemStore::new();
    shorten(&mut store, &"http://example.com".to_string(), &base()).unwrap();
    shorten(&mut store, &"http://example.com/".to_string(), &base()).unwrap();
    assert_eq!(store.row_count(), 2);
    assert_eq!(store.insert_call_count(), 2);
}

#[test]
fn unknown_token_resolution() {
    let mut store = MemStore::new();
    let token = encode(999_999);
    match resolve(&mut store, &token) {
        Err(ResolveError::NotFound) => {}
        other => panic!("expected NotFound, got {:?}", other),
    }
    // The lookup itself is the one failed port operation.
    assert_eq!(store.find_url_call_count(), 1);
    assert_eq!(store.failure_count(), 1);
}

#[test]
fn malformed_token_short_circuit() {
    let mut store = MemStore::new();
    match resolve(&mut store, "!!!") {
        Err(ResolveError::MalformedToken) => {}
        other => panic!("expected MalformedToken, got {:?}", other),
    }
    // No persistence operation ran.
    assert_eq!(store.insert_call_count(), 0);
    assert_eq!(store.find_id_call_count(), 0);
    assert_eq!(store.find_url_call_count(), 0);
    assert_eq!(store.failure_count(), 0);
}

#[test]
fn oversized_token_is_malformed() {
    let mut store = MemStore::new();
    match resolve(&mut store, "ZZZZZZZZZZZZ") {
        Err(ResolveError::MalformedToken) => {}
        other => panic!("expected MalformedToken, got {:?}", other),
    }
    assert_eq!(store.find_url_call_count(), 0);
}

#[test]
fn invalid_url_rejection() {
    let mut store = MemStore::new();
    match shorten(&mut store, &"not-a-url".to_string(), &base()) {
        Err(ShortenError::InvalidUrlFormat) => {}
        other => panic!("expected InvalidUrlFormat, got {:?}", other),
    }
    // No persistence operation ran.
    assert_eq!(store.insert_call_count(), 0);
    assert_eq!(store.find_id_call_count(), 0);
    assert_eq!(store.find_url_call_count(), 0);
    assert_eq!(store.failure_count(), 0);
    assert_eq!(store.row_count(), 0);
}

#[test]
fn accepted_urls_are_stored_verbatim() {
    let mut store = MemStore::new();
    let url = "HTTP://Example.COM/Path?b=2&a=1".to_string();
    let link = shorten(&mut store, &url, &base()).unwrap();
    let token = link.strip_prefix("sho.rt/").unwrap();
    // The stored string comes back exactly as submitted, unnormalized.
    assert_eq!(resolve(&mut store, token).unwrap(), url);
}

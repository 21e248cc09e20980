use eighty_six::cache::{cache_key, normalize, EdgeCache, DEFAULT_TTL_SECONDS};
use std::cell::Cell;

#[test]
fn the_default_time_to_live_is_five_minutes() {
    assert_eq!(DEFAULT_TTL_SECONDS, 300);
    assert_eq!(EdgeCache::new(DEFAULT_TTL_SECONDS).ttl(), 300);
}

#[test]
fn the_key_is_the_hash_of_the_query() {
    assert_eq!(
        cache_key(""),
        "search:af1349b9f5f9a1a6a0404dea36dcc9499bcb25c9adc112b7cc9a93cae41f3262"
    );
    let key = cache_key("negroni");
    assert_eq!(key.len(), 7 + 64);
    assert!(key.starts_with("search:"));
    assert!(key[7..].chars().all(|c| c.is_ascii_digit() || ('a'..='f').contains(&c)));
    assert_eq!(key, cache_key("negroni"));
    assert_eq!(key, cache_key("Negroni"));
    assert_eq!(key, cache_key("  negroni \t"));
    assert_ne!(key, cache_key("negronis"));
    assert_ne!(cache_key("gin fizz"), cache_key("ginfizz"));
    assert_eq!(cache_key("   "), cache_key(""));
}

#[test]
fn a_query_is_normalized_to_lower_case_words() {
    assert_eq!(normalize("  Spicy   MARGARITA "), "spicy margarita");
    assert_eq!(normalize("gin"), "gin");
    assert_eq!(normalize(""), "");
    assert_eq!(normalize(" \n "), "");
}

#[test]
fn queries_with_the_same_words_share_a_result() {
    let mut cache = EdgeCache::new(300);
    let first = cache.get_or_compute("Gin Fizz", 10, |_q| "A".to_string());
    let second = cache.get_or_compute("  gin   fizz", 11, |_q| "B".to_string());
    assert_eq!(first, "A");
    assert_eq!(second, "A");
}

#[test]
fn two_queries_within_the_window_compute_once_and_a_third_after_it_again() {
    let mut cache = EdgeCache::new(300);
    let calls = Cell::new(0u32);
    let first = cache.get_or_compute("spicy", 1000, |q| {
        calls.set(calls.get() + 1);
        format!("results for {} #{}", q, calls.get())
    });
    assert_eq!(first, "results for spicy #1");
    assert_eq!(calls.get(), 1);
    let second = cache.get_or_compute("spicy", 1299, |q| {
        calls.set(calls.get() + 1);
        format!("results for {} #{}", q, calls.get())
    });
    assert_eq!(second, "results for spicy #1");
    assert_eq!(calls.get(), 1);
    let third = cache.get_or_compute("spicy", 1300, |q| {
        calls.set(calls.get() + 1);
        format!("results for {} #{}", q, calls.get())
    });
    assert_eq!(third, "results for spicy #2");
    assert_eq!(calls.get(), 2);
    let fourth = cache.get_or_compute("spicy", 1599, |_q| {
        calls.set(calls.get() + 1);
        String::new()
    });
    assert_eq!(fourth, "results for spicy #2");
    assert_eq!(calls.get(), 2);
}

#[test]
fn different_queries_do_not_share_a_result() {
    let mut cache = EdgeCache::new(300);
    let a = cache.get_or_compute("gin", 10, |_q| "A".to_string());
    let b = cache.get_or_compute("rum", 10, |_q| "B".to_string());
    let again = cache.get_or_compute("gin", 11, |_q| "C".to_string());
    assert_eq!(a, "A");
    assert_eq!(b, "B");
    assert_eq!(again, "A");
}

#[test]
fn lookup_serves_until_the_expiry_and_not_at_it() {
    let mut cache = EdgeCache::new(300);
    cache.insert("k".to_string(), "v".to_string(), 1000);
    assert_eq!(cache.lookup("k", 0), Some("v".to_string()));
    assert_eq!(cache.lookup("k", 1000), Some("v".to_string()));
    assert_eq!(cache.lookup("k", 1299), Some("v".to_string()));
    assert_eq!(cache.lookup("k", 1300), None);
    assert_eq!(cache.lookup("k", 5000), None);
    assert_eq!(cache.lookup("other", 1000), None);
}

#[test]
fn insert_replaces_what_was_stored_under_the_key() {
    let mut cache = EdgeCache::new(10);
    cache.insert("k".to_string(), "old".to_string(), 100);
    cache.insert("j".to_string(), "side".to_string(), 100);
    cache.insert("k".to_string(), "new".to_string(), 105);
    assert_eq!(cache.lookup("k", 109), Some("new".to_string()));
    assert_eq!(cache.lookup("k", 114), Some("new".to_string()));
    assert_eq!(cache.lookup("k", 115), None);
    assert_eq!(cache.lookup("j", 109), Some("side".to_string()));
    assert_eq!(cache.lookup("j", 110), None);
}

#[test]
fn a_time_to_live_of_zero_caches_nothing() {
    let mut cache = EdgeCache::new(0);
    let calls = Cell::new(0u32);
    for _ in 0..3 {
        cache.get_or_compute("gin", 50, |_q| {
            calls.set(calls.get() + 1);
            "A".to_string()
        });
    }
    assert_eq!(calls.get(), 3);
}

#[test]
fn an_expiry_beyond_the_last_instant_is_not_stored() {
    let mut cache = EdgeCache::new(300);
    cache.insert("k".to_string(), "v".to_string(), u64::MAX - 299);
    assert_eq!(cache.lookup("k", u64::MAX - 299), None);
    cache.insert("k".to_string(), "v".to_string(), u64::MAX - 300);
    assert_eq!(cache.lookup("k", u64::MAX - 1), Some("v".to_string()));
    assert_eq!(cache.lookup("k", u64::MAX), None);
}

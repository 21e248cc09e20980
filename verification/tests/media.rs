use eighty_six::cache::EdgeCache;
use eighty_six::gateway::search_query;
use eighty_six::images::{
    describe, optimized_url, push_decimal, ImageOptimizeRequest, DEFAULT_QUALITY, DEFAULT_WIDTH,
};
use eighty_six::ocr::MenuOCRProcessor;

fn decimal(n: u64) -> String {
    let mut text = String::new();
    push_decimal(&mut text, n);
    text
}

#[test]
fn numbers_are_written_in_decimal() {
    assert_eq!(decimal(0), "0");
    assert_eq!(decimal(7), "7");
    assert_eq!(decimal(10), "10");
    assert_eq!(decimal(85), "85");
    assert_eq!(decimal(800), "800");
    assert_eq!(decimal(1234567890), "1234567890");
    assert_eq!(decimal(u64::MAX), "18446744073709551615");
    let mut text = "w=".to_string();
    push_decimal(&mut text, 42);
    assert_eq!(text, "w=42");
}

#[test]
fn the_defaults_are_800_and_85() {
    assert_eq!(DEFAULT_WIDTH, 800);
    assert_eq!(DEFAULT_QUALITY, 85);
}

#[test]
fn the_address_fills_in_the_defaults() {
    let request = ImageOptimizeRequest {
        key: "menu/cover.png".to_string(),
        width: None,
        quality: None,
        format: None,
    };
    assert_eq!(
        optimized_url("acct123", &request),
        "https://imagedelivery.net/acct123/menu/cover.png?w=800&q=85&f=webp"
    );
}

#[test]
fn the_address_takes_what_the_request_names() {
    let request = ImageOptimizeRequest {
        key: "a.jpg".to_string(),
        width: Some(1200),
        quality: Some(0),
        format: Some("avif".to_string()),
    };
    assert_eq!(
        optimized_url("x", &request),
        "https://imagedelivery.net/x/a.jpg?w=1200&q=0&f=avif"
    );
    let largest = ImageOptimizeRequest {
        key: String::new(),
        width: Some(u32::MAX),
        quality: Some(u8::MAX),
        format: Some(String::new()),
    };
    assert_eq!(
        optimized_url("", &largest),
        "https://imagedelivery.net//?w=4294967295&q=255&f="
    );
}

#[test]
fn an_image_is_described_by_address_size_and_fingerprint() {
    let request = ImageOptimizeRequest {
        key: "a.jpg".to_string(),
        width: Some(64),
        quality: None,
        format: None,
    };
    let out = describe("acct", &request, &[1, 2, 3, 4, 5]);
    assert_eq!(out.optimized_url, "https://imagedelivery.net/acct/a.jpg?w=64&q=85&f=webp");
    assert_eq!(out.original_size, 5);
    assert_eq!(out.cache_key.len(), 64);
    assert!(out.cache_key.chars().all(|c| c.is_ascii_digit() || ('a'..='f').contains(&c)));
    let again = describe("other", &request, &[1, 2, 3, 4, 5]);
    assert_eq!(again.cache_key, out.cache_key);
    let changed = describe("acct", &request, &[1, 2, 3, 4, 6]);
    assert_ne!(changed.cache_key, out.cache_key);
    let empty = describe("acct", &request, &[]);
    assert_eq!(empty.original_size, 0);
    assert_eq!(
        empty.cache_key,
        "af1349b9f5f9a1a6a0404dea36dcc9499bcb25c9adc112b7cc9a93cae41f3262"
    );
}

#[test]
fn image_data_is_handed_on_as_it_is() {
    let processor = MenuOCRProcessor::new();
    assert_eq!(processor.preprocess_image(&[9, 8, 7]), vec![9, 8, 7]);
    assert_eq!(processor.preprocess_image(&[]), Vec::<u8>::new());
}

#[test]
fn the_query_is_the_first_value_named_q() {
    let pairs = vec![
        ("a".to_string(), "1".to_string()),
        ("q".to_string(), "gin".to_string()),
        ("q".to_string(), "rum".to_string()),
    ];
    assert_eq!(search_query(&pairs), "gin");
    let none = vec![("Q".to_string(), "gin".to_string()), ("qq".to_string(), "x".to_string())];
    assert_eq!(search_query(&none), "");
    assert_eq!(search_query(&Vec::new()), "");
}

#[test]
fn purging_drops_what_has_expired_and_nothing_else() {
    let mut cache = EdgeCache::new(10);
    cache.insert("a".to_string(), "1".to_string(), 0);
    cache.insert("b".to_string(), "2".to_string(), 5);
    cache.insert("c".to_string(), "3".to_string(), 0);
    assert_eq!(cache.len(), 3);
    cache.purge_expired(9);
    assert_eq!(cache.len(), 3);
    cache.purge_expired(10);
    assert_eq!(cache.len(), 1);
    assert_eq!(cache.lookup("a", 0), None);
    assert_eq!(cache.lookup("c", 0), None);
    assert_eq!(cache.lookup("b", 14), Some("2".to_string()));
    cache.purge_expired(15);
    assert_eq!(cache.len(), 0);
}

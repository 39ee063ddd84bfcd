use nebula::views::{
    bot_patterns, extract_client_ip, format_count, view_count_key, view_visitors_key, ContentType,
    ViewsService,
};

#[test]
fn test_format_count() {
    assert_eq!(format_count(0), "0");
    assert_eq!(format_count(1), "1");
    assert_eq!(format_count(99), "99");
    assert_eq!(format_count(100), "100");
    assert_eq!(format_count(999), "999");
    assert_eq!(format_count(1000), "1k");
    assert_eq!(format_count(1500), "1.5k");
    assert_eq!(format_count(1234), "1.2k");
    assert_eq!(format_count(9999), "10k");
    assert_eq!(format_count(10000), "10k");
    assert_eq!(format_count(15000), "15k");
    assert_eq!(format_count(100000), "100k");
    assert_eq!(format_count(1000000), "1.0M");
    assert_eq!(format_count(1500000), "1.5M");
}

#[test]
fn format_count_handles_the_largest_value() {
    assert_eq!(format_count(999999), "999k");
    assert_eq!(format_count(u64::MAX), "18446744073709.6M");
}

#[test]
fn test_bot_patterns() {
    let patterns = bot_patterns();
    assert!(patterns.contains(&"bot"));
    assert!(patterns.contains(&"googlebot"));
    assert!(patterns.contains(&"curl"));
}

#[test]
fn test_hash_ip() {
    let hash1 = ViewsService::hash_ip("192.168.1.1");
    let hash2 = ViewsService::hash_ip("192.168.1.1");
    let hash3 = ViewsService::hash_ip("192.168.1.2");

    assert_eq!(hash1, hash2);
    assert_ne!(hash1, hash3);
    assert_eq!(hash1.len(), 32);
}

#[test]
fn hash_is_lowercase_hex() {
    let hash = ViewsService::hash_ip("10.0.0.1");
    assert!(hash.chars().all(|c| c.is_ascii_hexdigit() && !c.is_ascii_uppercase()));
}

#[test]
fn hash_is_the_salted_truncated_digest() {
    // SHA-256 of "192.168.1.1" followed by the fixed salt, first sixteen
    // bytes, in lowercase hex.
    assert_eq!(ViewsService::hash_ip("192.168.1.1"), "6856d66ae1f8ff90e667ba7abbb7bd1b");
}

#[test]
fn bot_user_agents_are_refused() {
    assert!(ViewsService::is_bot(None));
    assert!(ViewsService::is_bot(Some("curl/8.0")));
    assert!(ViewsService::is_bot(Some("Googlebot/2.1 (+http://www.google.com/bot.html)")));
    assert!(ViewsService::is_bot(Some("Mozilla/5.0 (compatible; bingbot/2.0)")));
    assert!(!ViewsService::is_bot(Some(
        "Mozilla/5.0 (X11; Linux x86_64; rv:128.0) Gecko/20100101 Firefox/128.0"
    )));
}

#[test]
fn bot_view_never_counts() {
    let mut svc = ViewsService::new();
    assert!(!svc.record_view(ContentType::Post, "hello", "1.2.3.4", Some("curl/8.0")));
    assert!(!svc.record_view(ContentType::Post, "hello", "1.2.3.4", None));
    assert!(!svc.record_view(ContentType::Post, "hello", "5.6.7.8", Some("FancyBot/1.0")));
    assert_eq!(svc.get_count(ContentType::Post, "hello"), 0);
}

#[test]
fn repeat_visitor_counts_once() {
    let ua = Some("Mozilla/5.0 (X11; Linux x86_64) Firefox/128.0");
    let mut svc = ViewsService::new();
    assert!(svc.record_view(ContentType::Post, "hello", "1.2.3.4", ua));
    assert_eq!(svc.get_count(ContentType::Post, "hello"), 1);
    assert!(!svc.record_view(ContentType::Post, "hello", "1.2.3.4", ua));
    assert_eq!(svc.get_count(ContentType::Post, "hello"), 1);
    assert!(svc.record_view(ContentType::Post, "hello", "5.6.7.8", ua));
    assert_eq!(svc.get_count(ContentType::Post, "hello"), 2);
}

#[test]
fn items_are_counted_apart() {
    let ua = Some("Mozilla/5.0 (X11; Linux x86_64) Firefox/128.0");
    let mut svc = ViewsService::new();
    assert!(svc.record_view(ContentType::Post, "alpha", "1.2.3.4", ua));
    assert!(svc.record_view(ContentType::Project, "alpha", "1.2.3.4", ua));
    assert!(svc.record_view(ContentType::Post, "beta", "1.2.3.4", ua));
    assert_eq!(svc.get_count(ContentType::Post, "alpha"), 1);
    assert_eq!(svc.get_count(ContentType::Project, "alpha"), 1);
    assert_eq!(svc.get_count(ContentType::Post, "beta"), 1);
    assert_eq!(svc.get_count(ContentType::Project, "beta"), 0);
}

#[test]
fn batched_counts_keep_order_and_default_to_zero() {
    let ua = Some("Mozilla/5.0 (X11; Linux x86_64) Firefox/128.0");
    let mut svc = ViewsService::new();
    let empty: &[&str] = &[];
    assert_eq!(svc.get_counts(ContentType::Post, empty), Vec::<u64>::new());
    svc.record_view(ContentType::Post, "alpha", "1.2.3.4", ua);
    svc.record_view(ContentType::Post, "alpha", "9.9.9.9", ua);
    svc.record_view(ContentType::Post, "beta", "1.2.3.4", ua);
    let counts = svc.get_counts(ContentType::Post, &["beta", "missing", "alpha"]);
    assert_eq!(counts, vec![1, 0, 2]);
}

#[test]
fn store_keys_are_namespaced() {
    assert_eq!(view_count_key(ContentType::Post, "hello"), "views:post:hello:count");
    assert_eq!(view_visitors_key(ContentType::Post, "hello"), "views:post:hello:visitors");
    assert_eq!(view_count_key(ContentType::Project, "nebula"), "views:project:nebula:count");
    assert_eq!(
        view_visitors_key(ContentType::Project, "nebula"),
        "views:project:nebula:visitors"
    );
    assert_eq!(ContentType::Post.as_str(), "post");
    assert_eq!(ContentType::Project.as_str(), "project");
}

#[test]
fn forwarded_header_wins_over_real_ip_and_peer() {
    let got = extract_client_ip(
        Some("203.0.113.7, 70.41.3.18"),
        Some("150.172.238.178"),
        Some("192.0.2.1".to_string()),
    );
    assert_eq!(got, Some("203.0.113.7".to_string()));
}

#[test]
fn empty_forwarded_entry_falls_through() {
    let got = extract_client_ip(
        Some("   , 70.41.3.18"),
        Some("  150.172.238.178  "),
        Some("192.0.2.1".to_string()),
    );
    assert_eq!(got, Some("150.172.238.178".to_string()));

    let peer_only = extract_client_ip(Some("  "), Some(" "), Some("192.0.2.1".to_string()));
    assert_eq!(peer_only, Some("192.0.2.1".to_string()));

    assert_eq!(extract_client_ip(None, None, None), None);
}

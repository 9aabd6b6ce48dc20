use besinveri::cache::{
    advertised_ttl, answer_from, cache_control, reply_with, Reply, ResponseCache, Settled,
    ENTRY_TIME_TO_LIVE, MAX_TIME_TO_LIVE,
};
use besinveri::strings::to_decimal;

#[test]
fn cache_ttl_table() {
    assert_eq!(advertised_ttl("/food/anything"), 28800);
    assert_eq!(advertised_ttl("/health"), 600);
    assert_eq!(advertised_ttl("/unmapped"), 3600);
    assert_eq!(advertised_ttl("/"), u64::MAX);
    assert_eq!(advertised_ttl("/foods"), u64::MAX);
}

#[test]
fn ttl_goes_by_prefix() {
    assert_eq!(advertised_ttl("/food"), 28800);
    assert_eq!(advertised_ttl("/foods/search"), 28800);
    assert_eq!(advertised_ttl("/foods/"), 28800);
    assert_eq!(advertised_ttl("/foodstuff"), 28800);
    assert_eq!(advertised_ttl("/foo"), 3600);
    assert_eq!(advertised_ttl("/healthy"), 3600);
    assert_eq!(advertised_ttl("/health/"), 3600);
    assert_eq!(advertised_ttl(""), 3600);
    assert_eq!(advertised_ttl("/tags"), 3600);
    assert_eq!(advertised_ttl("/Food/elma"), 3600);
}

#[test]
fn cache_control_header() {
    assert_eq!(cache_control(28800), "public, max-age=28800");
    assert_eq!(cache_control(600), "public, max-age=600");
    assert_eq!(cache_control(0), "public, max-age=0");
    assert_eq!(cache_control(u64::MAX), "public, max-age=18446744073709551615");
    assert_eq!(cache_control(advertised_ttl("/food/elma")), "public, max-age=28800");
}

#[test]
fn decimal_digits() {
    for n in [0u64, 1, 9, 10, 11, 99, 100, 101, 404, 1000, 28800, u64::MAX - 1, u64::MAX] {
        assert_eq!(to_decimal(n), n.to_string());
    }
}

#[test]
fn a_reply_is_json_with_the_lifetime_of_its_route() {
    assert_eq!(
        reply_with("/health", "{}".to_owned()),
        Reply {
            status: 200,
            content_type: "application/json".to_owned(),
            cache_control: "public, max-age=600".to_owned(),
            body: "{}".to_owned(),
        }
    );
}

#[test]
fn a_success_is_kept_and_answered_from_the_cache() {
    let mut cache = ResponseCache::new(100);
    assert_eq!(cache.lookup("/food/elma", "/food/elma"), None);
    let body = "{\"description\":\"Elma\"}";
    let settled = cache.settle("/food/elma", "/food/elma", 200, body.as_bytes().to_vec());
    let expected = Reply {
        status: 200,
        content_type: "application/json".to_owned(),
        cache_control: "public, max-age=28800".to_owned(),
        body: body.to_owned(),
    };
    assert_eq!(settled, Settled::Answer(expected.clone()));
    assert_eq!(cache.lookup("/food/elma", "/food/elma"), Some(expected));
}

#[test]
fn a_failure_passes_through_and_is_not_kept() {
    let mut cache = ResponseCache::new(100);
    for status in [404u16, 500, 201, 204, 301, 400, 0, 199] {
        let settled = cache.settle("/food/yok", "/food/yok", status, b"{\"code\":404}".to_vec());
        assert_eq!(settled, Settled::PassThrough);
        assert_eq!(cache.lookup("/food/yok", "/food/yok"), None);
    }
}

#[test]
fn a_body_that_is_no_text_fails_and_is_not_kept() {
    let mut cache = ResponseCache::new(100);
    let settled = cache.settle("/food/elma", "/food/elma", 200, vec![0xff, 0xfe, 0x00]);
    assert_eq!(settled, Settled::Failed);
    assert_eq!(cache.lookup("/food/elma", "/food/elma"), None);
}

#[test]
fn query_parameters_make_different_entries() {
    let mut cache = ResponseCache::new(100);
    let path = "/foods/search";
    cache.settle("/foods/search?query=ka&mode=name&limit=5", path, 200, b"[1]".to_vec());
    cache.settle("/foods/search?query=el&mode=name&limit=5", path, 200, b"[2]".to_vec());
    assert_eq!(
        cache.lookup("/foods/search?query=ka&mode=name&limit=5", path).map(|r| r.body),
        Some("[1]".to_owned())
    );
    assert_eq!(
        cache.lookup("/foods/search?query=el&mode=name&limit=5", path).map(|r| r.body),
        Some("[2]".to_owned())
    );
    assert_eq!(cache.lookup("/foods/search", path), None);
}

#[test]
fn a_later_success_replaces_the_entry() {
    let mut cache = ResponseCache::new(100);
    cache.settle("/health", "/health", 200, b"old".to_vec());
    cache.settle("/health", "/health", 200, b"new".to_vec());
    cache.settle("/health", "/health", 503, b"down".to_vec());
    assert_eq!(cache.lookup("/health", "/health").map(|r| r.body), Some("new".to_owned()));
}

#[test]
fn the_lifetime_on_a_hit_follows_the_path_of_the_request() {
    let mut cache = ResponseCache::new(100);
    cache.settle("/foods", "/foods", 200, b"{}".to_vec());
    let hit = cache.lookup("/foods", "/health").unwrap();
    assert_eq!(hit.cache_control, "public, max-age=600");
    let hit = cache.lookup("/foods", "/foods").unwrap();
    assert_eq!(hit.cache_control, "public, max-age=18446744073709551615");
}

#[test]
fn entry_lifetime_is_bounded() {
    assert_eq!(ENTRY_TIME_TO_LIVE, 600);
    assert!(ResponseCache::with_time_to_live(10, MAX_TIME_TO_LIVE).is_some());
    assert!(ResponseCache::with_time_to_live(10, MAX_TIME_TO_LIVE + 1).is_none());
    assert!(ResponseCache::with_time_to_live(10, 0).is_some());
    let mut cache = ResponseCache::with_time_to_live(10, 60).unwrap();
    cache.settle("/health", "/health", 200, b"{}".to_vec());
    assert_eq!(cache.lookup("/health", "/health").map(|r| r.body), Some("{}".to_owned()));
}

#[test]
fn a_cache_without_room_keeps_nothing() {
    let mut cache = ResponseCache::new(0);
    let settled = cache.settle("/health", "/health", 200, b"{}".to_vec());
    assert!(matches!(settled, Settled::Answer(_)));
    assert_eq!(cache.lookup("/health", "/health"), None);
}

#[test]
fn an_answer_follows_what_the_cache_gave() {
    assert_eq!(answer_from("/health", None), None);
    assert_eq!(
        answer_from("/food/elma", Some("{}".to_owned())),
        Some(Reply {
            status: 200,
            content_type: "application/json".to_owned(),
            cache_control: "public, max-age=28800".to_owned(),
            body: "{}".to_owned(),
        })
    );
}

#[test]
fn an_entry_is_dropped_after_the_lifetime_of_the_cache() {
    let mut short = ResponseCache::with_time_to_live(10, 1).unwrap();
    let mut long = ResponseCache::with_time_to_live(10, 3600).unwrap();
    short.settle("/foods", "/foods", 200, b"{}".to_vec());
    long.settle("/foods", "/foods", 200, b"{}".to_vec());
    assert!(short.lookup("/foods", "/foods").is_some());
    let start = std::time::Instant::now();
    while start.elapsed() < std::time::Duration::from_millis(1500) {
        std::hint::spin_loop();
    }
    assert_eq!(short.lookup("/foods", "/foods"), None);
    assert!(long.lookup("/foods", "/foods").is_some());
}

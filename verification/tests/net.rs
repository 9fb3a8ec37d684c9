use stonkscollect::net::{
    retry_after, FetchResult, LoginThrottle, RateLimiter, RetryPolicy, RetryStep, Span, Validators,
};

fn t(secs: i128) -> i128 {
    secs * 1_000_000_000
}

#[test]
fn delay_for_is_exponential_and_capped() {
    let p = RetryPolicy {
        max_retries: 6,
        base: Span::from_millis(100),
        max: Span::from_secs(2),
    };
    assert_eq!(p.delay_for(0, None), Span::from_millis(100));
    assert_eq!(p.delay_for(1, None), Span::from_millis(200));
    assert_eq!(p.delay_for(3, None), Span::from_millis(800));
    assert_eq!(p.delay_for(10, None), Span::from_secs(2)); // capped
}

#[test]
fn delay_for_honors_retry_after_capped() {
    let p = RetryPolicy::default();
    assert_eq!(p.delay_for(0, Some(Span::from_secs(1))), Span::from_secs(1));
    assert_eq!(p.delay_for(0, Some(Span::from_secs(60))), p.max); // capped
}

#[test]
fn should_retry_only_transient_and_within_budget() {
    let p = RetryPolicy { max_retries: 3, ..RetryPolicy::default() };
    assert!(p.should_retry(0, None)); // transport error
    assert!(p.should_retry(1, Some(429)));
    assert!(p.should_retry(2, Some(503)));
    assert!(!p.should_retry(0, Some(404))); // client error, no retry
    assert!(!p.should_retry(3, None)); // budget exhausted
}

#[test]
fn should_retry_only_5xx_among_server_statuses() {
    let p = RetryPolicy::default();
    assert!(p.should_retry(0, Some(500)));
    assert!(p.should_retry(0, Some(599)));
    assert!(!p.should_retry(0, Some(600)));
    assert!(!p.should_retry(0, Some(499)));
}

#[test]
fn validators_request_headers_cover_only_present_fields() {
    assert!(Validators::default().request_headers().is_empty());
    let etag_only = Validators { etag: Some("\"abc\"".into()), last_modified: None };
    assert_eq!(
        etag_only.request_headers(),
        vec![("If-None-Match", "\"abc\"".to_string())]
    );
    let both = Validators {
        etag: Some("\"abc\"".into()),
        last_modified: Some("Tue, 01 Jan 2024 00:00:00 GMT".into()),
    };
    assert_eq!(
        both.request_headers(),
        vec![
            ("If-None-Match", "\"abc\"".to_string()),
            ("If-Modified-Since", "Tue, 01 Jan 2024 00:00:00 GMT".to_string()),
        ]
    );
    assert_eq!(both.clone(), both);
    assert!(format!("{both:?}").contains("abc"));
}

#[test]
fn login_throttle_blocks_after_max_failures_within_window() {
    let mut th = LoginThrottle::new(3, Span::from_secs(900));
    let now = t(0);
    assert!(th.allowed("a@e.com", now));
    th.record_failure("a@e.com", now);
    th.record_failure("a@e.com", now);
    assert!(th.allowed("a@e.com", now));
    th.record_failure("a@e.com", now);
    assert!(!th.allowed("a@e.com", now));
    assert!(th.allowed("b@e.com", now));
}

#[test]
fn login_throttle_resets_after_window_and_on_success() {
    let mut th = LoginThrottle::new(2, Span::from_secs(900));
    let now = t(0);
    th.record_failure("a@e.com", now);
    th.record_failure("a@e.com", now);
    assert!(!th.allowed("a@e.com", now));
    assert!(th.allowed("a@e.com", t(901)));
    th.record_failure("a@e.com", t(901));
    assert!(th.allowed("a@e.com", t(901)));
    th.record_failure("a@e.com", t(901));
    assert!(!th.allowed("a@e.com", t(901)));

    th.record_failure("b@e.com", now);
    th.record_failure("b@e.com", now);
    assert!(!th.allowed("b@e.com", now));
    th.clear("b@e.com");
    assert!(th.allowed("b@e.com", now));
}

#[test]
fn login_throttle_window_edge_is_exclusive() {
    let mut th = LoginThrottle::new(1, Span::from_secs(900));
    th.record_failure("a@e.com", t(0));
    assert!(!th.allowed("a@e.com", t(899)));
    assert!(th.allowed("a@e.com", t(900)));
    // an instant before the window opened does not count as inside it
    assert!(th.allowed("a@e.com", t(-1)));
}

#[test]
fn rate_limiter_spaces_requests() {
    let mut rl = RateLimiter::new(Span::from_secs(10));
    assert!(rl.reserve_fits(t(0)));
    assert_eq!(rl.reserve(t(0)), Span::zero());
    assert_eq!(rl.reserve(t(0)), Span::from_secs(10));
    assert_eq!(rl.reserve(t(0)), Span::from_secs(20));
    assert_eq!(rl.reserve(t(100)), Span::zero());
    assert_eq!(rl.min_interval(), Span::from_secs(10));
}

#[test]
fn rate_limiter_refuses_reservations_beyond_representable_instants() {
    let rl = RateLimiter::new(Span::from_secs(10));
    assert!(!rl.reserve_fits(8_210_266_876_799_999_999_999));
    assert!(rl.reserve_fits(8_210_266_866_799_999_999_999));
}

#[test]
fn retry_after_reads_whole_seconds() {
    assert_eq!(retry_after(Some("120")), Some(Span::from_secs(120)));
    assert_eq!(retry_after(Some("+3")), Some(Span::from_secs(3)));
    assert_eq!(retry_after(Some("-3")), None);
    assert_eq!(retry_after(Some("Wed, 21 Oct 2015 07:28:00 GMT")), None);
    assert_eq!(retry_after(None), None);
}

#[test]
fn next_step_retries_transient_failures_within_budget() {
    let p = RetryPolicy { max_retries: 2, base: Span::from_millis(100), max: Span::from_secs(2) };
    assert_eq!(p.next_step(0, FetchResult::Success), RetryStep::Done);
    assert_eq!(
        p.next_step(0, FetchResult::Transport),
        RetryStep::Retry { wait: Span::from_millis(100), attempt: 1 }
    );
    assert_eq!(
        p.next_step(1, FetchResult::Status { code: 503, retry_after: Some(Span::from_secs(60)) }),
        RetryStep::Retry { wait: Span::from_secs(2), attempt: 2 }
    );
    assert_eq!(p.next_step(0, FetchResult::Status { code: 404, retry_after: None }), RetryStep::GiveUp);
    assert_eq!(p.next_step(2, FetchResult::Transport), RetryStep::GiveUp);
}

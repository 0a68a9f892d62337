use auth_service::{
    client_identifier, too_many_requests, Admission, CreateUser, LoginRequest, RateLimiter, UpdateUser,
};

const SECOND: u64 = 1_000_000_000;

#[test]
fn admits_up_to_limit_then_rejects() {
    let mut limiter = RateLimiter::new(3, 60 * SECOND);
    assert!(limiter.is_allowed("a", 0));
    assert!(limiter.is_allowed("a", 1));
    assert!(limiter.is_allowed("a", 2));
    assert!(!limiter.is_allowed("a", 3));
    assert!(!limiter.is_allowed("a", 4));
}

#[test]
fn window_reset_after_elapse() {
    let mut limiter = RateLimiter::new(2, 10);
    assert!(limiter.is_allowed("a", 0));
    assert!(limiter.is_allowed("a", 5));
    assert!(!limiter.is_allowed("a", 6));
    assert!(limiter.is_allowed("a", 11));
    // The count is back to one: one more fits, the next does not.
    assert!(limiter.is_allowed("a", 12));
    assert!(!limiter.is_allowed("a", 13));
}

#[test]
fn boundary_is_still_old_window() {
    let mut limiter = RateLimiter::new(1, 10);
    assert!(limiter.is_allowed("a", 100));
    assert!(!limiter.is_allowed("a", 110));
    assert!(limiter.is_allowed("a", 111));
}

#[test]
fn rejected_calls_do_not_count() {
    let mut limiter = RateLimiter::new(3, 10);
    for t in 0..3u64 {
        assert!(limiter.is_allowed("a", t));
    }
    for t in 3..1003u64 {
        assert!(!limiter.is_allowed("a", t % 10));
    }
    assert!(limiter.is_allowed("a", 11));
    assert!(limiter.is_allowed("a", 12));
    assert!(limiter.is_allowed("a", 13));
    assert!(!limiter.is_allowed("a", 14));
}

#[test]
fn clients_are_isolated() {
    let mut limiter = RateLimiter::new(2, 10);
    assert!(limiter.is_allowed("a", 0));
    assert!(limiter.is_allowed("a", 1));
    assert!(!limiter.is_allowed("a", 2));
    assert!(limiter.is_allowed("b", 2));
    assert!(limiter.is_allowed("b", 3));
    assert!(!limiter.is_allowed("b", 4));
    assert!(!limiter.is_allowed("a", 5));
}

#[test]
fn burst_admits_exactly_limit() {
    let max = 5u64;
    let k = 7u64;
    let mut limiter = RateLimiter::new(max, 60 * SECOND);
    let mut admitted = 0u64;
    let mut rejected = 0u64;
    for i in 0..(max + k) {
        if limiter.is_allowed("burst", i) {
            admitted += 1;
        } else {
            rejected += 1;
        }
    }
    assert_eq!(admitted, max);
    assert_eq!(rejected, k);
}

#[test]
fn zero_limit_rejects_first_request() {
    let mut limiter = RateLimiter::new(0, 10);
    assert!(!limiter.is_allowed("a", 0));
    assert!(!limiter.is_allowed("a", 10));
    // A new window still admits the call that opens it.
    assert!(limiter.is_allowed("a", 11));
    assert!(!limiter.is_allowed("a", 12));
}

#[test]
fn end_to_end_scenario() {
    let mut limiter = RateLimiter::new(3, 60 * SECOND);
    for _ in 0..3 {
        assert!(matches!(limiter.intercept(Some("1.2.3.4"), None, 0), Admission::Forward));
    }
    match limiter.intercept(Some("1.2.3.4"), None, 10 * SECOND) {
        Admission::Reject(r) => {
            assert_eq!(r.status, 429);
            assert_eq!(r.body, "Too many requests");
        }
        Admission::Forward => panic!("fourth request must be rejected"),
    }
    assert!(matches!(limiter.intercept(Some("1.2.3.4"), None, 61 * SECOND), Admission::Forward));
}

#[test]
fn identifier_prefers_real_ip_then_peer_then_unknown() {
    assert_eq!(client_identifier(Some("10.0.0.1"), Some("10.0.0.2")), "10.0.0.1");
    assert_eq!(client_identifier(None, Some("10.0.0.2")), "10.0.0.2");
    assert_eq!(client_identifier(None, None), "unknown");
}

#[test]
fn unidentified_clients_share_a_bucket() {
    let mut limiter = RateLimiter::new(1, 10);
    assert!(matches!(limiter.intercept(None, None, 0), Admission::Forward));
    assert!(matches!(limiter.intercept(None, None, 1), Admission::Reject(_)));
    assert!(!limiter.is_allowed("unknown", 2));
    assert!(matches!(limiter.intercept(None, Some("9.9.9.9"), 3), Admission::Forward));
}

#[test]
fn rejection_is_429_with_text() {
    let r = too_many_requests();
    assert_eq!(r.status, 429);
    assert_eq!(r.body, "Too many requests");
}

#[test]
fn update_needs_a_field() {
    let none = UpdateUser { username: None, email: None, password: None };
    assert!(!none.has_changes());
    let some = UpdateUser { username: None, email: Some("x@y.z".to_string()), password: None };
    assert!(some.has_changes());
}

#[test]
fn largest_limit_and_clock_values() {
    let mut limiter = RateLimiter::new(u64::MAX, u64::MAX);
    assert!(limiter.is_allowed("a", u64::MAX - 1));
    assert!(limiter.is_allowed("a", u64::MAX));
    assert!(limiter.is_allowed("a", 0));
}

#[test]
fn earlier_clock_reading_counts_as_no_time_elapsed() {
    let mut limiter = RateLimiter::new(1, 10);
    assert!(limiter.is_allowed("a", 100));
    assert!(!limiter.is_allowed("a", 50));
    assert!(limiter.is_allowed("a", 111));
}

#[test]
fn first_request_opens_window_at_its_time() {
    let mut limiter = RateLimiter::new(2, 10);
    assert!(limiter.is_allowed("late", 1000));
    assert!(limiter.is_allowed("late", 1010));
    assert!(!limiter.is_allowed("late", 1010));
    assert!(limiter.is_allowed("late", 1011));
}

#[test]
fn request_types_hold_their_fields() {
    let login = LoginRequest { email: "a@b.c".to_string(), password: "pw".to_string() };
    assert_eq!(login.email, "a@b.c");
    let create = CreateUser {
        username: "ann".to_string(),
        email: "a@b.c".to_string(),
        password: "pw".to_string(),
    };
    assert_eq!(create.username, "ann");
    let pw_only = UpdateUser { username: None, email: None, password: Some("pw".to_string()) };
    assert!(pw_only.has_changes());
}

use rdap_storm::ratelimit::RateLimiter;
use rdap_storm::EndpointRateLimiters;

const SEC: u64 = 1_000_000_000;

#[test]
fn limiter_allows_burst_then_paces() {
    let mut lim = RateLimiter::new(2);
    assert_eq!(lim.acquire_at(0), 0);
    assert_eq!(lim.acquire_at(0), 0);
    assert_eq!(lim.acquire_at(0), SEC / 2);
    assert_eq!(lim.acquire_at(0), SEC);
}

#[test]
fn limiter_refills_over_time() {
    let mut lim = RateLimiter::new(1);
    assert_eq!(lim.acquire_at(0), 0);
    assert_eq!(lim.acquire_at(SEC), 0);
    assert_eq!(lim.acquire_at(2 * SEC), 0);
    assert_eq!(lim.acquire_at(2 * SEC), SEC);
}

#[test]
fn limiter_rate_ten_hundred_requests_take_nine_seconds() {
    let mut lim = RateLimiter::new(10);
    let mut last_wait = 0;
    for _ in 0..100 {
        last_wait = lim.acquire_at(0);
    }
    assert_eq!(last_wait, 9 * SEC);
}

#[test]
fn limiter_steady_state_rate_is_bounded() {
    // At rate 2, count the grants whose departure falls in the first
    // second: the burst of 2 plus the 1 paced into [0, 1s); the next
    // grant lands exactly at 1 s, outside the half-open window.
    let mut lim = RateLimiter::new(2);
    let mut in_window = 0;
    for _ in 0..50 {
        let wait = lim.acquire_at(0);
        if wait < SEC {
            in_window += 1;
        }
    }
    assert_eq!(in_window, 3);
}

#[test]
fn endpoint_limiters_are_per_endpoint() {
    let mut map = EndpointRateLimiters::new(1);
    assert_eq!(map.acquire_at("https://a.example", 0), 0);
    assert_eq!(map.acquire_at("https://a.example", 0), SEC);
    assert_eq!(map.acquire_at("https://b.example", 0), 0);
    assert_eq!(map.acquire_at("https://b.example", 0), SEC);
    assert_eq!(map.acquire_at("https://a.example", 0), 2 * SEC);
}

#[test]
fn endpoint_limiters_reuse_existing_entry() {
    let mut map = EndpointRateLimiters::new(2);
    assert_eq!(map.acquire_at("e", 0), 0);
    assert_eq!(map.acquire_at("e", 0), 0);
    assert_eq!(map.acquire_at("e", 0), SEC / 2);
}

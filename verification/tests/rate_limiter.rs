use rust_playground::fixed_window_rate_limiter::FixedWindowRateLimiter;

use time::Date;
use time::Month;

fn utc_timestamp(hour: u8, minute: u8, second: u8) -> i64 {
    Date::from_calendar_date(2023, Month::January, 1)
        .unwrap()
        .with_hms(hour, minute, second)
        .unwrap()
        .assume_utc()
        .unix_timestamp()
}

#[test]
fn allows_per_key() {
    let mut rate_limiter = FixedWindowRateLimiter::new(1);

    let now = utc_timestamp(0, 0, 0);

    let a = rate_limiter.allow("billy", now).unwrap();
    let c = rate_limiter.allow("tom", now).unwrap();

    assert_eq!(a, "Hello billy");
    assert_eq!(c, "Hello tom");
}

#[test]
fn allows_per_duration() {
    let mut rate_limiter = FixedWindowRateLimiter::new(1);

    let now = utc_timestamp(0, 0, 0);
    let future = utc_timestamp(0, 1, 0);

    rate_limiter.allow("billy", now).unwrap();
    rate_limiter.allow("billy", future).unwrap();
}

#[test]
fn enforces_per_duration() {
    let mut rate_limiter = FixedWindowRateLimiter::new(1);

    let now = utc_timestamp(0, 0, 0);
    let future = utc_timestamp(0, 0, 59);

    rate_limiter.allow("billy", now).unwrap();

    let prevented = rate_limiter.allow("billy", future);

    assert!(prevented.is_err());
}

#[test]
fn enforces_at_scale() {
    let mut rate_limiter = FixedWindowRateLimiter::new(1_000);

    let now = utc_timestamp(0, 0, 0);

    for _ in 0..1_000 {
        rate_limiter
            .allow("billy", now)
            .expect("Up to 1,000 requests per minute per user");

        rate_limiter
            .allow("tom", now)
            .expect("Up to 1,000 requests per minute per user");
    }

    let prevented = rate_limiter.allow("billy", now);

    assert!(prevented.is_err());
}

#[test]
fn capacity_zero_admits_one_request_per_window() {
    let mut rate_limiter = FixedWindowRateLimiter::new(0);

    let now = utc_timestamp(0, 0, 0);

    // A window is only checked once it exists, so the first request passes.
    assert!(rate_limiter.allow("billy", now).is_ok());
    assert!(rate_limiter.allow("billy", now).is_err());
}

#[test]
fn refusal_names_the_user_and_counts() {
    let mut rate_limiter = FixedWindowRateLimiter::new(1);

    let now = utc_timestamp(0, 0, 0);

    rate_limiter.allow("billy", now).unwrap();
    let prevented = rate_limiter.allow("billy", now);

    assert_eq!(
        prevented,
        Err("User billy has reached rate limit 1 with 1 requests".to_string())
    );
}

#[test]
fn admitted_requests_greet_up_to_the_capacity() {
    let mut rate_limiter = FixedWindowRateLimiter::new(3);

    let now = utc_timestamp(0, 0, 30);

    for _ in 0..3 {
        assert_eq!(rate_limiter.allow("tom", now).unwrap(), "Hello tom");
    }
    let prevented = rate_limiter.allow("tom", now);
    assert_eq!(
        prevented,
        Err("User tom has reached rate limit 3 with 3 requests".to_string())
    );
}

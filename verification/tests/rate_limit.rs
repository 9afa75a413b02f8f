use foundations_telemetry::rate_limit::{event_allowed, rate_limit_quota, sampled_with_limit};
use foundations_telemetry::settings::RateLimitingSettings;

#[test]
fn quota_only_when_enabled_with_a_rate() {
    let on = RateLimitingSettings { enabled: true, max_events_per_second: 10 };
    let zero = RateLimitingSettings { enabled: true, max_events_per_second: 0 };
    let off = RateLimitingSettings { enabled: false, max_events_per_second: 10 };
    assert_eq!(rate_limit_quota(&on), Some(10));
    assert_eq!(rate_limit_quota(&zero), None);
    assert_eq!(rate_limit_quota(&off), None);
    assert_eq!(rate_limit_quota(&RateLimitingSettings::default()), None);
}

#[test]
fn events_pass_without_a_limiter() {
    assert!(event_allowed(None));
    assert!(event_allowed(Some(true)));
    assert!(!event_allowed(Some(false)));
}

#[test]
fn sampling_needs_the_inner_sampler_and_the_limiter() {
    assert!(sampled_with_limit(true, None));
    assert!(sampled_with_limit(true, Some(true)));
    assert!(!sampled_with_limit(true, Some(false)));
    assert!(!sampled_with_limit(false, None));
    assert!(!sampled_with_limit(false, Some(true)));
}

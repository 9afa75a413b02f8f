use foundations_telemetry::log_nesting::{
    check_nesting_level, exceeded_max_nesting_error, NestingCheck, MAX_NESTING,
};

#[test]
fn nesting_is_refused_from_the_limit_on() {
    let mut level = 0;
    for _ in 0..MAX_NESTING - 1 {
        assert_eq!(check_nesting_level(&mut level), NestingCheck::Proceed);
    }
    assert_eq!(level, MAX_NESTING - 1);
    assert_eq!(check_nesting_level(&mut level), NestingCheck::LimitReached);
    assert_eq!(check_nesting_level(&mut level), NestingCheck::Refused);
    assert_eq!(level, MAX_NESTING + 1);
}

#[test]
fn the_level_saturates() {
    let mut level = u32::MAX;
    assert_eq!(check_nesting_level(&mut level), NestingCheck::Refused);
    assert_eq!(level, u32::MAX);
    assert!(exceeded_max_nesting_error().starts_with("foundations: maximum logger KV nesting"));
}

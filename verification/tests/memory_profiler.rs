use foundations_telemetry::memory_profiler::{
    check_sample_interval, ProfilerSettingsError, MAX_SAMPLE_INTERVAL,
};

#[test]
fn sample_interval_out_of_bounds() {
    assert_eq!(check_sample_interval(128), Err(ProfilerSettingsError::SampleIntervalOutOfRange));
    assert!(check_sample_interval(128).unwrap_err().message().contains("[0, 64]"));
}

#[test]
fn sample_intervals_up_to_the_maximum_are_accepted() {
    assert_eq!(check_sample_interval(0), Ok(()));
    assert_eq!(check_sample_interval(19), Ok(()));
    assert_eq!(check_sample_interval(MAX_SAMPLE_INTERVAL), Ok(()));
    assert!(check_sample_interval(MAX_SAMPLE_INTERVAL + 1).is_err());
}

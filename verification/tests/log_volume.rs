use foundations_telemetry::log_volume::{level_str, log_record_count, LogVolumeMetrics};
use foundations_telemetry::settings::LogVerbosity;

#[test]
fn records_are_counted_by_level_name() {
    let mut metrics = LogVolumeMetrics::new();
    metrics.record(LogVerbosity::Info);
    metrics.record(LogVerbosity::Info);
    metrics.record(LogVerbosity::Warning);
    metrics.record(LogVerbosity::Critical);

    assert_eq!(log_record_count(&metrics, "INFO"), 2);
    assert_eq!(log_record_count(&metrics, "WARN"), 1);
    assert_eq!(log_record_count(&metrics, "CRITICAL"), 1);
    assert_eq!(log_record_count(&metrics, "ERROR"), 0);
    assert_eq!(log_record_count(&metrics, "DEBUG"), 0);
    assert_eq!(log_record_count(&metrics, "TRACE"), 0);
}

#[test]
fn unknown_level_names_count_nothing() {
    let mut metrics = LogVolumeMetrics::new();
    metrics.record(LogVerbosity::Warning);
    assert_eq!(log_record_count(&metrics, "WARNING"), 0);
    assert_eq!(log_record_count(&metrics, "warn"), 0);
    assert_eq!(log_record_count(&metrics, ""), 0);
}

#[test]
fn level_names() {
    assert_eq!(level_str(LogVerbosity::Critical), "CRITICAL");
    assert_eq!(level_str(LogVerbosity::Error), "ERROR");
    assert_eq!(level_str(LogVerbosity::Warning), "WARN");
    assert_eq!(level_str(LogVerbosity::Info), "INFO");
    assert_eq!(level_str(LogVerbosity::Debug), "DEBUG");
    assert_eq!(level_str(LogVerbosity::Trace), "TRACE");
}

#[test]
fn each_record_counts_once_under_its_level() {
    let mut metrics = LogVolumeMetrics::new();
    let levels = [
        LogVerbosity::Warning,
        LogVerbosity::Info,
        LogVerbosity::Warning,
        LogVerbosity::Error,
        LogVerbosity::Warning,
    ];
    for level in levels {
        metrics.record(level);
    }
    assert_eq!(metrics.get(LogVerbosity::Warning), 3);
    assert_eq!(metrics.get(LogVerbosity::Info), 1);
    assert_eq!(metrics.get(LogVerbosity::Error), 1);
    assert_eq!(metrics.get(LogVerbosity::Critical), 0);
    assert_eq!(metrics.get(LogVerbosity::Debug), 0);
    assert_eq!(metrics.get(LogVerbosity::Trace), 0);
}

use foundations_telemetry::runtime_metrics::{
    blocking_threads, local_queue_depth, RuntimeCoreValues, RuntimeMetrics, RuntimeSample,
    RuntimeWorkerValues,
};
use foundations_telemetry::runtime_monitor::{RuntimeMonitor, RuntimeRejection};

fn sample(n: u64, workers: usize) -> RuntimeSample {
    let core = RuntimeCoreValues {
        workers: workers as u64,
        blocking_threads: n,
        num_alive_tasks: 0,
        idle_blocking_threads: 0,
        remote_schedules_total: 0,
        budget_forced_yields_total: 0,
        io_driver_fd_registrations_total: 0,
        io_driver_fd_deregistrations_total: 0,
        io_driver_fd_readies_total: 0,
        injection_queue_depth: 0,
        blocking_queue_depth: 0,
    };
    let w = RuntimeWorkerValues {
        parks_total: 0,
        noops_total: 0,
        task_steals_total: 0,
        steal_operations_total: 0,
        polls_total: 0,
        busy_duration_micros_total: 0,
        local_schedules_total: 0,
        overflows_total: 0,
        local_queue_depth: n,
        mean_poll_time_micros: 0,
    };
    RuntimeSample { core, workers: vec![w; workers] }
}

#[test]
fn names_and_ids_must_be_given_for_all_or_none() {
    let mut monitor = RuntimeMonitor::new();
    assert_eq!(monitor.check_runtime(&Some("a".to_string()), None), None);
    monitor.add_runtime(Some("a".to_string()), None);
    assert_eq!(
        monitor.check_runtime(&None, None),
        Some(RuntimeRejection::InconsistentLabels)
    );
    assert_eq!(
        monitor.check_runtime(&Some("b".to_string()), Some(1)),
        Some(RuntimeRejection::InconsistentLabels)
    );
    assert_eq!(
        monitor.check_runtime(&Some("a".to_string()), None),
        Some(RuntimeRejection::DuplicateLabels)
    );
    assert_eq!(monitor.check_runtime(&Some("b".to_string()), None), None);
}

#[test]
fn ids_must_be_unique() {
    let mut monitor = RuntimeMonitor::default();
    monitor.add_runtime(None, Some(1));
    assert_eq!(
        monitor.check_runtime(&None, Some(1)),
        Some(RuntimeRejection::DuplicateLabels)
    );
    assert_eq!(monitor.check_runtime(&None, Some(2)), None);
}

#[test]
fn unlabelled_runtimes_can_be_added_repeatedly() {
    let mut monitor = RuntimeMonitor::new();
    monitor.add_runtime(None, None);
    assert_eq!(monitor.check_runtime(&None, None), None);
}

#[test]
fn samples_are_recorded_in_the_order_of_addition() {
    let mut monitor = RuntimeMonitor::new();
    monitor.add_runtime(None, Some(1));
    monitor.add_runtime(None, Some(2));
    let mut metrics = RuntimeMetrics::new();
    monitor.record_sample(&mut metrics, &vec![sample(10, 1), sample(20, 2)]);
    assert_eq!(blocking_threads(&metrics, &None, Some(1)), 10);
    assert_eq!(blocking_threads(&metrics, &None, Some(2)), 20);
    assert_eq!(local_queue_depth(&metrics, &None, Some(2), 1), 20);
    assert_eq!(local_queue_depth(&metrics, &None, Some(1), 1), 0);
}

use foundations_telemetry::runtime_metrics::{
    blocking_queue_depth, busy_duration_micros_total, deregister_runtime, injection_queue_depth,
    mean_poll_time_micros, monitored_runtimes, num_alive_tasks, parks_total, polls_total,
    record_runtime_metrics_sample, register_runtime, workers, RuntimeCoreValues, RuntimeMetrics,
    RuntimeRegistry, RuntimeSample, RuntimeWorkerValues,
};

fn core_values(n: u64) -> RuntimeCoreValues {
    RuntimeCoreValues {
        workers: n,
        blocking_threads: n + 1,
        num_alive_tasks: n + 2,
        idle_blocking_threads: n + 3,
        remote_schedules_total: n + 4,
        budget_forced_yields_total: n + 5,
        io_driver_fd_registrations_total: n + 6,
        io_driver_fd_deregistrations_total: n + 7,
        io_driver_fd_readies_total: n + 8,
        injection_queue_depth: n + 9,
        blocking_queue_depth: n + 10,
    }
}

fn worker(n: u64) -> RuntimeWorkerValues {
    RuntimeWorkerValues {
        parks_total: n,
        noops_total: n + 1,
        task_steals_total: n + 2,
        steal_operations_total: n + 3,
        polls_total: n + 4,
        busy_duration_micros_total: n + 5,
        local_schedules_total: n + 6,
        overflows_total: n + 7,
        local_queue_depth: n + 8,
        mean_poll_time_micros: n + 9,
    }
}

#[test]
fn registered_runtimes_are_sampled_in_key_order() {
    let mut registry = RuntimeRegistry::new();
    let a = register_runtime(&mut registry, Some("a".to_string()), None);
    let b = register_runtime(&mut registry, Some("b".to_string()), Some(7));
    assert_ne!(a.value(), b.value());

    let runtimes = monitored_runtimes(&registry);
    assert_eq!(runtimes.len(), 2);
    assert!(runtimes[0].0 < runtimes[1].0);
    assert_eq!(runtimes[0].1.runtime_name.as_deref(), Some("a"));
    assert_eq!(runtimes[1].1.runtime_id, Some(7));

    let mut metrics = RuntimeMetrics::new();
    let samples = vec![
        RuntimeSample { core: core_values(2), workers: vec![worker(100), worker(200)] },
        RuntimeSample { core: core_values(1), workers: vec![worker(300)] },
    ];
    record_runtime_metrics_sample(&registry, &mut metrics, &samples);

    let a_name = Some("a".to_string());
    let b_name = Some("b".to_string());
    assert_eq!(workers(&metrics, &a_name, None), 2);
    assert_eq!(num_alive_tasks(&metrics, &a_name, None), 4);
    assert_eq!(blocking_queue_depth(&metrics, &a_name, None), 12);
    assert_eq!(workers(&metrics, &b_name, Some(7)), 1);
    assert_eq!(injection_queue_depth(&metrics, &b_name, Some(7)), 10);
    assert_eq!(parks_total(&metrics, &a_name, None, 0), 100);
    assert_eq!(polls_total(&metrics, &a_name, None, 1), 204);
    assert_eq!(mean_poll_time_micros(&metrics, &b_name, Some(7), 0), 309);
    // Series that no sample set read as zero.
    assert_eq!(workers(&metrics, &b_name, None), 0);
    assert_eq!(busy_duration_micros_total(&metrics, &b_name, Some(7), 1), 0);
}

#[test]
fn deregistering_removes_the_runtime_once() {
    let mut registry = RuntimeRegistry::new();
    let a = register_runtime(&mut registry, None, Some(1));
    let b = register_runtime(&mut registry, None, Some(2));
    assert!(registry.is_registered(&None, Some(1)));
    assert!(deregister_runtime(&mut registry, a));
    assert!(!registry.is_registered(&None, Some(1)));
    assert!(registry.is_registered(&None, Some(2)));
    let runtimes = monitored_runtimes(&registry);
    assert_eq!(runtimes.len(), 1);
    assert_eq!(runtimes[0].0, b.value());
}

#[test]
fn deregistering_an_unknown_key_changes_nothing() {
    let mut registry = RuntimeRegistry::new();
    let a = register_runtime(&mut registry, None, None);
    let again = register_runtime(&mut RuntimeRegistry::new(), None, Some(9));
    assert_eq!(again.value(), a.value());
    assert!(deregister_runtime(&mut registry, a));
    assert!(!deregister_runtime(&mut registry, again));
    assert!(monitored_runtimes(&registry).is_empty());
}

#[test]
fn a_freed_key_is_reused_and_its_new_runtime_sampled() {
    let mut registry = RuntimeRegistry::new();
    let a = register_runtime(&mut registry, Some("x".to_string()), None);
    let key = a.value();
    assert!(deregister_runtime(&mut registry, a));
    let b = register_runtime(&mut registry, Some("y".to_string()), None);
    assert_eq!(b.value(), key);
    let mut metrics = RuntimeMetrics::new();
    record_runtime_metrics_sample(
        &registry,
        &mut metrics,
        &vec![RuntimeSample { core: core_values(5), workers: vec![] }],
    );
    assert_eq!(workers(&metrics, &Some("y".to_string()), None), 5);
    assert_eq!(workers(&metrics, &Some("x".to_string()), None), 0);
}

#[test]
fn a_later_sample_replaces_the_values() {
    let mut registry = RuntimeRegistry::new();
    register_runtime(&mut registry, None, Some(3));
    let mut metrics = RuntimeMetrics::new();
    record_runtime_metrics_sample(
        &registry,
        &mut metrics,
        &vec![RuntimeSample { core: core_values(4), workers: vec![worker(1), worker(2)] }],
    );
    record_runtime_metrics_sample(
        &registry,
        &mut metrics,
        &vec![RuntimeSample { core: core_values(1), workers: vec![worker(50)] }],
    );
    assert_eq!(workers(&metrics, &None, Some(3)), 1);
    assert_eq!(parks_total(&metrics, &None, Some(3), 0), 50);
    // The second worker keeps the value of the earlier sample.
    assert_eq!(parks_total(&metrics, &None, Some(3), 1), 2);
}

use foundations_telemetry::tracing_metrics::{
    max_queue_size, queue_size, spans_dropped, spans_total, TracingMetrics,
};

#[test]
fn span_metrics_for_five_spans_into_a_queue_of_three() {
    let mut metrics = TracingMetrics::new();
    // The queue takes three spans and refuses the next two.
    for sent in [true, true, true, false, false] {
        metrics.record_span(sent);
    }
    assert_eq!(spans_total(&metrics), 5);
    assert_eq!(spans_dropped(&metrics), 2);

    // One span is received, two are left.
    metrics.record_queue_len(2);
    assert_eq!(queue_size(&metrics), 2);
    metrics.record_queue_len(0);
    assert_eq!(queue_size(&metrics), 0);
}

#[test]
fn unbounded_queue_reports_usize_max() {
    let mut metrics = TracingMetrics::new();
    metrics.record_max_queue_size(None);
    assert_eq!(max_queue_size(&metrics), usize::MAX as u64);
    metrics.record_max_queue_size(Some(1_000_000));
    assert_eq!(max_queue_size(&metrics), 1_000_000);
}

#[test]
fn span_counters_wrap() {
    let mut metrics = TracingMetrics::new();
    metrics.spans_total = u64::MAX;
    metrics.spans_dropped = u64::MAX;
    metrics.record_span(false);
    assert_eq!(spans_total(&metrics), 0);
    assert_eq!(spans_dropped(&metrics), 0);
}

use foundations_telemetry::process_metrics::{
    convert_family, CollectedFamily, CollectedKind, CollectedMetric, EncodedKind,
};

fn family(kind: CollectedKind, name: &str) -> CollectedFamily<f64> {
    CollectedFamily {
        name: name.to_string(),
        help: format!("help for {name}"),
        kind,
        metrics: vec![
            CollectedMetric {
                labels: vec![("pid".to_string(), "42".to_string())],
                counter: 12.5,
                gauge: 3.0,
            },
            CollectedMetric {
                labels: vec![],
                counter: 7.0,
                gauge: 9.25,
            },
        ],
    }
}

#[test]
fn counter_family_keeps_counter_values() {
    let encoded = convert_family(family(CollectedKind::Counter, "process_cpu_seconds_total"))
        .expect("counters are carried over");
    assert_eq!(encoded.name, "process_cpu_seconds_total");
    assert_eq!(encoded.help, "help for process_cpu_seconds_total");
    assert_eq!(encoded.kind, EncodedKind::Counter);
    assert_eq!(encoded.metrics.len(), 2);
    assert_eq!(
        encoded.metrics[0].labels,
        vec![("pid".to_string(), "42".to_string())]
    );
    assert_eq!(encoded.metrics[0].counter, Some(12.5));
    assert_eq!(encoded.metrics[0].gauge, None);
    assert!(encoded.metrics[1].labels.is_empty());
    assert_eq!(encoded.metrics[1].counter, Some(7.0));
    assert_eq!(encoded.metrics[1].gauge, None);
}

#[test]
fn gauge_family_keeps_gauge_values() {
    let encoded = convert_family(family(CollectedKind::Gauge, "process_open_fds"))
        .expect("gauges are carried over");
    assert_eq!(encoded.kind, EncodedKind::Gauge);
    assert_eq!(encoded.metrics.len(), 2);
    assert_eq!(encoded.metrics[0].counter, None);
    assert_eq!(encoded.metrics[0].gauge, Some(3.0));
    assert_eq!(encoded.metrics[1].gauge, Some(9.25));
}

#[test]
fn other_family_kinds_are_left_out() {
    for kind in [
        CollectedKind::Summary,
        CollectedKind::Untyped,
        CollectedKind::Histogram,
        CollectedKind::GaugeHistogram,
    ] {
        assert!(convert_family(family(kind, "process_other")).is_none());
    }
}

#[test]
fn empty_family_converts_to_empty_family() {
    let empty = CollectedFamily::<f64> {
        name: "process_threads".to_string(),
        help: String::new(),
        kind: CollectedKind::Gauge,
        metrics: vec![],
    };
    let encoded = convert_family(empty).expect("gauges are carried over");
    assert!(encoded.metrics.is_empty());
}

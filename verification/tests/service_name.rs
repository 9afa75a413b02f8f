use foundations_telemetry::service_name::{
    service_name, subsystem_label, subsystem_prefix, MetricsServiceName, ServiceNameFormat,
};

#[test]
fn prefix_format_prefixes_subsystems_that_ask() {
    let name = MetricsServiceName::new("svc", ServiceNameFormat::MetricPrefix);
    assert_eq!(name, MetricsServiceName::Prefix("svc".to_string()));
    assert_eq!(subsystem_prefix(&name, "http", true), "svc_http");
    assert_eq!(subsystem_prefix(&name, "http", false), "http");
    assert_eq!(subsystem_label(&name), None);
}

#[test]
fn label_format_labels_every_series() {
    let name =
        MetricsServiceName::new("svc", ServiceNameFormat::LabelWithName("service".to_string()));
    assert_eq!(name, MetricsServiceName::Label("service".to_string(), "svc".to_string()));
    assert_eq!(subsystem_prefix(&name, "http", true), "http");
    assert_eq!(subsystem_label(&name), Some(("service".to_string(), "svc".to_string())));
}

#[test]
fn service_name_before_and_after_init() {
    assert_eq!(service_name(&None), "undefined");
    assert_eq!(service_name(&Some("svc".to_string())), "svc");
}

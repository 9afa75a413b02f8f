use foundations_telemetry::settings::{
    verbosity, ListenAddr, LivenessTrackingSettings, LogFormat, LogOutput, LogVerbosity,
    LoggingSettings, OpenTelemetryGrpcOutputSettings, OpenTelemetryOutputProtocol,
    OpenTelemetryOutputSettings, OtlpUdsOutputSettings, TelemetryServerSettings,
    UserTracesOutput, UserTracingSettings,
};

#[test]
fn logging_defaults() {
    let s = LoggingSettings::default();
    assert_eq!(s.output, LogOutput::Terminal);
    assert_eq!(s.format, LogFormat::Text);
    assert_eq!(s.verbosity, LogVerbosity::Info);
    assert!(s.redact_keys.is_empty());
    assert!(!s.rate_limit.enabled);
    assert!(!s.log_volume_metrics.enabled);
    assert_eq!(verbosity(&s), LogVerbosity::Info);
}

#[test]
fn verbosity_reads_the_settings() {
    let s = LoggingSettings { verbosity: LogVerbosity::Trace, ..LoggingSettings::default() };
    assert_eq!(verbosity(&s), LogVerbosity::Trace);
}

#[test]
fn otlp_defaults() {
    let grpc = OpenTelemetryGrpcOutputSettings::default();
    assert_eq!(grpc.endpoint_url, "http://localhost:4317");
    assert_eq!(grpc.request_timeout_seconds, 10);
    assert_eq!(grpc.num_tasks, 1);
    assert_eq!(grpc.max_batch_size, 512);

    let out = OpenTelemetryOutputSettings::default();
    assert_eq!(out.endpoint_url, "http://localhost:4317");
    assert_eq!(out.request_timeout_seconds, 10);
    assert_eq!(out.protocol, OpenTelemetryOutputProtocol::Grpc);
}

#[test]
fn server_defaults() {
    let s = TelemetryServerSettings::default();
    assert!(s.enabled);
    assert_eq!(s.addr, ListenAddr::Tcp("127.0.0.1:0".to_string()));
}

#[test]
fn user_tracing_defaults() {
    let s = UserTracingSettings::default();
    assert!(s.enabled);
    assert_eq!(s.max_queue_size, Some(1_000_000));
    assert_eq!(
        s.output,
        UserTracesOutput::OtlpUds(OtlpUdsOutputSettings {
            socket_path: String::new(),
            num_tasks: 2,
            max_batch_size: 512,
        })
    );
}

#[test]
fn liveness_tracking_defaults() {
    let s = LivenessTrackingSettings::default();
    assert!(!s.enabled);
    assert!(!s.track_all_spans);
}

use foundations_telemetry::settings::LivenessTrackingSettings;
use foundations_telemetry::trace_context::TraceState;
use foundations_telemetry::trace_log::{
    escape_str, get_active_traces, span_tracking, LiveSpan, SpanTracking, TraceEventType,
    TraceLogBuilder,
};

#[test]
fn no_live_spans_gives_only_the_closing_event() {
    assert_eq!(
        get_active_traces(&vec![], 42),
        "[{\"pid\":1,\"name\":\"Trace dump requested\",\"ph\":\"i\",\"ts\":42,\"s\":\"g\"}]"
    );
}

#[test]
fn live_spans_begin_and_end() {
    let state = TraceState { trace_id_high: 0, trace_id_low: 0xab, span_id: 1, flags: 1 };
    let spans = vec![
        LiveSpan { state: Some(state), name: "root".to_string(), start_us: 5, finish_us: None },
        LiveSpan { state: None, name: "no context".to_string(), start_us: 6, finish_us: None },
        LiveSpan { state: Some(state), name: "q\"x".to_string(), start_us: 7, finish_us: Some(9) },
    ];
    let expected = [
        "[",
        "{\"pid\":1,\"name\":\"root\",\"cat\":\"\",\"ph\":\"B\",\"ts\":5,\"id\":\"ab\"},",
        "{\"pid\":1,\"name\":\"root\",\"cat\":\"\",\"ph\":\"E\",\"ts\":100,\"id\":\"ab\"},",
        "{\"pid\":1,\"name\":\"q\\\"x\",\"cat\":\"\",\"ph\":\"B\",\"ts\":7,\"id\":\"ab\"},",
        "{\"pid\":1,\"name\":\"q\\\"x\",\"cat\":\"\",\"ph\":\"E\",\"ts\":9,\"id\":\"ab\"},",
        "{\"pid\":1,\"name\":\"Trace dump requested\",\"ph\":\"i\",\"ts\":100,\"s\":\"g\"}]",
    ]
    .concat();
    assert_eq!(get_active_traces(&spans, 100), expected);
}

#[test]
fn builder_escapes_names_and_categories() {
    let mut b = TraceLogBuilder::new();
    b.write_event("1", "a\nb", "c\td", TraceEventType::Begin, 0);
    let out = b.finalize(3);
    assert_eq!(
        out,
        "[{\"pid\":1,\"name\":\"a\\nb\",\"cat\":\"c\\td\",\"ph\":\"B\",\"ts\":0,\"id\":\"1\"},{\"pid\":1,\"name\":\"Trace dump requested\",\"ph\":\"i\",\"ts\":3,\"s\":\"g\"}]"
    );
}

#[test]
fn sampled_spans_are_listed_when_tracking_is_enabled() {
    let on = LivenessTrackingSettings { enabled: true, track_all_spans: false };
    let all = LivenessTrackingSettings { enabled: true, track_all_spans: true };
    let off = LivenessTrackingSettings::default();
    assert_eq!(span_tracking(&on, true), SpanTracking::Listed);
    assert_eq!(span_tracking(&on, false), SpanTracking::Inactive);
    assert_eq!(span_tracking(&all, false), SpanTracking::Listed);
    assert_eq!(span_tracking(&off, true), SpanTracking::Unlisted);
    assert_eq!(span_tracking(&off, false), SpanTracking::Inactive);
}

#[test]
fn names_are_escaped_as_json_strings() {
    assert_eq!(escape_str("é'x"), "é'x");
    assert_eq!(escape_str("a\"b\\c"), "a\\\"b\\\\c");
    assert_eq!(escape_str("\u{1}\u{8}\u{c}\u{1f}"), "\\u0001\\b\\f\\u001f");
    assert_eq!(escape_str("\u{7f}"), "\u{7f}");
}

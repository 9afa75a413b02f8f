use foundations_telemetry::otlp::SpanReference;
use foundations_telemetry::otlp_span::{
    convert_span, AttributeValue, FinishedSpanData, SpanLog, SpanTag, TagValue,
};

fn span_with(tags: Vec<SpanTag<f64>>, logs: Vec<SpanLog>) -> FinishedSpanData<f64> {
    FinishedSpanData {
        trace_id_high: 0x0102030405060708,
        trace_id_low: 0x1112131415161718,
        span_id: 0x2122232425262728,
        is_sampled: true,
        references: vec![
            SpanReference::FollowsFrom(7),
            SpanReference::ChildOf(0x0a0b),
            SpanReference::ChildOf(9),
        ],
        operation_name: "handle_request".to_string(),
        start_nanos: Some(1_000),
        finish_nanos: Some((1u128 << 64) + 5),
        tags,
        logs,
    }
}

#[test]
fn span_ids_flags_and_times_are_converted() {
    let converted = convert_span(span_with(vec![], vec![]), "my-service");
    let span = converted.span;
    assert_eq!(span.trace_id, vec![1, 2, 3, 4, 5, 6, 7, 8, 0x11, 0x12, 0x13, 0x14, 0x15, 0x16, 0x17, 0x18]);
    assert_eq!(span.span_id, vec![0x21, 0x22, 0x23, 0x24, 0x25, 0x26, 0x27, 0x28]);
    assert_eq!(span.parent_span_id, vec![0, 0, 0, 0, 0, 0, 0x0a, 0x0b]);
    assert_eq!(span.flags, 1);
    assert_eq!(span.name, "handle_request");
    assert_eq!(span.start_time_unix_nano, 1_000);
    assert_eq!(span.end_time_unix_nano, 5);
    assert!(span.attributes.is_empty());
    assert!(span.events.is_empty());
    assert!(!span.error_status);
}

#[test]
fn resource_names_the_service() {
    let converted = convert_span(span_with(vec![], vec![]), "my-service");
    assert_eq!(converted.resource_attributes.len(), 1);
    assert_eq!(converted.resource_attributes[0].key, "service.name");
    assert!(matches!(
        &converted.resource_attributes[0].value,
        AttributeValue::Str(name) if name == "my-service"
    ));
}

#[test]
fn tags_become_attributes_and_error_tag_sets_status() {
    let tags = vec![
        SpanTag { name: "flag".to_string(), value: TagValue::Boolean(true) },
        SpanTag { name: "ratio".to_string(), value: TagValue::Float(0.25) },
        SpanTag { name: "error".to_string(), value: TagValue::Integer(-3) },
        SpanTag { name: "peer".to_string(), value: TagValue::String("db".to_string()) },
    ];
    let span = convert_span(span_with(tags, vec![]), "svc").span;
    assert!(span.error_status);
    assert_eq!(span.attributes.len(), 4);
    assert_eq!(span.attributes[0].key, "flag");
    assert!(matches!(span.attributes[0].value, AttributeValue::Bool(true)));
    assert_eq!(span.attributes[1].key, "ratio");
    assert!(matches!(span.attributes[1].value, AttributeValue::Double(v) if v == 0.25));
    assert_eq!(span.attributes[2].key, "error");
    assert!(matches!(span.attributes[2].value, AttributeValue::Int(-3)));
    assert_eq!(span.attributes[3].key, "peer");
    assert!(matches!(&span.attributes[3].value, AttributeValue::Str(s) if s == "db"));
}

#[test]
fn span_without_error_tag_has_no_status() {
    let tags = vec![SpanTag { name: "errors".to_string(), value: TagValue::Boolean(true) }];
    let span = convert_span(span_with(tags, vec![]), "svc").span;
    assert!(!span.error_status);
}

#[test]
fn logs_become_events() {
    let logs = vec![
        SpanLog {
            time_nanos: Some(42),
            fields: vec![("event".to_string(), "retry".to_string())],
        },
        SpanLog { time_nanos: None, fields: vec![] },
    ];
    let span = convert_span(span_with(vec![], logs), "svc").span;
    assert_eq!(span.events.len(), 2);
    assert_eq!(span.events[0].name, "Log entry");
    assert_eq!(span.events[0].time_unix_nano, 42);
    assert_eq!(span.events[0].attributes, vec![("event".to_string(), "retry".to_string())]);
    assert_eq!(span.events[1].name, "Log entry");
    assert_eq!(span.events[1].time_unix_nano, 0);
    assert!(span.events[1].attributes.is_empty());
}

#[test]
fn span_without_parent_and_unsampled() {
    let mut data = span_with(vec![], vec![]);
    data.references = vec![SpanReference::FollowsFrom(3)];
    data.is_sampled = false;
    data.start_nanos = None;
    let span = convert_span(data, "svc").span;
    assert!(span.parent_span_id.is_empty());
    assert_eq!(span.flags, 0);
    assert_eq!(span.start_time_unix_nano, 0);
}

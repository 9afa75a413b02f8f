use foundations_telemetry::traceparent::TraceparentContext;
use foundations_telemetry::trace_context::{
    span_is_sampled, trace_id, w3c_traceparent, CurrentSpan, TraceState,
};

fn span(high: u64, low: u64, span_id: u64, flags: u8) -> CurrentSpan {
    CurrentSpan {
        is_sampled: flags & 1 == 1,
        state: Some(TraceState { trace_id_high: high, trace_id_low: low, span_id, flags }),
    }
}

#[test]
fn no_current_span() {
    assert!(!span_is_sampled(None));
    assert_eq!(trace_id(None), None);
    assert_eq!(w3c_traceparent(None), None);
}

#[test]
fn span_without_context() {
    let s = CurrentSpan { is_sampled: false, state: None };
    assert!(!span_is_sampled(Some(&s)));
    assert_eq!(trace_id(Some(&s)), None);
    assert_eq!(w3c_traceparent(Some(&s)), None);
}

#[test]
fn traceparent_pads_every_field() {
    let s = span(0x4bf92f3577b34da6, 0xa3ce929d0e0e4736, 0xf067aa0ba902b7, 1);
    assert!(span_is_sampled(Some(&s)));
    assert_eq!(
        w3c_traceparent(Some(&s)).as_deref(),
        Some("00-4bf92f3577b34da6a3ce929d0e0e4736-00f067aa0ba902b7-01")
    );
    let small = span(0, 1, 2, 0);
    assert_eq!(
        w3c_traceparent(Some(&small)).as_deref(),
        Some("00-00000000000000000000000000000001-0000000000000002-00")
    );
}

#[test]
fn trace_id_text_drops_a_zero_high_half() {
    let s = span(0, 0xabc, 1, 1);
    assert_eq!(trace_id(Some(&s)).as_deref(), Some("abc"));
    let t = span(0x1, 0xabc, 1, 1);
    assert_eq!(trace_id(Some(&t)).as_deref(), Some("10000000000000abc"));
}

#[test]
fn outbound_traceparent_parses_back() {
    let s = span(0x4bf92f3577b34da6, 0xa3ce929d0e0e4736, 0xf067aa0ba902b7, 3);
    let text = w3c_traceparent(Some(&s)).unwrap();
    let parsed = TraceparentContext::parse(text.as_bytes()).expect("valid");
    assert_eq!(parsed.version, 0);
    let mut trace_id = [0u8; 16];
    trace_id[..8].copy_from_slice(&0x4bf92f3577b34da6u64.to_be_bytes());
    trace_id[8..].copy_from_slice(&0xa3ce929d0e0e4736u64.to_be_bytes());
    assert_eq!(parsed.trace_id, trace_id);
    assert_eq!(parsed.parent_id, 0xf067aa0ba902b7u64.to_be_bytes());
    assert_eq!(parsed.trace_flags, 3);
    assert!(parsed.is_sampled());
}

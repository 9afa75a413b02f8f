use foundations_telemetry::trace_context::TraceState;
use foundations_telemetry::trace_fork::{fork_link_tags, fork_ref_span_name};

fn state(trace_id_high: u64, trace_id_low: u64, span_id: u64) -> TraceState {
    TraceState { trace_id_high, trace_id_low, span_id, flags: 1 }
}

fn pair(name: &str, value: &str) -> (String, String) {
    (name.to_string(), value.to_string())
}

#[test]
fn reference_span_is_named_after_the_root() {
    assert_eq!(fork_ref_span_name("batch job"), "[batch job ref]");
    assert_eq!(fork_ref_span_name(""), "[ ref]");
}

#[test]
fn all_contexts_give_all_tags() {
    let links = fork_link_tags(
        Some(state(0, 0xabc, 5)),
        Some(state(0x12, 0x34, 6)),
        Some(state(0x12, 0x34, 0xbeef)),
    );
    assert_eq!(
        links.ref_span_tags,
        vec![
            pair(
                "note",
                "current trace was forked at this point, see the `trace_id` field to obtain the forked trace"
            ),
            pair("trace_id", "abc"),
        ]
    );
    assert_eq!(
        links.root_span_tags,
        vec![
            pair("trace_id", "120000000000000034"),
            pair("fork_of_span_id", &format!("{:32x}", 0xbeefu64)),
        ]
    );
    assert_eq!(links.root_span_tags[1].1.len(), 32);
    assert!(links.root_span_tags[1].1.ends_with(" beef"));
}

#[test]
fn spans_without_context_give_no_tags() {
    let links = fork_link_tags(None, None, None);
    assert!(links.ref_span_tags.is_empty());
    assert!(links.root_span_tags.is_empty());
}

#[test]
fn reference_span_id_alone() {
    let links = fork_link_tags(None, None, Some(state(1, 2, u64::MAX)));
    assert!(links.ref_span_tags.is_empty());
    assert_eq!(
        links.root_span_tags,
        vec![pair("fork_of_span_id", "                ffffffffffffffff")]
    );
}

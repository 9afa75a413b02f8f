use foundations_telemetry::otlp::group_by_zone;
use foundations_telemetry::otlp::{OtlpUdsClient, OtlpUdsSetupError};
use foundations_telemetry::settings::OtlpUdsOutputSettings;
use foundations_telemetry::otlp::{
    convert_parent_span_id, convert_sampled_flag, convert_span_id, convert_time,
    convert_trace_id, has_error_tag, to_be_bytes, SpanReference,
};

#[test]
fn ids_are_big_endian() {
    assert_eq!(to_be_bytes(0x0102030405060708), vec![1, 2, 3, 4, 5, 6, 7, 8]);
    assert_eq!(to_be_bytes(0xa1b2c3d4e5f60718), 0xa1b2c3d4e5f60718u64.to_be_bytes().to_vec());
    assert_eq!(
        convert_trace_id(0x1122334455667788, 0x9900aabbccddeeff),
        vec![
            0x11, 0x22, 0x33, 0x44, 0x55, 0x66, 0x77, 0x88, 0x99, 0x00, 0xaa, 0xbb, 0xcc, 0xdd,
            0xee, 0xff
        ]
    );
    assert_eq!(convert_span_id(1), vec![0, 0, 0, 0, 0, 0, 0, 1]);
}

#[test]
fn parent_is_the_first_child_of_reference() {
    assert_eq!(convert_parent_span_id(&vec![]), Vec::<u8>::new());
    assert_eq!(
        convert_parent_span_id(&vec![SpanReference::FollowsFrom(5)]),
        Vec::<u8>::new()
    );
    assert_eq!(
        convert_parent_span_id(&vec![
            SpanReference::FollowsFrom(5),
            SpanReference::ChildOf(0x0a0b),
            SpanReference::ChildOf(7),
        ]),
        vec![0, 0, 0, 0, 0, 0, 0x0a, 0x0b]
    );
}

#[test]
fn sampled_flag() {
    assert_eq!(convert_sampled_flag(true), 1);
    assert_eq!(convert_sampled_flag(false), 0);
}

#[test]
fn error_status_needs_a_tag_named_error() {
    let names = |v: &[&str]| v.iter().map(|s| s.to_string()).collect::<Vec<_>>();
    assert!(has_error_tag(&names(&["http.status", "error"])));
    assert!(!has_error_tag(&names(&["errors", "Error"])));
    assert!(!has_error_tag(&vec![]));
}

#[test]
fn times_wrap_to_64_bits() {
    assert_eq!(convert_time(None), 0);
    assert_eq!(convert_time(Some(1_700_000_000_000_000_000)), 1_700_000_000_000_000_000);
    assert_eq!(convert_time(Some((1u128 << 64) + 5)), 5);
}

#[test]
fn new_rejects_empty_socket_path() {
    let err = OtlpUdsClient::new(&OtlpUdsOutputSettings {
        socket_path: String::new(),
        num_tasks: 1,
        max_batch_size: 8,
    })
    .unwrap_err();
    assert_eq!(err, OtlpUdsSetupError::EmptySocketPath);
    assert!(err.message().contains("socket_path"));

    let client = OtlpUdsClient::new(&OtlpUdsOutputSettings {
        socket_path: "/run/otlp.sock".to_string(),
        num_tasks: 1,
        max_batch_size: 8,
    })
    .unwrap();
    assert_eq!(client.socket_path(), "/run/otlp.sock");
}

#[test]
fn spans_are_grouped_by_zone_in_order_of_first_appearance() {
    let zones = vec![Some(7), None, Some(3), Some(7), None, Some(3), Some(9)];
    assert_eq!(
        group_by_zone(&zones),
        vec![(7, vec![0, 3]), (3, vec![2, 5]), (9, vec![6])]
    );
    assert_eq!(group_by_zone(&vec![None, None]), vec![]);
}

use foundations_telemetry::traceparent::TraceparentContext;

const VALID: &str = "00-11223344556677889900aabbccddeeff-a1b2c3d4e5f60718-01";

#[test]
fn parse_valid() {
    let tp = TraceparentContext::parse(VALID.as_bytes()).expect("valid");
    assert_eq!(tp.version, 0);
    assert_eq!(
        tp.trace_id,
        [
            0x11, 0x22, 0x33, 0x44, 0x55, 0x66, 0x77, 0x88, 0x99, 0x00, 0xaa, 0xbb, 0xcc, 0xdd,
            0xee, 0xff,
        ]
    );
    assert_eq!(tp.parent_id, [0xa1, 0xb2, 0xc3, 0xd4, 0xe5, 0xf6, 0x07, 0x18]);
    assert_eq!(tp.trace_flags, 0x01);
    assert!(tp.is_sampled());
}

#[test]
fn roundtrip() {
    let tp = TraceparentContext::parse(VALID.as_bytes()).expect("valid");
    assert_eq!(tp.to_traceparent_string(), VALID);
}

#[test]
fn uppercase_hex_accepted() {
    let uppercase = "00-11223344556677889900AABBCCDDEEFF-A1B2C3D4E5F60718-01";
    let tp = TraceparentContext::parse(uppercase.as_bytes()).expect("uppercase accepted");
    assert_eq!(tp.to_traceparent_string(), VALID);
}

#[test]
fn sampled_with_extra_flags() {
    let s = "00-11223344556677889900aabbccddeeff-a1b2c3d4e5f60718-03";
    let tp = TraceparentContext::parse(s.as_bytes()).expect("valid");
    assert_eq!(tp.trace_flags, 0x03);
    assert!(tp.is_sampled());
}

#[test]
fn unsampled_is_valid() {
    let s = "00-11223344556677889900aabbccddeeff-a1b2c3d4e5f60718-00";
    let tp = TraceparentContext::parse(s.as_bytes()).expect("valid");
    assert_eq!(tp.trace_flags, 0x00);
    assert!(!tp.is_sampled());
}

#[test]
fn empty() {
    assert!(TraceparentContext::parse(b"").is_none());
}

#[test]
fn degenerate() {
    assert!(TraceparentContext::parse(b"---").is_none());
    assert!(TraceparentContext::parse(b"00-1-1-00").is_none());
}

#[test]
fn wrong_total_length() {
    assert!(
        TraceparentContext::parse(b"00-11223344556677889900aabbccddeeff-a1b2c3d4e5f60718-0")
            .is_none()
    );
    assert!(
        TraceparentContext::parse(b"00-11223344556677889900aabbccddeeff-a1b2c3d4e5f60718-012")
            .is_none()
    );
}

#[test]
fn wrong_field_sizes() {
    assert!(
        TraceparentContext::parse(b"0-11223344556677889900aabbccddeeff0-a1b2c3d4e5f60718-01")
            .is_none()
    );
    assert!(
        TraceparentContext::parse(b"00-11223344556677889900aabbccddeeff0-1b2c3d4e5f60718-01")
            .is_none()
    );
    assert!(
        TraceparentContext::parse(b"00-11223344556677889900aabbccddee-a1b2c3d4e5f6071800-01")
            .is_none()
    );
    assert!(
        TraceparentContext::parse(b"00-1223344556677889900aabbccddeeff-a1b2c3d4e5f607180-01")
            .is_none()
    );
    assert!(
        TraceparentContext::parse(b"00-112233445566778899900aabbccddeeff-1b2c3d4e5f6071-01")
            .is_none()
    );
}

#[test]
fn empty_fields() {
    assert!(TraceparentContext::parse(b"00--a1b2c3d4e5f60718-01").is_none());
    assert!(TraceparentContext::parse(b"00-11223344556677889900aabbccddeeff--01").is_none());
}

#[test]
fn bad_hex() {
    assert!(
        TraceparentContext::parse(b"0g-11223344556677889900aabbccddeeff-a1b2c3d4e5f60718-01")
            .is_none()
    );
    assert!(
        TraceparentContext::parse(b"00-x1223344556677889900aabbccddeeff-a1b2c3d4e5f60718-01")
            .is_none()
    );
    assert!(
        TraceparentContext::parse(b"00-11223344556677889900aabbccddeeff-a1b2c3d4e5f6071x-01")
            .is_none()
    );
}

#[test]
fn unsupported_version() {
    assert!(
        TraceparentContext::parse(b"01-11223344556677889900aabbccddeeff-a1b2c3d4e5f60718-01")
            .is_none()
    );
    assert!(
        TraceparentContext::parse(b"ff-11223344556677889900aabbccddeeff-a1b2c3d4e5f60718-01")
            .is_none()
    );
}

#[test]
fn all_zero_trace_id_rejected() {
    let s = "00-00000000000000000000000000000000-a1b2c3d4e5f60718-01";
    assert!(TraceparentContext::parse(s.as_bytes()).is_none());
}

#[test]
fn all_zero_parent_id_rejected() {
    let s = "00-11223344556677889900aabbccddeeff-0000000000000000-01";
    assert!(TraceparentContext::parse(s.as_bytes()).is_none());
}

#[test]
fn non_utf8() {
    assert!(TraceparentContext::parse(&[0xff, 0xfe, 0xfd]).is_none());
}

#[test]
fn sign_in_version_or_flags_field_is_rejected() {
    let flags = "00-11223344556677889900aabbccddeeff-a1b2c3d4e5f60718-+1";
    assert!(TraceparentContext::parse(flags.as_bytes()).is_none());
    let version = "+0-11223344556677889900aabbccddeeff-a1b2c3d4e5f60718-01";
    assert!(TraceparentContext::parse(version.as_bytes()).is_none());
}

#[test]
fn format_then_parse_gives_back_the_context() {
    let tp = TraceparentContext {
        version: 0,
        trace_id: [0xde; 16],
        parent_id: [1, 2, 3, 4, 5, 6, 7, 8],
        trace_flags: 0xab,
    };
    let text = tp.to_traceparent_string();
    assert_eq!(text, "00-dededededededededededededededede-0102030405060708-ab");
    assert_eq!(TraceparentContext::parse(text.as_bytes()), Some(tp));
}

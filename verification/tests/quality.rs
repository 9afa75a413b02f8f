use foundations_telemetry::negotiation::{negotiate, ScrapeFormat};

fn weighted(q: &str) -> Option<ScrapeFormat> {
    let header = format!("application/openmetrics-text;q={q}");
    negotiate(Some(&header), true)
}

const TEXT: Option<ScrapeFormat> = Some(ScrapeFormat::Text { utf8_names: false });

#[test]
fn weights_in_float_literal_syntax_are_read() {
    assert_eq!(weighted("+0.5"), TEXT);
    assert_eq!(weighted(".5"), TEXT);
    assert_eq!(weighted("5e-1"), TEXT);
    assert_eq!(weighted("1e0"), TEXT);
    assert_eq!(weighted("10E-1"), TEXT);
    assert_eq!(weighted("0.001"), TEXT);
    assert_eq!(weighted("1."), TEXT);
}

#[test]
fn malformed_weights_refuse_the_range() {
    assert_eq!(weighted("."), None);
    assert_eq!(weighted(""), None);
    assert_eq!(weighted("0x1"), None);
    assert_eq!(weighted("1e"), None);
    assert_eq!(weighted("--1"), None);
}

#[test]
fn weights_that_round_to_one_are_accepted() {
    // 1.00000005 rounds to 1.0 as an `f32`; 1.0000001 rounds above one.
    assert_eq!(weighted("1.00000005"), TEXT);
    assert_eq!(weighted("1.0000001"), None);
}

#[test]
fn weights_that_round_to_zero_refuse_the_range() {
    // 1e-46 rounds to zero as an `f32`; 1e-45 rounds to the least subnormal.
    assert_eq!(weighted("1e-46"), None);
    assert_eq!(weighted("1e-45"), TEXT);
    assert_eq!(weighted("0.0e5"), None);
    assert_eq!(weighted("-0"), None);
}

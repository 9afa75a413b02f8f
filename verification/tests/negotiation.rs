use foundations_telemetry::negotiation::{negotiate, ScrapeFormat};

const TEXT: Option<ScrapeFormat> = Some(ScrapeFormat::Text { utf8_names: false });
const TEXT_UTF8: Option<ScrapeFormat> = Some(ScrapeFormat::Text { utf8_names: true });
const PROTOBUF: Option<ScrapeFormat> = Some(ScrapeFormat::Protobuf);

/// What Prometheus sends unless configured to prefer protobuf.
const PROMETHEUS_DEFAULT: &str = "application/openmetrics-text;version=1.0.0;q=0.5,\
                                  text/plain;version=0.0.4;q=0.4,*/*;q=0.1";

const PROTOBUF_PREFERRED: &str = "application/vnd.google.protobuf;\
                                  proto=io.prometheus.client.MetricFamily;\
                                  encoding=delimited;q=0.5,\
                                  application/openmetrics-text;version=1.0.0;q=0.4";

/// Delimited protobuf and nothing else: no text range, no `*/*`.
const PROTOBUF_ONLY: &str = "application/vnd.google.protobuf;\
                             proto=io.prometheus.client.MetricFamily;encoding=delimited";

#[test]
fn negotiation_absent_header_falls_back_to_legacy_text() {
    assert_eq!(negotiate(None, true), TEXT);
}

#[test]
fn negotiation_prometheus_default_accept_selects_text() {
    assert_eq!(negotiate(Some(PROMETHEUS_DEFAULT), true), TEXT);
}

#[test]
fn negotiation_utf8_escaping_is_detected() {
    let accept =
        "application/openmetrics-text;version=1.0.0;escaping=allow-utf-8;q=0.5,*/*;q=0.1";

    assert_eq!(negotiate(Some(accept), true), TEXT_UTF8);
}

#[test]
fn negotiation_delimited_protobuf_wins_when_preferred() {
    assert_eq!(negotiate(Some(PROTOBUF_PREFERRED), true), PROTOBUF);
}

#[test]
fn negotiation_protobuf_without_delimited_encoding_is_not_offered() {
    let accept = "application/vnd.google.protobuf;\
                  proto=io.prometheus.client.MetricFamily;q=0.9,text/plain;q=0.1";

    assert_eq!(negotiate(Some(accept), true), TEXT);
}

#[test]
fn negotiation_zero_quality_refuses_a_format() {
    let accept = "application/openmetrics-text;escaping=allow-utf-8;q=0,text/plain;q=0.4";

    assert_eq!(negotiate(Some(accept), true), TEXT);
}

#[test]
fn negotiation_zero_quality_on_the_only_range_matches_nothing() {
    assert_eq!(
        negotiate(Some("application/openmetrics-text;q=0"), true),
        None
    );
}

#[test]
fn negotiation_malformed_quality_refuses_a_format() {
    let accept = "application/openmetrics-text;escaping=allow-utf-8;q=garbage,text/plain;q=0.4";

    assert_eq!(negotiate(Some(accept), true), TEXT);
}

#[test]
fn negotiation_parameters_tolerate_whitespace_case_and_quoting() {
    let accept =
        "  APPLICATION/OpenMetrics-Text ; Version=1.0.0 ; Escaping=\"Allow-UTF-8\" ; Q=0.7 ";

    assert_eq!(negotiate(Some(accept), true), TEXT_UTF8);
}

#[test]
fn negotiation_ties_keep_the_earliest_listed() {
    let accept = "application/openmetrics-text;escaping=allow-utf-8;q=0.5,text/plain;q=0.5";

    assert_eq!(negotiate(Some(accept), true), TEXT_UTF8);
}

#[test]
fn negotiation_protobuf_is_withheld_when_unavailable() {
    assert_eq!(negotiate(Some(PROTOBUF_PREFERRED), false), TEXT);
}

#[test]
fn negotiation_withholding_protobuf_leaves_text_negotiation_untouched() {
    let utf8 = "application/openmetrics-text;escaping=allow-utf-8;q=0.9,text/plain;q=0.1";

    assert_eq!(negotiate(Some(utf8), false), TEXT_UTF8);
    assert_eq!(negotiate(Some(PROMETHEUS_DEFAULT), false), TEXT);
    assert_eq!(negotiate(None, false), TEXT);
}

#[test]
fn negotiation_protobuf_only_matches_nothing_when_unavailable() {
    assert_eq!(negotiate(Some(PROTOBUF_ONLY), false), None);
}

#[test]
fn negotiation_protobuf_only_is_served_when_available() {
    assert_eq!(negotiate(Some(PROTOBUF_ONLY), true), PROTOBUF);
}

#[test]
fn negotiation_unservable_media_types_match_nothing() {
    assert_eq!(negotiate(Some("application/json,text/html"), true), None);
}

#[test]
fn negotiation_malformed_quality_on_the_only_range_matches_nothing() {
    let accept = "application/vnd.google.protobuf;\
                  proto=io.prometheus.client.MetricFamily;encoding=delimited;q=";

    assert_eq!(negotiate(Some(accept), true), None);
}

#[test]
fn negotiation_unrankable_quality_matches_nothing() {
    for weight in [
        "nan", "NaN", "+nan", "inf", "infinity", "-inf", "2", "1e3", "-0.5",
    ] {
        let accept = format!("application/openmetrics-text;q={weight}");

        assert_eq!(
            negotiate(Some(&accept), true),
            None,
            "q={weight} should invalidate the range"
        );
    }
}

#[test]
fn negotiation_unrankable_quality_does_not_mask_a_later_range() {
    let accept = format!("application/openmetrics-text;q=nan,{PROTOBUF_PREFERRED}");

    assert_eq!(negotiate(Some(&accept), true), PROTOBUF);
}

#[test]
fn negotiation_out_of_range_quality_does_not_outrank_the_maximum() {
    let accept = "application/openmetrics-text;escaping=allow-utf-8;q=5,text/plain;q=1.0";

    assert_eq!(negotiate(Some(accept), true), TEXT);
}

#[test]
fn negotiation_quality_bounds_are_accepted() {
    assert_eq!(
        negotiate(Some("application/openmetrics-text;q=1.000"), true),
        TEXT
    );
    assert_eq!(
        negotiate(Some("application/openmetrics-text;q=0.001"), true),
        TEXT
    );
}

#[test]
fn weights_that_round_to_the_same_f32_tie() {
    // 1.00000001 rounds to 1.0f32, as does an absent q: the earlier range wins.
    assert_eq!(
        negotiate(Some("*/*,application/openmetrics-text;escaping=allow-utf-8;q=1.00000001"), true),
        TEXT
    );
    assert_eq!(
        negotiate(
            Some("application/openmetrics-text;escaping=allow-utf-8;q=0.3,text/plain;q=0.30000001"),
            true
        ),
        TEXT_UTF8
    );
    assert_eq!(
        negotiate(Some("text/plain;q=0.5,application/openmetrics-text;escaping=allow-utf-8;q=0.50000001"), true),
        TEXT
    );
}

#[test]
fn weights_that_round_to_different_f32_values_rank() {
    // 0.5000001 lies more than half an f32 step above 0.5.
    assert_eq!(
        negotiate(Some("text/plain;q=0.5,application/openmetrics-text;escaping=allow-utf-8;q=0.5000001"), true),
        TEXT_UTF8
    );
    // The least subnormal (about 1.4e-45) ranks above 1e-45, which rounds to it too.
    assert_eq!(
        negotiate(Some("text/plain;q=1e-45,application/openmetrics-text;escaping=allow-utf-8;q=1.4e-45"), true),
        TEXT
    );
    assert_eq!(
        negotiate(Some("text/plain;q=1e-45,application/openmetrics-text;escaping=allow-utf-8;q=3e-45"), true),
        TEXT_UTF8
    );
}

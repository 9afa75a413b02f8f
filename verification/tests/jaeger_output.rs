use foundations_telemetry::jaeger_output::{get_reporter_bind_addr, ReporterBindAddrError};
use foundations_telemetry::settings::{
    IpAddress, JaegerThriftUdpOutputSettings, SocketAddress, TracesOutput,
};

fn v4(a: u8, b: u8, c: u8, d: u8, port: u16) -> SocketAddress {
    SocketAddress { ip: IpAddress::V4(u32::from_be_bytes([a, b, c, d])), port }
}

fn v6(bits: u128, port: u16) -> SocketAddress {
    SocketAddress { ip: IpAddress::V6(bits), port }
}

#[test]
fn default_jaeger_settings() {
    let settings = JaegerThriftUdpOutputSettings::default();
    assert_eq!(settings.server_addr, v4(127, 0, 0, 1, 6831));
    assert_eq!(settings.reporter_bind_addr, None);
    assert_eq!(settings.num_tasks, 1);
    assert_eq!(settings.max_batch_size, 100);
    assert_eq!(TracesOutput::default(), TracesOutput::JaegerThriftUdp(settings));
}

#[test]
fn reporter_binds_to_ipv4_loopback_by_default() {
    let settings = JaegerThriftUdpOutputSettings::default();
    assert_eq!(get_reporter_bind_addr(&settings), Ok(v4(127, 0, 0, 1, 0)));
}

#[test]
fn reporter_binds_to_ipv6_loopback_for_ipv6_agent() {
    let settings = JaegerThriftUdpOutputSettings {
        server_addr: v6(0x2001_0db8 << 96, 6831),
        ..JaegerThriftUdpOutputSettings::default()
    };
    assert_eq!(get_reporter_bind_addr(&settings), Ok(v6(1, 0)));
}

#[test]
fn configured_reporter_address_of_same_family_is_used() {
    let settings = JaegerThriftUdpOutputSettings {
        reporter_bind_addr: Some(v4(10, 0, 0, 7, 4000)),
        ..JaegerThriftUdpOutputSettings::default()
    };
    assert_eq!(get_reporter_bind_addr(&settings), Ok(v4(10, 0, 0, 7, 4000)));
}

#[test]
fn configured_reporter_address_of_other_family_is_refused() {
    let settings = JaegerThriftUdpOutputSettings {
        reporter_bind_addr: Some(v6(1, 4000)),
        ..JaegerThriftUdpOutputSettings::default()
    };
    let err = get_reporter_bind_addr(&settings).unwrap_err();
    assert_eq!(err, ReporterBindAddrError::AddressFamilyMismatch);
    assert_eq!(
        err.message(),
        "`jaeger_tracing_server_addr` and `jaeger_reporter_bind_addr` must have the same address family"
    );
}

//! The address that the Jaeger Thrift (UDP) reporter binds to.

use vstd::prelude::*;
use crate::settings::{
    IpAddress, JaegerThriftUdpOutputSettings, SocketAddress, IPV4_LOCALHOST, IPV6_LOCALHOST,
};

verus! {

/// Why the reporter's bind address cannot be used.
#[derive(Clone, Copy, Debug, PartialEq, Eq, Structural)]
pub enum ReporterBindAddrError {
    /// The bind address and the agent's address have different address
    /// families.
    AddressFamilyMismatch,
}

impl ReporterBindAddrError {
    /// The error's message.
    pub fn message(self) -> (r: &'static str)
        ensures
            r@ == "`jaeger_tracing_server_addr` and `jaeger_reporter_bind_addr` must have the same address family"@,
    {
        "`jaeger_tracing_server_addr` and `jaeger_reporter_bind_addr` must have the same address family"
    }
}

/// The loopback address, port chosen by the system, of the agent address's
/// family.
pub open spec fn loopback_for(server_addr: SocketAddress) -> SocketAddress {
    match server_addr.ip {
        IpAddress::V4(_) => SocketAddress { ip: IpAddress::V4(IPV4_LOCALHOST), port: 0 },
        IpAddress::V6(_) => SocketAddress { ip: IpAddress::V6(IPV6_LOCALHOST), port: 0 },
    }
}

/// The address the reporter binds to: the configured one, which must have the
/// agent address's family since the reporter sends to the agent, or else the
/// loopback address of that family with a port chosen by the system.
pub fn get_reporter_bind_addr(settings: &JaegerThriftUdpOutputSettings) -> (r: Result<
    SocketAddress,
    ReporterBindAddrError,
>)
    ensures
        match settings.reporter_bind_addr {
            Some(addr) => if (addr.ip is V6) == (settings.server_addr.ip is V6) {
                r == Ok::<SocketAddress, ReporterBindAddrError>(addr)
            } else {
                r == Err::<SocketAddress, ReporterBindAddrError>(
                    ReporterBindAddrError::AddressFamilyMismatch,
                )
            },
            None => r == Ok::<SocketAddress, ReporterBindAddrError>(
                loopback_for(settings.server_addr),
            ),
        },
{
    match settings.reporter_bind_addr {
        Some(addr) => {
            if settings.server_addr.ip.is_ipv6() == addr.ip.is_ipv6() {
                Ok(addr)
            } else {
                Err(ReporterBindAddrError::AddressFamilyMismatch)
            }
        },
        None => {
            if settings.server_addr.ip.is_ipv6() {
                Ok(SocketAddress { ip: IpAddress::V6(IPV6_LOCALHOST), port: 0 })
            } else {
                Ok(SocketAddress { ip: IpAddress::V4(IPV4_LOCALHOST), port: 0 })
            }
        },
    }
}

} // verus!

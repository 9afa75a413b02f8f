//! Telemetry settings: logging, OpenTelemetry outputs, rate limiting, the
//! telemetry server and user tracing, each with its documented defaults.

use vstd::prelude::*;

verus! {

/// Rate limiting settings for events.
#[derive(Clone, Copy, Debug, PartialEq, Eq, Structural)]
pub struct RateLimitingSettings {
    /// Whether to enable rate limiting of events.
    pub enabled: bool,
    /// Maximum number of events that can be emitted per second.
    pub max_events_per_second: u32,
}

impl Default for RateLimitingSettings {
    /// Rate limiting disabled, with no events allowed per second.
    fn default() -> (r: Self)
        ensures
            r == (RateLimitingSettings { enabled: false, max_events_per_second: 0 }),
    {
        RateLimitingSettings { enabled: false, max_events_per_second: 0 }
    }
}

/// Log output destination.
#[derive(Clone, Debug, PartialEq, Eq)]
pub enum LogOutput {
    /// Write log to terminal.
    Terminal,
    /// Write log to the standard error stream.
    Stderr,
    /// Write log to the file with the specified path. The file is created if it
    /// does not exist and overwritten otherwise.
    File(String),
}

impl Default for LogOutput {
    /// The terminal.
    fn default() -> (r: Self)
        ensures
            r == LogOutput::Terminal,
    {
        LogOutput::Terminal
    }
}

/// Format of the log output.
#[derive(Clone, Copy, Debug, PartialEq, Eq, Structural)]
pub enum LogFormat {
    /// Plain text.
    Text,
    /// JSON.
    Json,
}

impl Default for LogFormat {
    /// Plain text.
    fn default() -> (r: Self)
        ensures
            r == LogFormat::Text,
    {
        LogFormat::Text
    }
}

/// Log verbosity levels, from the most severe to the most verbose.
#[derive(Clone, Copy, Debug, PartialEq, Eq, Structural)]
pub enum LogVerbosity {
    Critical,
    Error,
    Warning,
    Info,
    Debug,
    Trace,
}

impl Default for LogVerbosity {
    /// `Info`.
    fn default() -> (r: Self)
        ensures
            r == LogVerbosity::Info,
    {
        LogVerbosity::Info
    }
}

/// Log volume metrics settings: when enabled, a counter of the produced log
/// records, labelled by level, is exposed.
#[derive(Clone, Copy, Debug, PartialEq, Eq, Structural)]
pub struct LogVolumeMetricSettings {
    /// Whether to enable log volume metrics.
    pub enabled: bool,
}

impl Default for LogVolumeMetricSettings {
    /// Disabled.
    fn default() -> (r: Self)
        ensures
            r == (LogVolumeMetricSettings { enabled: false }),
    {
        LogVolumeMetricSettings { enabled: false }
    }
}

/// Logging settings.
#[derive(Clone, Debug, PartialEq, Eq)]
pub struct LoggingSettings {
    /// Specifies log output.
    pub output: LogOutput,
    /// The format to use for log messages.
    pub format: LogFormat,
    /// The logging verbosity level.
    pub verbosity: LogVerbosity,
    /// Field keys to redact when emitting logs.
    pub redact_keys: Vec<String>,
    /// Settings for rate limiting emission of log events.
    pub rate_limit: RateLimitingSettings,
    /// Log volume metrics.
    pub log_volume_metrics: LogVolumeMetricSettings,
}

impl Default for LoggingSettings {
    /// Terminal output in plain text at `Info`, nothing redacted, no rate
    /// limiting and no log volume metrics.
    fn default() -> (r: Self)
        ensures
            r.output == LogOutput::Terminal,
            r.format == LogFormat::Text,
            r.verbosity == LogVerbosity::Info,
            r.redact_keys@.len() == 0,
            r.rate_limit == (RateLimitingSettings { enabled: false, max_events_per_second: 0 }),
            r.log_volume_metrics == (LogVolumeMetricSettings { enabled: false }),
    {
        LoggingSettings {
            output: LogOutput::default(),
            format: LogFormat::default(),
            verbosity: LogVerbosity::default(),
            redact_keys: Vec::new(),
            rate_limit: RateLimitingSettings::default(),
            log_volume_metrics: LogVolumeMetricSettings::default(),
        }
    }
}

/// The verbosity that the given logging settings log at.
pub fn verbosity(settings: &LoggingSettings) -> (r: LogVerbosity)
    ensures
        r == settings.verbosity,
{
    settings.verbosity
}

/// The standard OTLP gRPC endpoint, `http://localhost:4317`.
pub open spec fn default_otlp_endpoint() -> Seq<char> {
    "http://localhost:4317"@
}

fn default_otlp_endpoint_url() -> (r: String)
    ensures
        r@ == default_otlp_endpoint(),
{
    "http://localhost:4317".to_owned()
}

/// OpenTelemetry gRPC output settings.
#[derive(Clone, Debug, PartialEq, Eq)]
pub struct OpenTelemetryGrpcOutputSettings {
    /// The URL of the endpoint that receives the telemetry data.
    pub endpoint_url: String,
    /// Output request timeout in seconds.
    pub request_timeout_seconds: u64,
    /// Number of concurrent tasks to spawn for output.
    pub num_tasks: usize,
    /// Maximum number of entries batched together in one request.
    pub max_batch_size: usize,
}

impl OpenTelemetryGrpcOutputSettings {
    /// The default endpoint: `http://localhost:4317`.
    pub fn default_endpoint_url() -> (r: String)
        ensures
            r@ == default_otlp_endpoint(),
    {
        default_otlp_endpoint_url()
    }

    /// The default request timeout: 10 seconds.
    pub fn default_request_timeout_seconds() -> (r: u64)
        ensures
            r == 10,
    {
        10
    }

    /// The default number of output tasks: 1.
    pub fn default_num_tasks() -> (r: usize)
        ensures
            r == 1,
    {
        1
    }

    /// The default batch size: 512.
    pub fn default_max_batch_size() -> (r: usize)
        ensures
            r == 512,
    {
        512
    }
}

impl Default for OpenTelemetryGrpcOutputSettings {
    fn default() -> (r: Self)
        ensures
            r.endpoint_url@ == default_otlp_endpoint(),
            r.request_timeout_seconds == 10,
            r.num_tasks == 1,
            r.max_batch_size == 512,
    {
        OpenTelemetryGrpcOutputSettings {
            endpoint_url: Self::default_endpoint_url(),
            request_timeout_seconds: Self::default_request_timeout_seconds(),
            num_tasks: Self::default_num_tasks(),
            max_batch_size: Self::default_max_batch_size(),
        }
    }
}

/// OpenTelemetry output protocol.
#[derive(Clone, Copy, Debug, PartialEq, Eq, Structural)]
pub enum OpenTelemetryOutputProtocol {
    /// gRPC.
    Grpc,
    /// HTTP.
    Http,
}

impl Default for OpenTelemetryOutputProtocol {
    /// gRPC.
    fn default() -> (r: Self)
        ensures
            r == OpenTelemetryOutputProtocol::Grpc,
    {
        OpenTelemetryOutputProtocol::Grpc
    }
}

/// OpenTelemetry output settings.
#[derive(Clone, Debug, PartialEq, Eq)]
pub struct OpenTelemetryOutputSettings {
    /// The URL of the endpoint that receives the telemetry data.
    pub endpoint_url: String,
    /// Output request timeout in seconds.
    pub request_timeout_seconds: u64,
    /// Protocol used to communicate with the endpoint.
    pub protocol: OpenTelemetryOutputProtocol,
}

impl OpenTelemetryOutputSettings {
    /// The default endpoint: `http://localhost:4317`.
    pub fn default_endpoint_url() -> (r: String)
        ensures
            r@ == default_otlp_endpoint(),
    {
        default_otlp_endpoint_url()
    }

    /// The default request timeout: 10 seconds.
    pub fn default_request_timeout_seconds() -> (r: u64)
        ensures
            r == 10,
    {
        10
    }
}

impl Default for OpenTelemetryOutputSettings {
    fn default() -> (r: Self)
        ensures
            r.endpoint_url@ == default_otlp_endpoint(),
            r.request_timeout_seconds == 10,
            r.protocol == OpenTelemetryOutputProtocol::Grpc,
    {
        OpenTelemetryOutputSettings {
            endpoint_url: Self::default_endpoint_url(),
            request_timeout_seconds: Self::default_request_timeout_seconds(),
            protocol: OpenTelemetryOutputProtocol::default(),
        }
    }
}

/// An address to listen on.
#[derive(Clone, Debug, PartialEq, Eq)]
pub enum ListenAddr {
    /// A TCP socket address, such as `127.0.0.1:0`.
    Tcp(String),
    /// The path of a Unix domain socket.
    Unix(String),
}

/// The loopback address on a port that the system picks.
pub open spec fn default_listen_addr() -> Seq<char> {
    "127.0.0.1:0"@
}

impl Default for ListenAddr {
    /// TCP on `127.0.0.1:0`.
    fn default() -> (r: Self)
        ensures
            r matches ListenAddr::Tcp(a) && a@ == default_listen_addr(),
    {
        ListenAddr::Tcp("127.0.0.1:0".to_owned())
    }
}

/// Telemetry server settings.
#[derive(Clone, Debug, PartialEq, Eq)]
pub struct TelemetryServerSettings {
    /// Enables the telemetry server.
    pub enabled: bool,
    /// Telemetry server address.
    pub addr: ListenAddr,
}

impl TelemetryServerSettings {
    /// The server is enabled by default.
    pub fn default_enabled() -> (r: bool)
        ensures
            r,
    {
        true
    }

    /// The default server address.
    pub fn default_addr() -> (r: ListenAddr)
        ensures
            r matches ListenAddr::Tcp(a) && a@ == default_listen_addr(),
    {
        ListenAddr::default()
    }
}

impl Default for TelemetryServerSettings {
    fn default() -> (r: Self)
        ensures
            r.enabled,
            r.addr matches ListenAddr::Tcp(a) && a@ == default_listen_addr(),
    {
        TelemetryServerSettings {
            enabled: Self::default_enabled(),
            addr: Self::default_addr(),
        }
    }
}

/// Settings of the liveness tracking of spans.
#[derive(Clone, Copy, Debug, PartialEq, Eq, Structural)]
pub struct LivenessTrackingSettings {
    /// Enables tracking of the spans that are alive.
    pub enabled: bool,
    /// Also tracks the spans of traces that are not sampled.
    pub track_all_spans: bool,
}

impl Default for LivenessTrackingSettings {
    /// Both disabled.
    fn default() -> (r: Self)
        ensures
            r == (LivenessTrackingSettings { enabled: false, track_all_spans: false }),
    {
        LivenessTrackingSettings { enabled: false, track_all_spans: false }
    }
}

/// Settings of the output of user traces as OTLP over a Unix domain socket.
#[derive(Clone, Debug, PartialEq, Eq)]
pub struct OtlpUdsOutputSettings {
    /// Path to the Unix domain socket of the OTLP endpoint.
    pub socket_path: String,
    /// Number of concurrent worker tasks for user trace export.
    pub num_tasks: usize,
    /// Maximum number of spans drained per batch.
    pub max_batch_size: usize,
}

impl OtlpUdsOutputSettings {
    /// The default number of worker tasks: 2.
    pub fn default_num_tasks() -> (r: usize)
        ensures
            r == 2,
    {
        2
    }

    /// The default batch size: 512.
    pub fn default_max_batch_size() -> (r: usize)
        ensures
            r == 512,
    {
        512
    }
}

impl Default for OtlpUdsOutputSettings {
    /// No socket path, 2 tasks, batches of 512.
    fn default() -> (r: Self)
        ensures
            r.socket_path@.len() == 0,
            r.num_tasks == 2,
            r.max_batch_size == 512,
    {
        OtlpUdsOutputSettings {
            socket_path: String::new(),
            num_tasks: Self::default_num_tasks(),
            max_batch_size: Self::default_max_batch_size(),
        }
    }
}

/// The output for the collected user traces.
#[derive(Clone, Debug, PartialEq, Eq)]
pub enum UserTracesOutput {
    /// Send user tracing spans as OTLP over a Unix domain socket.
    OtlpUds(OtlpUdsOutputSettings),
}

impl Default for UserTracesOutput {
    /// OTLP over a Unix domain socket with its default settings.
    fn default() -> (r: Self)
        ensures
            r matches UserTracesOutput::OtlpUds(s) && s.socket_path@.len() == 0 && s.num_tasks
                == 2 && s.max_batch_size == 512,
    {
        UserTracesOutput::OtlpUds(OtlpUdsOutputSettings::default())
    }
}

/// Distributed user tracing settings.
#[derive(Clone, Debug, PartialEq, Eq)]
pub struct UserTracingSettings {
    /// Enables user tracing.
    pub enabled: bool,
    /// Maximum number of spans buffered for output, never zero; `None` for no
    /// limit.
    pub max_queue_size: Option<usize>,
    /// The output for the collected user traces.
    pub output: UserTracesOutput,
}

impl UserTracingSettings {
    /// Whether the queue limit is valid: a limit, where there is one, is not zero.
    pub open spec fn wf(&self) -> bool {
        self.max_queue_size matches Some(n) ==> n > 0
    }

    /// User tracing is enabled by default.
    pub fn default_enabled() -> (r: bool)
        ensures
            r,
    {
        true
    }

    /// Up to a million spans are buffered by default.
    pub fn default_max_queue_size() -> (r: Option<usize>)
        ensures
            r == Some(1_000_000usize),
    {
        Some(1_000_000)
    }
}

impl Default for UserTracingSettings {
    fn default() -> (r: Self)
        ensures
            r.wf(),
            r.enabled,
            r.max_queue_size == Some(1_000_000usize),
            r.output matches UserTracesOutput::OtlpUds(s) && s.socket_path@.len() == 0
                && s.num_tasks == 2 && s.max_batch_size == 512,
    {
        UserTracingSettings {
            enabled: Self::default_enabled(),
            max_queue_size: Self::default_max_queue_size(),
            output: UserTracesOutput::default(),
        }
    }
}

/// An IP address: an IPv4 address as its 32 bits, an IPv6 address as its 128
/// bits, most significant first.
#[derive(Clone, Copy, Debug, PartialEq, Eq, Structural)]
pub enum IpAddress {
    V4(u32),
    V6(u128),
}

impl IpAddress {
    /// Whether this is an IPv6 address.
    pub fn is_ipv6(&self) -> (r: bool)
        ensures
            r == (self is V6),
    {
        match self {
            IpAddress::V4(_) => false,
            IpAddress::V6(_) => true,
        }
    }
}

/// `127.0.0.1`.
pub const IPV4_LOCALHOST: u32 = 0x7f00_0001u32;

/// `::1`.
pub const IPV6_LOCALHOST: u128 = 1u128;

/// A socket address: an IP address and a port.
#[derive(Clone, Copy, Debug, PartialEq, Eq, Structural)]
pub struct SocketAddress {
    pub ip: IpAddress,
    pub port: u16,
}

/// Jaeger Thrift (UDP) traces output settings.
#[derive(Clone, Copy, Debug, PartialEq, Eq, Structural)]
pub struct JaegerThriftUdpOutputSettings {
    /// The address of the Jaeger Thrift (UDP) agent.
    pub server_addr: SocketAddress,
    /// Overrides the bind address for the reporter API, which must then have
    /// the address family of `server_addr`.
    pub reporter_bind_addr: Option<SocketAddress>,
    /// Number of concurrent tasks to spawn for output.
    pub num_tasks: usize,
    /// Maximum number of spans to batch together for output.
    pub max_batch_size: usize,
}

impl JaegerThriftUdpOutputSettings {
    /// The default Jaeger UDP agent address: `127.0.0.1:6831`.
    pub fn default_server_addr() -> (r: SocketAddress)
        ensures
            r == (SocketAddress { ip: IpAddress::V4(IPV4_LOCALHOST), port: 6831 }),
    {
        SocketAddress { ip: IpAddress::V4(IPV4_LOCALHOST), port: 6831 }
    }

    /// One output task by default.
    pub fn default_num_tasks() -> (r: usize)
        ensures
            r == 1,
    {
        1
    }

    /// Batches of up to 100 spans by default.
    pub fn default_max_batch_size() -> (r: usize)
        ensures
            r == 100,
    {
        100
    }
}

impl Default for JaegerThriftUdpOutputSettings {
    fn default() -> (r: Self)
        ensures
            r == (JaegerThriftUdpOutputSettings {
                server_addr: SocketAddress { ip: IpAddress::V4(IPV4_LOCALHOST), port: 6831 },
                reporter_bind_addr: None,
                num_tasks: 1,
                max_batch_size: 100,
            }),
    {
        JaegerThriftUdpOutputSettings {
            server_addr: Self::default_server_addr(),
            reporter_bind_addr: None,
            num_tasks: Self::default_num_tasks(),
            max_batch_size: Self::default_max_batch_size(),
        }
    }
}

/// The output for the collected traces.
#[derive(Clone, Debug, PartialEq, Eq)]
pub enum TracesOutput {
    /// Sends traces to the collector in the Jaeger Thrift (UDP) format.
    JaegerThriftUdp(JaegerThriftUdpOutputSettings),
    /// Sends traces to the collector in the OpenTelemetry format over gRPC.
    OpenTelemetryGrpc(OpenTelemetryGrpcOutputSettings),
}

impl Default for TracesOutput {
    /// Jaeger Thrift (UDP) with its default settings.
    fn default() -> (r: Self)
        ensures
            r == TracesOutput::JaegerThriftUdp(
                JaegerThriftUdpOutputSettings {
                    server_addr: SocketAddress { ip: IpAddress::V4(IPV4_LOCALHOST), port: 6831 },
                    reporter_bind_addr: None,
                    num_tasks: 1,
                    max_batch_size: 100,
                },
            ),
    {
        TracesOutput::JaegerThriftUdp(JaegerThriftUdpOutputSettings::default())
    }
}

} // verus!

//! Telemetry building blocks: metrics format negotiation, W3C trace context,
//! per-CPU counters and the other pieces of a service's telemetry that compute.

pub mod text;
pub mod decimal;
pub mod quality;
pub mod f32_weight;
pub mod negotiation;
pub mod traceparent;
pub mod formatting;
pub mod trace_context;
pub mod trace_fork;
pub mod scope_stack;
pub mod trace_log;
pub mod percpu;
pub mod settings;
pub mod jaeger_output;
pub mod tracing_metrics;
pub mod log_volume;
pub mod gauge;
pub mod runtime_metrics;
pub mod runtime_monitor;
pub mod rewind;
pub mod rate_limit;
pub mod routes;
pub mod otlp;
pub mod otlp_span;
pub mod exposition;
pub mod process_metrics;
pub mod log_nesting;
pub mod producers;
pub mod service_name;
pub mod memory_profiler;

# foundations_telemetry

The computing core of a service telemetry toolkit, verified with Verus:
metrics format negotiation, W3C trace context, per-CPU counters, range gauges,
runtime metrics, the telemetry server's route table, the trace dump, the OTLP
form of finished spans, how forked traces are linked, the scope stack of the
current span, the process metric families and the telemetry settings with their
defaults.

Layout:

- `src/`: the verified library, one module per concern. Contracts are stated
  over spec functions and views; the laws that span several calls are public
  proof functions (`lemma_*`).
- `tests/`: tests of the library on concrete values.
- `app/`: what touches the outside world: settings read with serde, the CPU a
  thread runs on, clocks, rate limiters, the tracer's spans and the
  process-wide registries.

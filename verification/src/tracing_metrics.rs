//! The metrics of the span pipeline: the consumer queue's size and limit, and
//! the spans produced and dropped.

use vstd::prelude::*;

verus! {

/// `(x + 1) mod 2^64`: how a counter moves on one increment.
pub open spec fn counter_inc(x: u64) -> u64 {
    if x == u64::MAX {
        0
    } else {
        (x + 1) as u64
    }
}

/// The tracing metrics of a span pipeline.
#[derive(Clone, Copy, Debug, PartialEq, Eq, Structural)]
pub struct TracingMetrics {
    /// Current size of the span consumer queue.
    pub queue_size: u64,
    /// Maximum allowed size of the span consumer queue; `usize::MAX` for
    /// unbounded queues.
    pub max_queue_size: u64,
    /// Total number of spans produced.
    pub spans_total: u64,
    /// Total number of spans dropped because the consumer queue was full.
    pub spans_dropped: u64,
}

impl TracingMetrics {
    /// All metrics at zero.
    pub fn new() -> (r: Self)
        ensures
            r == (TracingMetrics { queue_size: 0, max_queue_size: 0, spans_total: 0, spans_dropped: 0 }),
    {
        TracingMetrics { queue_size: 0, max_queue_size: 0, spans_total: 0, spans_dropped: 0 }
    }

    /// Records that a span was handed to the queue: it counts as produced, and
    /// also as dropped when the queue refused it (`sent` is `false`).
    pub fn record_span(&mut self, sent: bool)
        ensures
            final(self).spans_total == counter_inc(old(self).spans_total),
            final(self).spans_dropped == if sent {
                old(self).spans_dropped
            } else {
                counter_inc(old(self).spans_dropped)
            },
            final(self).queue_size == old(self).queue_size,
            final(self).max_queue_size == old(self).max_queue_size,
    {
        self.spans_total = self.spans_total.wrapping_add(1);
        if !sent {
            self.spans_dropped = self.spans_dropped.wrapping_add(1);
        }
    }

    /// Records the queue's current length.
    pub fn record_queue_len(&mut self, len: usize)
        ensures
            final(self).queue_size == len,
            final(self).max_queue_size == old(self).max_queue_size,
            final(self).spans_total == old(self).spans_total,
            final(self).spans_dropped == old(self).spans_dropped,
    {
        self.queue_size = len as u64;
    }

    /// Records the queue's limit; `None`, an unbounded queue, is recorded as
    /// `usize::MAX`.
    pub fn record_max_queue_size(&mut self, max_queue_size: Option<usize>)
        ensures
            final(self).max_queue_size == match max_queue_size {
                Some(n) => n as u64,
                None => usize::MAX as u64,
            },
            final(self).queue_size == old(self).queue_size,
            final(self).spans_total == old(self).spans_total,
            final(self).spans_dropped == old(self).spans_dropped,
    {
        let limit: usize = match max_queue_size {
            Some(n) => n,
            None => usize::MAX,
        };
        self.max_queue_size = limit as u64;
    }
}

/// Current size of the span consumer queue.
pub fn queue_size(metrics: &TracingMetrics) -> (r: u64)
    ensures
        r == metrics.queue_size,
{
    metrics.queue_size
}

/// Maximum allowed size of the span consumer queue.
pub fn max_queue_size(metrics: &TracingMetrics) -> (r: u64)
    ensures
        r == metrics.max_queue_size,
{
    metrics.max_queue_size
}

/// Total number of spans produced.
pub fn spans_total(metrics: &TracingMetrics) -> (r: u64)
    ensures
        r == metrics.spans_total,
{
    metrics.spans_total
}

/// Total number of spans dropped because the consumer queue was full.
pub fn spans_dropped(metrics: &TracingMetrics) -> (r: u64)
    ensures
        r == metrics.spans_dropped,
{
    metrics.spans_dropped
}

} // verus!

//! A gauge that also records the minimum and maximum values it took since its
//! values were last observed.

use vstd::prelude::*;

verus! {

/// The current value of a gauge and the range it recorded.
pub struct GaugeState {
    pub current: int,
    pub low: int,
    pub high: int,
}

/// An operation that changes a gauge's value.
pub enum GaugeOp {
    /// Increase by the amount.
    Inc(u64),
    /// Decrease by the amount.
    Dec(u64),
    /// Set to the value.
    SetTo(u64),
}

/// The gauge after one operation: the new value, and the range widened to
/// take it in.
pub open spec fn gauge_step(s: GaugeState, op: GaugeOp) -> GaugeState {
    let c = match op {
        GaugeOp::Inc(v) => s.current + v,
        GaugeOp::Dec(v) => s.current - v,
        GaugeOp::SetTo(v) => v as int,
    };
    GaugeState {
        current: c,
        low: if c < s.low {
            c
        } else {
            s.low
        },
        high: if s.high < c {
            c
        } else {
            s.high
        },
    }
}

/// The gauge after the operations `ops`, in order.
pub open spec fn gauge_run(s: GaugeState, ops: Seq<GaugeOp>) -> GaugeState
    decreases ops.len(),
{
    if ops.len() == 0 {
        s
    } else {
        gauge_step(gauge_run(s, ops.drop_last()), ops.last())
    }
}

/// Over any series of operations, the recorded range takes in every value
/// the gauge held: starting from a gauge whose value lies in its range (as
/// after an observation, which leaves the range at the value), the range
/// after the operations contains the starting range and each value held
/// on the way.
pub proof fn lemma_range_covers_held_values(s: GaugeState, ops: Seq<GaugeOp>)
    requires
        s.low <= s.current <= s.high,
    ensures
        gauge_run(s, ops).low <= s.low,
        s.high <= gauge_run(s, ops).high,
        forall|k: int|
            0 <= k <= ops.len() ==> gauge_run(s, ops).low <= #[trigger] gauge_run(
                s,
                ops.take(k),
            ).current <= gauge_run(s, ops).high,
    decreases ops.len(),
{
    if ops.len() > 0 {
        let rest = ops.drop_last();
        lemma_range_covers_held_values(s, rest);
        assert forall|k: int| 0 <= k <= ops.len() implies gauge_run(s, ops).low <= #[trigger] gauge_run(
            s,
            ops.take(k),
        ).current <= gauge_run(s, ops).high by {
            if k < ops.len() {
                assert(ops.take(k) =~= rest.take(k));
            } else {
                assert(ops.take(k) =~= ops);
            }
        }
    } else {
        assert forall|k: int| 0 <= k <= ops.len() implies gauge_run(s, ops).low <= #[trigger] gauge_run(
            s,
            ops.take(k),
        ).current <= gauge_run(s, ops).high by {
            assert(ops.take(k) =~= ops);
        }
    }
}

/// A gauge that additionally records the minimum and maximum of its value
/// since the values were last observed with [`RangeGauge::get_values`].
///
/// This shows the full range of values within a scrape interval with less
/// overhead than a histogram.
#[derive(Clone, Copy, Debug)]
pub struct RangeGauge {
    value: u64,
    min: u64,
    max: u64,
}

impl RangeGauge {
    /// The gauge's current value.
    pub closed spec fn current(&self) -> u64 {
        self.value
    }

    /// The least value recorded since the last observation.
    pub closed spec fn low(&self) -> u64 {
        self.min
    }

    /// The greatest value recorded since the last observation.
    pub closed spec fn high(&self) -> u64 {
        self.max
    }

    /// The gauge's value and range.
    pub open spec fn state(&self) -> GaugeState {
        GaugeState { current: self.current() as int, low: self.low() as int, high: self.high() as int }
    }

    /// The current value always lies within the recorded range.
    #[verifier::type_invariant]
    spec fn within_range(&self) -> bool {
        self.min <= self.value <= self.max
    }

    /// A gauge at zero, with zero as its minimum and maximum.
    pub fn new() -> (r: Self)
        ensures
            r.current() == 0,
            r.low() == 0,
            r.high() == 0,
    {
        RangeGauge { value: 0, min: 0, max: 0 }
    }

    /// Increases the gauge by 1, returning the previous value.
    pub fn inc(&mut self) -> (prev: u64)
        requires
            old(self).current() < u64::MAX,
        ensures
            final(self).state() == gauge_step(old(self).state(), GaugeOp::Inc(1)),
            prev == old(self).current(),
            final(self).current() == old(self).current() + 1,
            final(self).low() == old(self).low(),
            final(self).high() == if old(self).high() < final(self).current() {
                final(self).current()
            } else {
                old(self).high()
            },
    {
        self.inc_by(1)
    }

    /// Increases the gauge by `v`, returning the previous value.
    pub fn inc_by(&mut self, v: u64) -> (prev: u64)
        requires
            old(self).current() + v <= u64::MAX,
        ensures
            final(self).state() == gauge_step(old(self).state(), GaugeOp::Inc(v)),
            prev == old(self).current(),
            final(self).current() == old(self).current() + v,
            final(self).low() == old(self).low(),
            final(self).high() == if old(self).high() < final(self).current() {
                final(self).current()
            } else {
                old(self).high()
            },
    {
        proof {
            use_type_invariant(&*self);
        }
        let prev = self.value;
        let value = prev + v;
        let max = if self.max < value {
            value
        } else {
            self.max
        };
        *self = RangeGauge { value, min: self.min, max };
        prev
    }

    /// Decreases the gauge by 1, returning the previous value.
    pub fn dec(&mut self) -> (prev: u64)
        requires
            old(self).current() >= 1,
        ensures
            final(self).state() == gauge_step(old(self).state(), GaugeOp::Dec(1)),
            prev == old(self).current(),
            final(self).current() == old(self).current() - 1,
            final(self).high() == old(self).high(),
            final(self).low() == if final(self).current() < old(self).low() {
                final(self).current()
            } else {
                old(self).low()
            },
    {
        self.dec_by(1)
    }

    /// Decreases the gauge by `v`, returning the previous value.
    pub fn dec_by(&mut self, v: u64) -> (prev: u64)
        requires
            v <= old(self).current(),
        ensures
            final(self).state() == gauge_step(old(self).state(), GaugeOp::Dec(v)),
            prev == old(self).current(),
            final(self).current() == old(self).current() - v,
            final(self).high() == old(self).high(),
            final(self).low() == if final(self).current() < old(self).low() {
                final(self).current()
            } else {
                old(self).low()
            },
    {
        proof {
            use_type_invariant(&*self);
        }
        let prev = self.value;
        let value = prev - v;
        let min = if value < self.min {
            value
        } else {
            self.min
        };
        *self = RangeGauge { value, min, max: self.max };
        prev
    }

    /// Sets the gauge to `v`, returning the previous value.
    pub fn set(&mut self, v: u64) -> (prev: u64)
        ensures
            final(self).state() == gauge_step(old(self).state(), GaugeOp::SetTo(v)),
            prev == old(self).current(),
            final(self).current() == v,
            final(self).high() == if old(self).high() < v {
                v
            } else {
                old(self).high()
            },
            final(self).low() == if v < old(self).low() {
                v
            } else {
                old(self).low()
            },
    {
        let prev = self.value;
        let max = if self.max < v {
            v
        } else {
            self.max
        };
        let min = if v < self.min {
            v
        } else {
            self.min
        };
        *self = RangeGauge { value: v, min, max };
        prev
    }

    /// Gets the current value of the gauge.
    pub fn get(&self) -> (r: u64)
        ensures
            r == self.current(),
    {
        self.value
    }

    /// Observes the gauge: returns its minimum, current and maximum values, in
    /// that order, with `min <= current <= max`, and starts a new range at the
    /// current value.
    pub fn get_values(&mut self) -> (r: (u64, u64, u64))
        ensures
            r == (old(self).low(), old(self).current(), old(self).high()),
            r.0 <= r.1 <= r.2,
            final(self).current() == old(self).current(),
            final(self).low() == old(self).current(),
            final(self).high() == old(self).current(),
    {
        proof {
            use_type_invariant(&*self);
        }
        let current = self.value;
        let min = if current < self.min {
            current
        } else {
            self.min
        };
        let max = if current > self.max {
            current
        } else {
            self.max
        };
        *self = RangeGauge { value: current, min: current, max: current };
        (min, current, max)
    }
}

impl Default for RangeGauge {
    /// A gauge at zero.
    fn default() -> (r: Self)
        ensures
            r.current() == 0,
            r.low() == 0,
            r.high() == 0,
    {
        RangeGauge::new()
    }
}

} // verus!

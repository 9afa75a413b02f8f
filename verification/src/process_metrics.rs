//! Conversion of the process collector's metric families into the exposition
//! model: counters and gauges are carried over with their labels, every other
//! kind of family is left out.
//!
//! The sample values are a type parameter: the collector reports them as
//! floating-point numbers, which this library carries without reading.
use vstd::prelude::*;

verus! {

/// The kind of a family as the process collector reports it.
#[derive(Clone, Copy, Debug, PartialEq, Eq, Structural)]
pub enum CollectedKind {
    Counter,
    Gauge,
    Summary,
    Untyped,
    Histogram,
    GaugeHistogram,
}

/// One sample of a collected family: its label pairs and the values that the
/// collector holds for it as a counter and as a gauge.
pub struct CollectedMetric<V> {
    pub labels: Vec<(String, String)>,
    pub counter: V,
    pub gauge: V,
}

/// A metric family as the process collector reports it.
pub struct CollectedFamily<V> {
    pub name: String,
    pub help: String,
    pub kind: CollectedKind,
    pub metrics: Vec<CollectedMetric<V>>,
}

/// The kinds of family that the exposition model receives from the process
/// collector.
#[derive(Clone, Copy, Debug, PartialEq, Eq, Structural)]
pub enum EncodedKind {
    Counter,
    Gauge,
}

/// One sample in the exposition model: the value sits in the slot of the
/// family's kind, the other slot is empty.
pub struct EncodedMetric<V> {
    pub labels: Vec<(String, String)>,
    pub counter: Option<V>,
    pub gauge: Option<V>,
}

/// A metric family in the exposition model.
pub struct EncodedFamily<V> {
    pub name: String,
    pub help: String,
    pub kind: EncodedKind,
    pub metrics: Vec<EncodedMetric<V>>,
}

/// The exposition kind of a collected kind, if it is carried over at all.
pub open spec fn encoded_kind(kind: CollectedKind) -> Option<EncodedKind> {
    match kind {
        CollectedKind::Counter => Some(EncodedKind::Counter),
        CollectedKind::Gauge => Some(EncodedKind::Gauge),
        _ => None,
    }
}

/// A collected sample as it stands in a family of the given kind.
pub open spec fn encoded_metric<V>(kind: EncodedKind, metric: CollectedMetric<V>) -> EncodedMetric<V> {
    EncodedMetric {
        labels: metric.labels,
        counter: if kind == EncodedKind::Counter { Some(metric.counter) } else { None },
        gauge: if kind == EncodedKind::Gauge { Some(metric.gauge) } else { None },
    }
}

/// Whether `encoded` is the collected family `family` carried over as a
/// family of kind `kind`: name, help text and the samples in their order.
pub open spec fn is_encoding_of<V>(
    encoded: EncodedFamily<V>,
    family: CollectedFamily<V>,
    kind: EncodedKind,
) -> bool {
    &&& encoded.name == family.name
    &&& encoded.help == family.help
    &&& encoded.kind == kind
    &&& encoded.metrics@.len() == family.metrics@.len()
    &&& forall|i: int|
        0 <= i < family.metrics@.len() ==> #[trigger] encoded.metrics@[i] == encoded_metric(
            kind,
            family.metrics@[i],
        )
}

fn encode_kind(kind: CollectedKind) -> (r: Option<EncodedKind>)
    ensures
        r == encoded_kind(kind),
{
    match kind {
        CollectedKind::Counter => Some(EncodedKind::Counter),
        CollectedKind::Gauge => Some(EncodedKind::Gauge),
        _ => None,
    }
}

/// Converts a family of the process collector: `None` for a kind other than
/// counter or gauge, else the family with each sample's value in the slot of
/// its kind.
pub fn convert_family<V: Copy>(family: CollectedFamily<V>) -> (r: Option<EncodedFamily<V>>)
    ensures
        encoded_kind(family.kind) is None ==> r is None,
        encoded_kind(family.kind) matches Some(kind) ==> (r matches Some(encoded)
            && is_encoding_of(encoded, family, kind)),
{
    let kind = match encode_kind(family.kind) {
        Some(kind) => kind,
        None => return None,
    };
    let ghost collected = family.metrics@;
    let CollectedFamily { name, help, kind: _, metrics } = family;
    let mut encoded: Vec<EncodedMetric<V>> = Vec::new();
    for metric in it: metrics.into_iter()
        invariant
            it.seq() == collected,
            encoded@.len() == it.index(),
            forall|i: int|
                0 <= i < it.index() ==> #[trigger] encoded@[i] == encoded_metric(
                    kind,
                    collected[i],
                ),
    {
        let counter = if kind == EncodedKind::Counter {
            Some(metric.counter)
        } else {
            None
        };
        let gauge = if kind == EncodedKind::Gauge {
            Some(metric.gauge)
        } else {
            None
        };
        encoded.push(EncodedMetric { labels: metric.labels, counter, gauge });
    }
    Some(EncodedFamily { name, help, kind, metrics: encoded })
}

} // verus!

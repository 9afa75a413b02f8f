//! A monitor of a set of runtimes that records their metrics when sampled.
//! Runtimes are told apart by name, by id, or by both; whichever is used must
//! be used for every runtime, and be unique.

use vstd::prelude::*;
use crate::runtime_metrics::{
    name_view, record_all, LabelsView, RuntimeLabels, RuntimeMetrics, RuntimeSample,
};

verus! {

/// Why a runtime cannot join a monitor.
#[derive(Clone, Copy, Debug, PartialEq, Eq, Structural)]
pub enum RuntimeRejection {
    /// A name or an id is given for some runtimes and not for others.
    InconsistentLabels,
    /// The name or the id is already that of a monitored runtime.
    DuplicateLabels,
}

/// Whether the labels `a` and `b` differ in which of name and id they give.
pub open spec fn inconsistent(a: LabelsView, b: LabelsView) -> bool {
    (a.0 is Some) != (b.0 is Some) || (a.1 is Some) != (b.1 is Some)
}

/// Whether the labels `a` and `b` share a name or an id.
pub open spec fn clashing(a: LabelsView, b: LabelsView) -> bool {
    (a.0 is Some && a.0 == b.0) || (a.1 is Some && a.1 == b.1)
}

/// Whether a runtime with `labels` may join runtimes with the labels `existing`:
/// `None` if it may, otherwise the first reason, in the order checked, why not.
pub open spec fn rejection(existing: Seq<LabelsView>, labels: LabelsView) -> Option<
    RuntimeRejection,
> {
    if exists|i: int| 0 <= i < existing.len() && inconsistent(#[trigger] existing[i], labels) {
        Some(RuntimeRejection::InconsistentLabels)
    } else if exists|i: int| 0 <= i < existing.len() && clashing(#[trigger] existing[i], labels) {
        Some(RuntimeRejection::DuplicateLabels)
    } else {
        None
    }
}

/// Monitors a set of runtimes, recording metrics for each when sampled.
pub struct RuntimeMonitor {
    runtimes: Vec<RuntimeLabels>,
}

impl RuntimeMonitor {
    /// The labels of the monitored runtimes, in the order they were added.
    pub closed spec fn labels(&self) -> Seq<LabelsView> {
        self.runtimes@.map_values(|l: RuntimeLabels| l@)
    }

    /// A monitor of no runtime.
    pub fn new() -> (r: Self)
        ensures
            r.labels() == Seq::<LabelsView>::empty(),
    {
        let r = RuntimeMonitor { runtimes: Vec::new() };
        assert(r.labels() =~= Seq::<LabelsView>::empty());
        r
    }

    /// The number of monitored runtimes.
    pub fn len(&self) -> (r: usize)
        ensures
            r == self.labels().len(),
    {
        self.runtimes.len()
    }

    /// Whether a runtime with this name and id may join the monitor, and if
    /// not, why.
    pub fn check_runtime(&self, runtime_name: &Option<String>, runtime_id: Option<usize>) -> (r:
        Option<RuntimeRejection>)
        ensures
            r == rejection(self.labels(), (name_view(*runtime_name), runtime_id)),
    {
        let ghost labels = (name_view(*runtime_name), runtime_id);
        let n = self.runtimes.len();
        let mut i: usize = 0;
        while i < n
            invariant
                n == self.runtimes@.len(),
                i <= n,
                labels == (name_view(*runtime_name), runtime_id),
                forall|j: int| 0 <= j < i ==> !inconsistent(#[trigger] self.labels()[j], labels),
            decreases n - i,
        {
            let h = &self.runtimes[i];
            if h.runtime_name.is_some() != runtime_name.is_some() || h.runtime_id.is_some()
                != runtime_id.is_some() {
                assert(self.labels()[i as int] == h@);
                return Some(RuntimeRejection::InconsistentLabels);
            }
            assert(self.labels()[i as int] == h@);
            assert(h.runtime_name is Some <==> h@.0 is Some);
            assert(runtime_name is Some <==> labels.0 is Some);
            assert(!inconsistent(h@, labels));
            i = i + 1;
        }
        let mut i: usize = 0;
        while i < n
            invariant
                n == self.runtimes@.len(),
                i <= n,
                labels == (name_view(*runtime_name), runtime_id),
                forall|j: int| 0 <= j < n ==> !inconsistent(#[trigger] self.labels()[j], labels),
                forall|j: int| 0 <= j < i ==> !clashing(#[trigger] self.labels()[j], labels),
            decreases n - i,
        {
            let h = &self.runtimes[i];
            let same_name = match &h.runtime_name {
                Some(a) => match runtime_name {
                    Some(b) => *a == *b,
                    None => false,
                },
                None => false,
            };
            let same_id = match h.runtime_id {
                Some(a) => match runtime_id {
                    Some(b) => a == b,
                    None => false,
                },
                None => false,
            };
            assert(self.labels()[i as int] == h@);
            assert(same_name == (h@.0 is Some && h@.0 == labels.0));
            assert(same_id == (h@.1 is Some && h@.1 == labels.1));
            if same_name || same_id {
                return Some(RuntimeRejection::DuplicateLabels);
            }
            i = i + 1;
        }
        None
    }

    /// Adds a runtime to the monitor, optionally with a name and an id. The
    /// runtime must be accepted (see [`RuntimeMonitor::check_runtime`]).
    pub fn add_runtime(&mut self, runtime_name: Option<String>, runtime_id: Option<usize>)
        requires
            rejection(old(self).labels(), (name_view(runtime_name), runtime_id)) is None,
        ensures
            final(self).labels() == old(self).labels().push((name_view(runtime_name), runtime_id)),
    {
        self.runtimes.push(RuntimeLabels { runtime_name, runtime_id });
        assert(self.labels() =~= old(self).labels().push((name_view(runtime_name), runtime_id)));
    }

    /// Records a sample of each monitored runtime: `samples` holds one sample
    /// for each runtime, in the order they were added.
    pub fn record_sample(&self, metrics: &mut RuntimeMetrics, samples: &Vec<RuntimeSample>)
        requires
            samples@.len() == self.labels().len(),
        ensures
            final(metrics)@ == record_all(old(metrics)@, self.labels(), samples@),
    {
        let ghost before = metrics@;
        let ghost labels = self.labels();
        let n = self.runtimes.len();
        let mut i: usize = 0;
        while i < n
            invariant
                i <= n,
                n == self.runtimes@.len(),
                n == samples@.len(),
                labels == self.labels(),
                metrics@ == record_all(before, labels.take(i as int), samples@.take(i as int)),
            decreases n - i,
        {
            metrics.record_sample(&self.runtimes[i], &samples[i]);
            proof {
                let l1 = labels.take(i + 1);
                let s1 = samples@.take(i + 1);
                assert(l1.drop_last() =~= labels.take(i as int));
                assert(s1.drop_last() =~= samples@.take(i as int));
                assert(l1.last() == self.runtimes@[i as int]@);
            }
            i = i + 1;
        }
        assert(labels.take(n as int) =~= labels);
        assert(samples@.take(n as int) =~= samples@);
    }
}

impl Default for RuntimeMonitor {
    /// A monitor of no runtime.
    fn default() -> (r: Self)
        ensures
            r.labels() == Seq::<LabelsView>::empty(),
    {
        RuntimeMonitor::new()
    }
}

} // verus!

//! Metrics of async runtimes: a registry of monitored runtimes, each known by
//! an optional name and an optional id, and the series that a sample of each
//! runtime's counters and gauges sets.

use vstd::prelude::*;

verus! {

/// The labels of a runtime as values: its name and its id.
pub type LabelsView = (Option<Seq<char>>, Option<usize>);

/// A runtime's name, as a value.
pub open spec fn name_view(name: Option<String>) -> Option<Seq<char>> {
    match name {
        Some(s) => Some(s@),
        None => None,
    }
}

/// The labels that tell monitored runtimes apart.
#[derive(Clone, Debug, PartialEq, Eq)]
pub struct RuntimeLabels {
    pub runtime_name: Option<String>,
    pub runtime_id: Option<usize>,
}

impl View for RuntimeLabels {
    type V = LabelsView;

    open spec fn view(&self) -> LabelsView {
        (name_view(self.runtime_name), self.runtime_id)
    }
}

impl RuntimeLabels {
    /// A copy of the labels.
    pub fn duplicate(&self) -> (r: Self)
        ensures
            r@ == self@,
    {
        let runtime_name = match &self.runtime_name {
            Some(n) => Some(n.clone()),
            None => None,
        };
        RuntimeLabels { runtime_name, runtime_id: self.runtime_id }
    }

    /// Whether these labels are `name` and `id`.
    pub fn is(&self, name: &Option<String>, id: Option<usize>) -> (r: bool)
        ensures
            r == (self@ == (name_view(*name), id)),
    {
        let same_name = match (&self.runtime_name, name) {
            (Some(a), Some(b)) => *a == *b,
            (None, None) => true,
            _ => false,
        };
        let same_id = match (self.runtime_id, id) {
            (Some(a), Some(b)) => a == b,
            (None, None) => true,
            _ => false,
        };
        same_name && same_id
    }
}

// ---------------------------------------------------------------------------
// The registry of runtimes, held in a slab.
// ---------------------------------------------------------------------------

#[verifier::external_type_specification]
#[verifier::external_body]
#[verifier::reject_recursive_types(T)]
pub struct ExSlab<T>(slab::Slab<T>);

/// The runtimes that a slab holds, by key.
pub uninterp spec fn slab_runtimes(slab: slab::Slab<RuntimeLabels>) -> Map<usize, LabelsView>;

/// `Slab::new`: an empty slab.
#[verifier::external_body]
fn slab_new() -> (created: slab::Slab<RuntimeLabels>)
    ensures
        slab_runtimes(created).dom() == Set::<usize>::empty(),
{
    slab::Slab::new()
}

/// `Slab::insert`: stores the labels under a key that was vacant and returns
/// that key; the other entries stay.
#[verifier::external_body]
fn slab_insert(slab: &mut slab::Slab<RuntimeLabels>, labels: RuntimeLabels) -> (key: usize)
    ensures
        !slab_runtimes(*old(slab)).dom().contains(key),
        slab_runtimes(*final(slab)) == slab_runtimes(*old(slab)).insert(key, labels@),
{
    slab.insert(labels)
}

/// `Slab::try_remove`: removes and returns the entry under `key`, or returns
/// `None` and changes nothing when the key holds no entry.
#[verifier::external_body]
fn slab_try_remove(slab: &mut slab::Slab<RuntimeLabels>, key: usize) -> (r: Option<RuntimeLabels>)
    ensures
        match r {
            Some(labels) => {
                &&& slab_runtimes(*old(slab)).dom().contains(key)
                &&& labels@ == slab_runtimes(*old(slab))[key]
                &&& slab_runtimes(*final(slab)) == slab_runtimes(*old(slab)).remove(key)
            },
            None => {
                &&& !slab_runtimes(*old(slab)).dom().contains(key)
                &&& slab_runtimes(*final(slab)) == slab_runtimes(*old(slab))
            },
        },
{
    slab.try_remove(key)
}

/// Whether `keys` lists the keys of `dom` in increasing order.
pub open spec fn is_key_order(keys: Seq<usize>, dom: Set<usize>) -> bool {
    &&& forall|i: int, j: int| 0 <= i < j < keys.len() ==> keys[i] < keys[j]
    &&& forall|i: int| 0 <= i < keys.len() ==> dom.contains(#[trigger] keys[i])
    &&& forall|k: usize| dom.contains(k) ==> keys.contains(k)
}

/// `Slab::iter`: the entries, as key and labels, in increasing key order.
#[verifier::external_body]
fn slab_entries(slab: &slab::Slab<RuntimeLabels>) -> (r: Vec<(usize, RuntimeLabels)>)
    ensures
        is_key_order(r@.map_values(|e: (usize, RuntimeLabels)| e.0), slab_runtimes(*slab).dom()),
        forall|i: int|
            0 <= i < r@.len() ==> slab_runtimes(*slab)[#[trigger] r@[i].0] == r@[i].1@,
{
    slab.iter().map(|(key, labels)| (key, labels.duplicate())).collect()
}

/// Two increasing listings of the same keys are the same.
proof fn lemma_key_order_unique(a: Seq<usize>, b: Seq<usize>, dom: Set<usize>)
    requires
        is_key_order(a, dom),
        is_key_order(b, dom),
    ensures
        a == b,
    decreases a.len(),
{
    if a.len() == 0 {
        if b.len() > 0 {
            assert(dom.contains(b[0]));
            assert(a.contains(b[0]));
        }
        assert(a =~= b);
    } else {
        assert(dom.contains(a[0]));
        assert(b.contains(a[0]));
        let j = choose|j: int| 0 <= j < b.len() && b[j] == a[0];
        assert(dom.contains(b[0]));
        assert(a.contains(b[0]));
        let i = choose|i: int| 0 <= i < a.len() && a[i] == b[0];
        if j > 0 {
            assert(b[0] < b[j]);
        }
        if i > 0 {
            assert(a[0] < a[i]);
        }
        assert(a[0] == b[0]);
        let d = dom.remove(a[0]);
        let a1 = a.drop_first();
        let b1 = b.drop_first();
        assert forall|k: usize| d.contains(k) implies a1.contains(k) by {
            let n = choose|n: int| 0 <= n < a.len() && a[n] == k;
            assert(n != 0);
            assert(a1[n - 1] == k);
        }
        assert forall|k: usize| d.contains(k) implies b1.contains(k) by {
            let n = choose|n: int| 0 <= n < b.len() && b[n] == k;
            assert(n != 0);
            assert(b1[n - 1] == k);
        }
        assert forall|n: int| 0 <= n < a1.len() implies d.contains(#[trigger] a1[n]) by {
            assert(a[0] < a[n + 1]);
        }
        assert forall|n: int| 0 <= n < b1.len() implies d.contains(#[trigger] b1[n]) by {
            assert(b[0] < b[n + 1]);
        }
        assert forall|n: int, m: int| 0 <= n < m < a1.len() implies a1[n] < a1[m] by {
            assert(a[n + 1] < a[m + 1]);
        }
        assert forall|n: int, m: int| 0 <= n < m < b1.len() implies b1[n] < b1[m] by {
            assert(b[n + 1] < b[m + 1]);
        }
        lemma_key_order_unique(a1, b1, d);
        assert(a1 == b1);
        assert(a1.len() == a.len() - 1);
        assert(b1.len() == b.len() - 1);
        assert(a.len() == b.len());
        assert forall|n: int| 0 <= n < a.len() implies a[n] == b[n] by {
            if n > 0 {
                assert(a[n] == a1[n - 1]);
                assert(b[n] == b1[n - 1]);
            }
        }
        assert(a =~= b);
    }
}

/// The keys of a registry's runtimes, in increasing order.
pub open spec fn key_order(dom: Set<usize>) -> Seq<usize> {
    choose|keys: Seq<usize>| is_key_order(keys, dom)
}

/// Whether no two entries of the sequence are equal.
pub open spec fn all_distinct<A>(s: Seq<A>) -> bool {
    forall|i: int, j: int| 0 <= i < s.len() && 0 <= j < s.len() && i != j ==> s[i] != s[j]
}

/// The key of a registered runtime, with which it can be deregistered.
pub struct Key(usize);

impl Key {
    /// The key's value.
    pub closed spec fn index(&self) -> usize {
        self.0
    }

    /// The key's value.
    pub fn value(&self) -> (r: usize)
        ensures
            r == self.index(),
    {
        self.0
    }
}

/// The runtimes being monitored, each under the key it was registered with.
/// No two runtimes share both name and id.
pub struct RuntimeRegistry {
    runtimes: slab::Slab<RuntimeLabels>,
}

impl RuntimeRegistry {
    /// The labels of the monitored runtimes, by key.
    pub closed spec fn runtimes(&self) -> Map<usize, LabelsView> {
        slab_runtimes(self.runtimes)
    }

    /// No two runtimes share both name and id.
    #[verifier::type_invariant]
    spec fn labels_are_unique(&self) -> bool {
        &&& slab_runtimes(self.runtimes).dom().finite()
        &&& forall|a: usize, b: usize|
            slab_runtimes(self.runtimes).dom().contains(a) && slab_runtimes(
                self.runtimes,
            ).dom().contains(b) && a != b ==> slab_runtimes(self.runtimes)[a] != slab_runtimes(
                self.runtimes,
            )[b]
    }

    /// The labels of the monitored runtimes, in increasing key order.
    pub open spec fn ordered_labels(&self) -> Seq<LabelsView> {
        key_order(self.runtimes().dom()).map_values(|k: usize| self.runtimes()[k])
    }

    /// A registry that monitors no runtime.
    pub fn new() -> (r: Self)
        ensures
            r.runtimes() == Map::<usize, LabelsView>::empty(),
    {
        let r = RuntimeRegistry { runtimes: slab_new() };
        assert(r.runtimes() =~= Map::<usize, LabelsView>::empty());
        r
    }

    /// The monitored runtimes, as key and labels, in increasing key order.
    fn entries(&self) -> (r: Vec<(usize, RuntimeLabels)>)
        ensures
            is_key_order(key_order(self.runtimes().dom()), self.runtimes().dom()),
            r@.map_values(|e: (usize, RuntimeLabels)| e.0) == key_order(self.runtimes().dom()),
            forall|i: int| 0 <= i < r@.len() ==> self.runtimes()[#[trigger] r@[i].0] == r@[i].1@,
    {
        let r = slab_entries(&self.runtimes);
        proof {
            let keys = r@.map_values(|e: (usize, RuntimeLabels)| e.0);
            lemma_key_order_unique(keys, key_order(self.runtimes().dom()), self.runtimes().dom());
        }
        r
    }

    /// The labels of the monitored runtimes are pairwise distinct.
    fn distinct_labels(&self) -> (r: Vec<(usize, RuntimeLabels)>)
        ensures
            r@.map_values(|e: (usize, RuntimeLabels)| e.0) == key_order(self.runtimes().dom()),
            forall|i: int| 0 <= i < r@.len() ==> self.runtimes()[#[trigger] r@[i].0] == r@[i].1@,
            all_distinct(self.ordered_labels()),
            self.ordered_labels().len() == r@.len(),
            r@.len() == self.runtimes().dom().len(),
    {
        proof {
            use_type_invariant(self);
        }
        let r = self.entries();
        proof {
            let keys = key_order(self.runtimes().dom());
            let ls = self.ordered_labels();
            assert(keys.len() == r@.len());
            assert(is_key_order(keys, self.runtimes().dom()));
            assert(keys.no_duplicates()) by {
                assert forall|i: int, j: int|
                    0 <= i < keys.len() && 0 <= j < keys.len() && i != j implies keys[i] != keys[j] by {
                    if i < j {
                        assert(keys[i] < keys[j]);
                    } else {
                        assert(keys[j] < keys[i]);
                    }
                }
            }
            keys.unique_seq_to_set();
            assert(keys.to_set() =~= self.runtimes().dom());
            assert forall|i: int, j: int|
                0 <= i < ls.len() && 0 <= j < ls.len() && i != j implies ls[i] != ls[j] by {
                assert(keys[i] == r@[i].0);
                assert(keys[j] == r@[j].0);
                assert(is_key_order(r@.map_values(|e: (usize, RuntimeLabels)| e.0), self.runtimes().dom()));
                if i < j {
                    assert(keys[i] < keys[j]);
                } else {
                    assert(keys[j] < keys[i]);
                }
                assert(self.runtimes().dom().contains(keys[i]));
                assert(self.runtimes().dom().contains(keys[j]));
            }
        }
        r
    }

    /// Whether a runtime with this name and id is monitored.
    pub fn is_registered(&self, runtime_name: &Option<String>, runtime_id: Option<usize>) -> (r: bool)
        ensures
            r == exists|k: usize|
                self.runtimes().dom().contains(k) && self.runtimes()[k] == (
                    name_view(*runtime_name),
                    runtime_id,
                ),
    {
        let entries = self.entries();
        let ghost keys = entries@.map_values(|e: (usize, RuntimeLabels)| e.0);
        let mut i: usize = 0;
        while i < entries.len()
            invariant
                i <= entries@.len(),
                keys == entries@.map_values(|e: (usize, RuntimeLabels)| e.0),
                keys == key_order(self.runtimes().dom()),
                is_key_order(keys, self.runtimes().dom()),
                forall|j: int| 0 <= j < entries@.len() ==> self.runtimes()[#[trigger] entries@[j].0] == entries@[j].1@,
                forall|j: int| 0 <= j < i ==> entries@[j].1@ != (name_view(*runtime_name), runtime_id),
            decreases entries@.len() - i,
        {
            if entries[i].1.is(runtime_name, runtime_id) {
                proof {
                    assert(keys[i as int] == entries@[i as int].0);
                    assert(self.runtimes().dom().contains(keys[i as int]));
                }
                return true;
            }
            i = i + 1;
        }
        proof {
            assert forall|k: usize| self.runtimes().dom().contains(k) implies self.runtimes()[k] != (
                name_view(*runtime_name),
                runtime_id,
            ) by {
                assert(keys.contains(k));
                let j = choose|j: int| 0 <= j < keys.len() && keys[j] == k;
                assert(keys[j] == entries@[j].0);
            }
        }
        false
    }
}

/// Adds a runtime to the registry, optionally with a name and an id to tell
/// it apart when several runtimes are monitored, and returns the key with
/// which it can later be removed. The name and id together must not be those
/// of a runtime already registered.
pub fn register_runtime(
    registry: &mut RuntimeRegistry,
    runtime_name: Option<String>,
    runtime_id: Option<usize>,
) -> (key: Key)
    requires
        !exists|k: usize|
            old(registry).runtimes().dom().contains(k) && old(registry).runtimes()[k] == (
                name_view(runtime_name),
                runtime_id,
            ),
    ensures
        !old(registry).runtimes().dom().contains(key.index()),
        final(registry).runtimes() == old(registry).runtimes().insert(
            key.index(),
            (name_view(runtime_name), runtime_id),
        ),
{
    proof {
        use_type_invariant(&*registry);
    }
    let labels = RuntimeLabels { runtime_name, runtime_id };
    let ghost before = slab_runtimes(registry.runtimes);
    let ghost new_labels = labels@;
    let mut runtimes = slab_new();
    std::mem::swap(&mut runtimes, &mut registry.runtimes);
    let key = slab_insert(&mut runtimes, labels);
    proof {
        let after = slab_runtimes(runtimes);
        assert(after.dom() =~= before.dom().insert(key));
        assert forall|a: usize, b: usize|
            after.dom().contains(a) && after.dom().contains(b) && a != b implies after[a]
            != after[b] by {
            assert(before == old(registry).runtimes());
            assert(after[key] == new_labels);
            if a == key {
                assert(before.dom().contains(b));
                assert(after[b] == before[b]);
                assert(!(before.dom().contains(b) && before[b] == new_labels));
            } else if b == key {
                assert(before.dom().contains(a));
                assert(after[a] == before[a]);
                assert(!(before.dom().contains(a) && before[a] == new_labels));
            }
        }
    }
    registry.runtimes = runtimes;
    Key(key)
}

/// Removes the runtime registered under `key`; `true` if there was one, and
/// `false`, with nothing changed, otherwise.
pub fn deregister_runtime(registry: &mut RuntimeRegistry, key: Key) -> (r: bool)
    ensures
        r == old(registry).runtimes().dom().contains(key.index()),
        final(registry).runtimes() == old(registry).runtimes().remove(key.index()),
{
    proof {
        use_type_invariant(&*registry);
    }
    let ghost before = slab_runtimes(registry.runtimes);
    let mut runtimes = slab_new();
    std::mem::swap(&mut runtimes, &mut registry.runtimes);
    let removed = slab_try_remove(&mut runtimes, key.0);
    proof {
        if removed is None {
            assert(before.remove(key.0) =~= before);
        }
        let after = slab_runtimes(runtimes);
        assert(after.dom() =~= before.dom().remove(key.0));
    }
    registry.runtimes = runtimes;
    removed.is_some()
}

/// The monitored runtimes, as key and labels, in increasing key order: the
/// order in which [`record_runtime_metrics_sample`] takes their samples.
pub fn monitored_runtimes(registry: &RuntimeRegistry) -> (r: Vec<(usize, RuntimeLabels)>)
    ensures
        r@.len() == registry.runtimes().dom().len(),
        r@.map_values(|e: (usize, RuntimeLabels)| e.0) == key_order(registry.runtimes().dom()),
        r@.map_values(|e: (usize, RuntimeLabels)| e.1@) == registry.ordered_labels(),
{
    let r = registry.distinct_labels();
    proof {
        assert(r@.map_values(|e: (usize, RuntimeLabels)| e.1@) =~= registry.ordered_labels());
    }
    r
}

// ---------------------------------------------------------------------------
// The series that samples set.
// ---------------------------------------------------------------------------

/// The runtime-wide values of a sample.
#[derive(Clone, Copy, Debug, PartialEq, Eq, Structural)]
pub struct RuntimeCoreValues {
    /// Number of worker threads in use by the runtime.
    pub workers: u64,
    /// Current number of blocking threads allocated by the runtime.
    pub blocking_threads: u64,
    /// Current number of alive tasks on the runtime.
    pub num_alive_tasks: u64,
    /// Current number of idle blocking threads.
    pub idle_blocking_threads: u64,
    /// Schedules not originating from a worker of the runtime.
    pub remote_schedules_total: u64,
    /// Forced yields due to task budgeting.
    pub budget_forced_yields_total: u64,
    /// File descriptors registered with the IO driver.
    pub io_driver_fd_registrations_total: u64,
    /// File descriptors deregistered from the IO driver.
    pub io_driver_fd_deregistrations_total: u64,
    /// Readiness events received through the IO driver.
    pub io_driver_fd_readies_total: u64,
    /// Current depth of the injection queue.
    pub injection_queue_depth: u64,
    /// Current depth of the blocking queue.
    pub blocking_queue_depth: u64,
}

/// The values of one worker in a sample.
#[derive(Clone, Copy, Debug, PartialEq, Eq, Structural)]
pub struct RuntimeWorkerValues {
    /// Times the worker has parked.
    pub parks_total: u64,
    /// Spurious noop parks of the worker.
    pub noops_total: u64,
    /// Tasks stolen by the worker.
    pub task_steals_total: u64,
    /// Times the worker has stolen one or more tasks.
    pub steal_operations_total: u64,
    /// Times the worker has polled a task.
    pub polls_total: u64,
    /// Time the worker has spent polling tasks, in microseconds.
    pub busy_duration_micros_total: u64,
    /// Local schedules of the worker.
    pub local_schedules_total: u64,
    /// Times the worker has overflown its local queue.
    pub overflows_total: u64,
    /// Current depth of the worker's local run queue.
    pub local_queue_depth: u64,
    /// Moving average of the worker's task poll times, in microseconds.
    pub mean_poll_time_micros: u64,
}

/// A sample of one runtime: its runtime-wide values and those of each of its
/// workers, by worker index.
#[derive(Clone, Debug)]
pub struct RuntimeSample {
    pub core: RuntimeCoreValues,
    pub workers: Vec<RuntimeWorkerValues>,
}

/// The value of every runtime-wide series that was never set.
pub open spec fn zero_core() -> RuntimeCoreValues {
    RuntimeCoreValues {
        workers: 0,
        blocking_threads: 0,
        num_alive_tasks: 0,
        idle_blocking_threads: 0,
        remote_schedules_total: 0,
        budget_forced_yields_total: 0,
        io_driver_fd_registrations_total: 0,
        io_driver_fd_deregistrations_total: 0,
        io_driver_fd_readies_total: 0,
        injection_queue_depth: 0,
        blocking_queue_depth: 0,
    }
}

/// The value of every worker series that was never set.
pub open spec fn zero_worker() -> RuntimeWorkerValues {
    RuntimeWorkerValues {
        parks_total: 0,
        noops_total: 0,
        task_steals_total: 0,
        steal_operations_total: 0,
        polls_total: 0,
        busy_duration_micros_total: 0,
        local_schedules_total: 0,
        overflows_total: 0,
        local_queue_depth: 0,
        mean_poll_time_micros: 0,
    }
}

/// The series of the runtime metrics as values: the runtime-wide series by
/// labels, and the worker series by labels and worker index.
pub struct RuntimeMetricsView {
    pub core: Map<LabelsView, RuntimeCoreValues>,
    pub workers: Map<(LabelsView, usize), RuntimeWorkerValues>,
}

/// The runtime-wide values of the runtime with the given labels; zero for a
/// runtime that no sample set.
pub open spec fn core_values_at(m: RuntimeMetricsView, labels: LabelsView) -> RuntimeCoreValues {
    if m.core.dom().contains(labels) {
        m.core[labels]
    } else {
        zero_core()
    }
}

/// The values of a worker of the runtime with the given labels; zero for a
/// worker that no sample set.
pub open spec fn worker_values_at(
    m: RuntimeMetricsView,
    labels: LabelsView,
    worker_idx: usize,
) -> RuntimeWorkerValues {
    if m.workers.dom().contains((labels, worker_idx)) {
        m.workers[(labels, worker_idx)]
    } else {
        zero_worker()
    }
}

/// The worker series after setting those of the first `workers.len()`
/// workers of the runtime `labels`.
pub open spec fn set_workers(
    m: Map<(LabelsView, usize), RuntimeWorkerValues>,
    labels: LabelsView,
    workers: Seq<RuntimeWorkerValues>,
) -> Map<(LabelsView, usize), RuntimeWorkerValues>
    decreases workers.len(),
{
    if workers.len() == 0 {
        m
    } else {
        set_workers(m, labels, workers.drop_last()).insert(
            (labels, (workers.len() - 1) as usize),
            workers.last(),
        )
    }
}

/// The series after recording a sample of the runtime `labels`.
pub open spec fn record_one(
    m: RuntimeMetricsView,
    labels: LabelsView,
    sample: RuntimeSample,
) -> RuntimeMetricsView {
    RuntimeMetricsView {
        core: m.core.insert(labels, sample.core),
        workers: set_workers(m.workers, labels, sample.workers@),
    }
}

/// The series after recording each sample for the runtime at the same
/// position, in order.
pub open spec fn record_all(
    m: RuntimeMetricsView,
    labels: Seq<LabelsView>,
    samples: Seq<RuntimeSample>,
) -> RuntimeMetricsView
    decreases labels.len(),
{
    if labels.len() == 0 || samples.len() == 0 {
        m
    } else {
        record_one(
            record_all(m, labels.drop_last(), samples.drop_last()),
            labels.last(),
            samples.last(),
        )
    }
}

/// A table of series with the last entry of each key being its value.
struct SeriesTable<V> {
    entries: Vec<(RuntimeLabels, usize, V)>,
}

spec fn series_key<V>(e: (RuntimeLabels, usize, V)) -> (LabelsView, usize) {
    (e.0@, e.1)
}

spec fn series_map<V>(s: Seq<(RuntimeLabels, usize, V)>) -> Map<(LabelsView, usize), V>
    decreases s.len(),
{
    if s.len() == 0 {
        Map::empty()
    } else {
        series_map(s.drop_last()).insert(series_key(s.last()), s.last().2)
    }
}

proof fn lemma_series_map_absent<V>(s: Seq<(RuntimeLabels, usize, V)>, k: (LabelsView, usize))
    requires
        forall|j: int| 0 <= j < s.len() ==> series_key(#[trigger] s[j]) != k,
    ensures
        !series_map(s).dom().contains(k),
    decreases s.len(),
{
    if s.len() > 0 {
        lemma_series_map_absent(s.drop_last(), k);
    }
}

proof fn lemma_series_map_last<V>(s: Seq<(RuntimeLabels, usize, V)>, i: int)
    requires
        0 <= i < s.len(),
        forall|j: int| i < j < s.len() ==> series_key(#[trigger] s[j]) != series_key(s[i]),
    ensures
        series_map(s).dom().contains(series_key(s[i])),
        series_map(s)[series_key(s[i])] == s[i].2,
    decreases s.len(),
{
    if i < s.len() - 1 {
        assert forall|j: int| i < j < s.drop_last().len() implies series_key(
            #[trigger] s.drop_last()[j],
        ) != series_key(s.drop_last()[i]) by {
            assert(s.drop_last()[j] == s[j]);
        }
        lemma_series_map_last(s.drop_last(), i);
    }
}

proof fn lemma_series_map_update<V>(s: Seq<(RuntimeLabels, usize, V)>, i: int, e: (RuntimeLabels, usize, V))
    requires
        0 <= i < s.len(),
        series_key(s[i]) == series_key(e),
        forall|j: int| i < j < s.len() ==> series_key(#[trigger] s[j]) != series_key(e),
    ensures
        series_map(s.update(i, e)) == series_map(s).insert(series_key(e), e.2),
    decreases s.len(),
{
    let t = s.update(i, e);
    if i == s.len() - 1 {
        assert(t.drop_last() =~= s.drop_last());
        assert(series_map(t) =~= series_map(s).insert(series_key(e), e.2));
    } else {
        assert(t.drop_last() =~= s.drop_last().update(i, e));
        assert forall|j: int| i < j < s.drop_last().len() implies series_key(
            #[trigger] s.drop_last()[j],
        ) != series_key(e) by {
            assert(s.drop_last()[j] == s[j]);
        }
        lemma_series_map_update(s.drop_last(), i, e);
        assert(series_map(t) =~= series_map(s).insert(series_key(e), e.2));
    }
}

impl<V: Copy> SeriesTable<V> {
    spec fn map(&self) -> Map<(LabelsView, usize), V> {
        series_map(self.entries@)
    }

    fn new() -> (r: Self)
        ensures
            r.map() == Map::<(LabelsView, usize), V>::empty(),
    {
        SeriesTable { entries: Vec::new() }
    }

    /// The position of the last entry with the given key.
    fn find(&self, name: &Option<String>, id: Option<usize>, idx: usize) -> (r: Option<usize>)
        ensures
            match r {
                Some(i) => {
                    &&& i < self.entries@.len()
                    &&& series_key(self.entries@[i as int]) == ((name_view(*name), id), idx)
                    &&& forall|j: int|
                        i < j < self.entries@.len() ==> series_key(#[trigger] self.entries@[j]) != (
                            (name_view(*name), id),
                            idx,
                        )
                },
                None => forall|j: int|
                    0 <= j < self.entries@.len() ==> series_key(#[trigger] self.entries@[j]) != (
                        (name_view(*name), id),
                        idx,
                    ),
            },
    {
        let mut i: usize = self.entries.len();
        while i > 0
            invariant
                i <= self.entries@.len(),
                forall|j: int|
                    i <= j < self.entries@.len() ==> series_key(#[trigger] self.entries@[j]) != (
                        (name_view(*name), id),
                        idx,
                    ),
            decreases i,
        {
            i = i - 1;
            let e = &self.entries[i];
            if e.0.is(name, id) && e.1 == idx {
                return Some(i);
            }
        }
        None
    }

    /// The value of a series, or `absent` where it was never set.
    fn get_or(&self, name: &Option<String>, id: Option<usize>, idx: usize, absent: V) -> (r: V)
        ensures
            r == if self.map().dom().contains(((name_view(*name), id), idx)) {
                self.map()[((name_view(*name), id), idx)]
            } else {
                absent
            },
    {
        match self.find(name, id, idx) {
            Some(i) => {
                proof {
                    lemma_series_map_last(self.entries@, i as int);
                }
                self.entries[i].2
            },
            None => {
                proof {
                    lemma_series_map_absent(self.entries@, ((name_view(*name), id), idx));
                }
                absent
            },
        }
    }

    /// Sets a series.
    fn set(&mut self, labels: &RuntimeLabels, idx: usize, value: V)
        ensures
            final(self).map() == old(self).map().insert((labels@, idx), value),
    {
        let entry = (labels.duplicate(), idx, value);
        match self.find(&labels.runtime_name, labels.runtime_id, idx) {
            Some(i) => {
                proof {
                    lemma_series_map_update(self.entries@, i as int, entry);
                }
                self.entries.set(i, entry);
            },
            None => {
                self.entries.push(entry);
                proof {
                    assert(self.entries@.drop_last() =~= old(self).entries@);
                }
            },
        }
    }
}

/// The series of the monitored runtimes.
pub struct RuntimeMetrics {
    core: SeriesTable<RuntimeCoreValues>,
    workers: SeriesTable<RuntimeWorkerValues>,
}

impl View for RuntimeMetrics {
    type V = RuntimeMetricsView;

    closed spec fn view(&self) -> RuntimeMetricsView {
        RuntimeMetricsView {
            core: Map::new(
                |l: LabelsView| self.core.map().dom().contains((l, 0usize)),
                |l: LabelsView| self.core.map()[(l, 0usize)],
            ),
            workers: self.workers.map(),
        }
    }
}

impl RuntimeMetrics {
    /// No series set.
    pub fn new() -> (r: Self)
        ensures
            r@.core == Map::<LabelsView, RuntimeCoreValues>::empty(),
            r@.workers == Map::<(LabelsView, usize), RuntimeWorkerValues>::empty(),
    {
        let r = RuntimeMetrics { core: SeriesTable::new(), workers: SeriesTable::new() };
        assert(r@.core =~= Map::<LabelsView, RuntimeCoreValues>::empty());
        r
    }

    /// The runtime-wide values of a runtime, zero where no sample set them.
    pub fn core_values(&self, runtime_name: &Option<String>, runtime_id: Option<usize>) -> (r:
        RuntimeCoreValues)
        ensures
            r == core_values_at(self@, (name_view(*runtime_name), runtime_id)),
    {
        let zero = RuntimeCoreValues {
            workers: 0,
            blocking_threads: 0,
            num_alive_tasks: 0,
            idle_blocking_threads: 0,
            remote_schedules_total: 0,
            budget_forced_yields_total: 0,
            io_driver_fd_registrations_total: 0,
            io_driver_fd_deregistrations_total: 0,
            io_driver_fd_readies_total: 0,
            injection_queue_depth: 0,
            blocking_queue_depth: 0,
        };
        self.core.get_or(runtime_name, runtime_id, 0, zero)
    }

    /// The values of a worker of a runtime, zero where no sample set them.
    pub fn worker_values(
        &self,
        runtime_name: &Option<String>,
        runtime_id: Option<usize>,
        worker_idx: usize,
    ) -> (r: RuntimeWorkerValues)
        ensures
            r == worker_values_at(self@, (name_view(*runtime_name), runtime_id), worker_idx),
    {
        let zero = RuntimeWorkerValues {
            parks_total: 0,
            noops_total: 0,
            task_steals_total: 0,
            steal_operations_total: 0,
            polls_total: 0,
            busy_duration_micros_total: 0,
            local_schedules_total: 0,
            overflows_total: 0,
            local_queue_depth: 0,
            mean_poll_time_micros: 0,
        };
        self.workers.get_or(runtime_name, runtime_id, worker_idx, zero)
    }

    /// Records a sample of the runtime with the given labels: sets its
    /// runtime-wide series, and those of each of its workers.
    pub fn record_sample(&mut self, labels: &RuntimeLabels, sample: &RuntimeSample)
        ensures
            final(self)@ == record_one(old(self)@, labels@, *sample),
    {
        let ghost before = self@;
        self.core.set(labels, 0, sample.core);
        assert(self@.core =~= before.core.insert(labels@, sample.core));
        let mut i: usize = 0;
        assert(sample.workers@.take(0) =~= Seq::<RuntimeWorkerValues>::empty());
        while i < sample.workers.len()
            invariant
                i <= sample.workers@.len(),
                self@.core == before.core.insert(labels@, sample.core),
                self@.workers == set_workers(before.workers, labels@, sample.workers@.take(i as int)),
            decreases sample.workers@.len() - i,
        {
            let ghost prev = self@;
            self.workers.set(labels, i, sample.workers[i]);
            proof {
                let t = sample.workers@.take(i + 1);
                assert(t.drop_last() =~= sample.workers@.take(i as int));
                assert(self@.core =~= prev.core);
            }
            i = i + 1;
        }
        assert(sample.workers@.take(sample.workers@.len() as int) =~= sample.workers@);
    }
}

/// Records a sample of each monitored runtime: `samples` holds one sample for
/// each runtime, in the increasing key order of [`monitored_runtimes`].
pub fn record_runtime_metrics_sample(
    registry: &RuntimeRegistry,
    metrics: &mut RuntimeMetrics,
    samples: &Vec<RuntimeSample>,
)
    requires
        samples@.len() == registry.runtimes().dom().len(),
    ensures
        final(metrics)@ == record_all(old(metrics)@, registry.ordered_labels(), samples@),
        all_distinct(registry.ordered_labels()),
{
    let entries = registry.distinct_labels();
    let ghost labels = registry.ordered_labels();
    let ghost before = metrics@;
    let n: usize = entries.len();
    let mut i: usize = 0;
    while i < n
        invariant
            i <= n,
            n == entries@.len(),
            n == samples@.len(),
            labels.len() == entries@.len(),
            forall|j: int| 0 <= j < entries@.len() ==> labels[j] == #[trigger] entries@[j].1@,
            metrics@ == record_all(before, labels.take(i as int), samples@.take(i as int)),
        decreases n - i,
    {
        metrics.record_sample(&entries[i].1, &samples[i]);
        proof {
            let l1 = labels.take(i + 1);
            let s1 = samples@.take(i + 1);
            assert(l1.drop_last() =~= labels.take(i as int));
            assert(s1.drop_last() =~= samples@.take(i as int));
            assert(l1.last() == entries@[i as int].1@);
        }
        i = i + 1;
    }
    assert(labels.take(n as int) =~= labels);
    assert(samples@.take(n as int) =~= samples@);
}

// ---------------------------------------------------------------------------
// Reading the series.
// ---------------------------------------------------------------------------

/// Number of worker threads in use by the runtime.
pub fn workers(metrics: &RuntimeMetrics, runtime_name: &Option<String>, runtime_id: Option<usize>) -> (r:
    u64)
    ensures
        r == core_values_at(metrics@, (name_view(*runtime_name), runtime_id)).workers,
{
    metrics.core_values(runtime_name, runtime_id).workers
}

/// Current number of blocking threads allocated by the runtime.
pub fn blocking_threads(metrics: &RuntimeMetrics, runtime_name: &Option<String>, runtime_id: Option<usize>) -> (r:
    u64)
    ensures
        r == core_values_at(metrics@, (name_view(*runtime_name), runtime_id)).blocking_threads,
{
    metrics.core_values(runtime_name, runtime_id).blocking_threads
}

/// Current number of alive tasks on the runtime.
pub fn num_alive_tasks(metrics: &RuntimeMetrics, runtime_name: &Option<String>, runtime_id: Option<usize>) -> (r:
    u64)
    ensures
        r == core_values_at(metrics@, (name_view(*runtime_name), runtime_id)).num_alive_tasks,
{
    metrics.core_values(runtime_name, runtime_id).num_alive_tasks
}

/// Current number of idle blocking threads on the runtime.
pub fn idle_blocking_threads(metrics: &RuntimeMetrics, runtime_name: &Option<String>, runtime_id: Option<usize>) -> (r:
    u64)
    ensures
        r == core_values_at(metrics@, (name_view(*runtime_name), runtime_id)).idle_blocking_threads,
{
    metrics.core_values(runtime_name, runtime_id).idle_blocking_threads
}

/// Counter of schedules not originating from a worker of the runtime.
pub fn remote_schedules_total(metrics: &RuntimeMetrics, runtime_name: &Option<String>, runtime_id: Option<usize>) -> (r:
    u64)
    ensures
        r == core_values_at(metrics@, (name_view(*runtime_name), runtime_id)).remote_schedules_total,
{
    metrics.core_values(runtime_name, runtime_id).remote_schedules_total
}

/// Counter of forced yields due to task budgeting.
pub fn budget_forced_yields_total(metrics: &RuntimeMetrics, runtime_name: &Option<String>, runtime_id: Option<usize>) -> (r:
    u64)
    ensures
        r == core_values_at(metrics@, (name_view(*runtime_name), runtime_id)).budget_forced_yields_total,
{
    metrics.core_values(runtime_name, runtime_id).budget_forced_yields_total
}

/// Counter of file descriptors registered with the IO driver.
pub fn io_driver_fd_registrations_total(metrics: &RuntimeMetrics, runtime_name: &Option<String>, runtime_id: Option<usize>) -> (r:
    u64)
    ensures
        r == core_values_at(metrics@, (name_view(*runtime_name), runtime_id)).io_driver_fd_registrations_total,
{
    metrics.core_values(runtime_name, runtime_id).io_driver_fd_registrations_total
}

/// Counter of file descriptors deregistered from the IO driver.
pub fn io_driver_fd_deregistrations_total(metrics: &RuntimeMetrics, runtime_name: &Option<String>, runtime_id: Option<usize>) -> (r:
    u64)
    ensures
        r == core_values_at(metrics@, (name_view(*runtime_name), runtime_id)).io_driver_fd_deregistrations_total,
{
    metrics.core_values(runtime_name, runtime_id).io_driver_fd_deregistrations_total
}

/// Counter of readiness events received through the IO driver.
pub fn io_driver_fd_readies_total(metrics: &RuntimeMetrics, runtime_name: &Option<String>, runtime_id: Option<usize>) -> (r:
    u64)
    ensures
        r == core_values_at(metrics@, (name_view(*runtime_name), runtime_id)).io_driver_fd_readies_total,
{
    metrics.core_values(runtime_name, runtime_id).io_driver_fd_readies_total
}

/// Current depth of the runtime's injection queue.
pub fn injection_queue_depth(metrics: &RuntimeMetrics, runtime_name: &Option<String>, runtime_id: Option<usize>) -> (r:
    u64)
    ensures
        r == core_values_at(metrics@, (name_view(*runtime_name), runtime_id)).injection_queue_depth,
{
    metrics.core_values(runtime_name, runtime_id).injection_queue_depth
}

/// Current depth of the runtime's blocking queue.
pub fn blocking_queue_depth(metrics: &RuntimeMetrics, runtime_name: &Option<String>, runtime_id: Option<usize>) -> (r:
    u64)
    ensures
        r == core_values_at(metrics@, (name_view(*runtime_name), runtime_id)).blocking_queue_depth,
{
    metrics.core_values(runtime_name, runtime_id).blocking_queue_depth
}

/// Total number of times this worker has parked.
pub fn parks_total(
    metrics: &RuntimeMetrics,
    runtime_name: &Option<String>,
    runtime_id: Option<usize>,
    worker_idx: usize,
) -> (r: u64)
    ensures
        r == worker_values_at(metrics@, (name_view(*runtime_name), runtime_id), worker_idx).parks_total,
{
    metrics.worker_values(runtime_name, runtime_id, worker_idx).parks_total
}

/// Total number of spurious noop parks of this worker.
pub fn noops_total(
    metrics: &RuntimeMetrics,
    runtime_name: &Option<String>,
    runtime_id: Option<usize>,
    worker_idx: usize,
) -> (r: u64)
    ensures
        r == worker_values_at(metrics@, (name_view(*runtime_name), runtime_id), worker_idx).noops_total,
{
    metrics.worker_values(runtime_name, runtime_id, worker_idx).noops_total
}

/// Total number of tasks stolen by this worker.
pub fn task_steals_total(
    metrics: &RuntimeMetrics,
    runtime_name: &Option<String>,
    runtime_id: Option<usize>,
    worker_idx: usize,
) -> (r: u64)
    ensures
        r == worker_values_at(metrics@, (name_view(*runtime_name), runtime_id), worker_idx).task_steals_total,
{
    metrics.worker_values(runtime_name, runtime_id, worker_idx).task_steals_total
}

/// Total number of times this worker has stolen one or more tasks.
pub fn steal_operations_total(
    metrics: &RuntimeMetrics,
    runtime_name: &Option<String>,
    runtime_id: Option<usize>,
    worker_idx: usize,
) -> (r: u64)
    ensures
        r == worker_values_at(metrics@, (name_view(*runtime_name), runtime_id), worker_idx).steal_operations_total,
{
    metrics.worker_values(runtime_name, runtime_id, worker_idx).steal_operations_total
}

/// Total number of times this worker has polled a task.
pub fn polls_total(
    metrics: &RuntimeMetrics,
    runtime_name: &Option<String>,
    runtime_id: Option<usize>,
    worker_idx: usize,
) -> (r: u64)
    ensures
        r == worker_values_at(metrics@, (name_view(*runtime_name), runtime_id), worker_idx).polls_total,
{
    metrics.worker_values(runtime_name, runtime_id, worker_idx).polls_total
}

/// Total time this worker has spent polling tasks, in microseconds.
pub fn busy_duration_micros_total(
    metrics: &RuntimeMetrics,
    runtime_name: &Option<String>,
    runtime_id: Option<usize>,
    worker_idx: usize,
) -> (r: u64)
    ensures
        r == worker_values_at(metrics@, (name_view(*runtime_name), runtime_id), worker_idx).busy_duration_micros_total,
{
    metrics.worker_values(runtime_name, runtime_id, worker_idx).busy_duration_micros_total
}

/// Total number of local schedules of this worker.
pub fn local_schedules_total(
    metrics: &RuntimeMetrics,
    runtime_name: &Option<String>,
    runtime_id: Option<usize>,
    worker_idx: usize,
) -> (r: u64)
    ensures
        r == worker_values_at(metrics@, (name_view(*runtime_name), runtime_id), worker_idx).local_schedules_total,
{
    metrics.worker_values(runtime_name, runtime_id, worker_idx).local_schedules_total
}

/// Total number of times this worker has overflown its local queue.
pub fn overflows_total(
    metrics: &RuntimeMetrics,
    runtime_name: &Option<String>,
    runtime_id: Option<usize>,
    worker_idx: usize,
) -> (r: u64)
    ensures
        r == worker_values_at(metrics@, (name_view(*runtime_name), runtime_id), worker_idx).overflows_total,
{
    metrics.worker_values(runtime_name, runtime_id, worker_idx).overflows_total
}

/// Current depth of this worker's local run queue.
pub fn local_queue_depth(
    metrics: &RuntimeMetrics,
    runtime_name: &Option<String>,
    runtime_id: Option<usize>,
    worker_idx: usize,
) -> (r: u64)
    ensures
        r == worker_values_at(metrics@, (name_view(*runtime_name), runtime_id), worker_idx).local_queue_depth,
{
    metrics.worker_values(runtime_name, runtime_id, worker_idx).local_queue_depth
}

/// Moving average of this worker's task poll times, in microseconds.
pub fn mean_poll_time_micros(
    metrics: &RuntimeMetrics,
    runtime_name: &Option<String>,
    runtime_id: Option<usize>,
    worker_idx: usize,
) -> (r: u64)
    ensures
        r == worker_values_at(metrics@, (name_view(*runtime_name), runtime_id), worker_idx).mean_poll_time_micros,
{
    metrics.worker_values(runtime_name, runtime_id, worker_idx).mean_poll_time_micros
}

// ---------------------------------------------------------------------------
// Laws.
// ---------------------------------------------------------------------------

proof fn lemma_set_workers(
    m: Map<(LabelsView, usize), RuntimeWorkerValues>,
    labels: LabelsView,
    workers: Seq<RuntimeWorkerValues>,
    key: (LabelsView, usize),
)
    requires
        workers.len() <= usize::MAX,
    ensures
        key.0 == labels && key.1 < workers.len() ==> set_workers(m, labels, workers).dom().contains(
            key,
        ) && set_workers(m, labels, workers)[key] == workers[key.1 as int],
        !(key.0 == labels && key.1 < workers.len()) ==> (set_workers(
            m,
            labels,
            workers,
        ).dom().contains(key) == m.dom().contains(key)),
        !(key.0 == labels && key.1 < workers.len()) && m.dom().contains(key) ==> set_workers(
            m,
            labels,
            workers,
        )[key] == m[key],
    decreases workers.len(),
{
    if workers.len() > 0 {
        let w0 = workers.drop_last();
        lemma_set_workers(m, labels, w0, key);
        if key.0 == labels && key.1 < workers.len() && key.1 < w0.len() {
            assert(w0[key.1 as int] == workers[key.1 as int]);
        }
        if key.0 == labels && key.1 == w0.len() {
            assert(((workers.len() - 1) as usize) == key.1);
            assert((labels, (workers.len() - 1) as usize) == key);
        }
    }
}

/// Recorded samples read back: once the runtimes `labels`, no two alike,
/// have recorded the samples at the same positions, each runtime's series
/// hold the values of its own sample, and the series of every other runtime
/// keep their values.
pub proof fn lemma_recorded_samples_read_back(
    m: RuntimeMetricsView,
    labels: Seq<LabelsView>,
    samples: Seq<RuntimeSample>,
)
    requires
        all_distinct(labels),
        labels.len() == samples.len(),
        forall|i: int| 0 <= i < samples.len() ==> #[trigger] samples[i].workers@.len() <= usize::MAX,
    ensures
        forall|i: int|
            0 <= i < labels.len() ==> core_values_at(record_all(m, labels, samples), #[trigger] labels[i])
                == samples[i].core,
        forall|i: int, w: usize|
            0 <= i < labels.len() && w < samples[i].workers@.len() ==> #[trigger] worker_values_at(
                record_all(m, labels, samples),
                labels[i],
                w,
            ) == samples[i].workers@[w as int],
        forall|l: LabelsView|
            !labels.contains(l) ==> #[trigger] core_values_at(record_all(m, labels, samples), l)
                == core_values_at(m, l),
        forall|l: LabelsView, w: usize|
            !labels.contains(l) ==> #[trigger] worker_values_at(record_all(m, labels, samples), l, w)
                == worker_values_at(m, l, w),
    decreases labels.len(),
{
    if labels.len() > 0 {
        let n = labels.len() - 1;
        let l0 = labels.drop_last();
        let s0 = samples.drop_last();
        assert(all_distinct(l0)) by {
            assert forall|i: int, j: int|
                0 <= i < l0.len() && 0 <= j < l0.len() && i != j implies l0[i] != l0[j] by {
                assert(l0[i] == labels[i]);
                assert(l0[j] == labels[j]);
            }
        }
        assert forall|i: int| 0 <= i < s0.len() implies #[trigger] s0[i].workers@.len() <= usize::MAX by {
            assert(s0[i] == samples[i]);
        }
        lemma_recorded_samples_read_back(m, l0, s0);
        let prev = record_all(m, l0, s0);
        let last = labels[n];
        let sample = samples[n];
        let r = record_all(m, labels, samples);
        assert(r == record_one(prev, last, sample));
        assert forall|i: int| 0 <= i < labels.len() implies core_values_at(r, #[trigger] labels[i])
            == samples[i].core by {
            if i < n {
                assert(labels[i] != last);
                assert(l0[i] == labels[i]);
                assert(s0[i] == samples[i]);
            }
        }
        assert forall|i: int, w: usize|
            0 <= i < labels.len() && w < samples[i].workers@.len() implies #[trigger] worker_values_at(
                r,
                labels[i],
                w,
            ) == samples[i].workers@[w as int] by {
            lemma_set_workers(prev.workers, last, sample.workers@, (labels[i], w));
            if i < n {
                assert(labels[i] != last);
                assert(l0[i] == labels[i]);
                assert(s0[i] == samples[i]);
                assert(worker_values_at(prev, l0[i], w) == s0[i].workers@[w as int]);
            }
        }
        assert forall|l: LabelsView| !labels.contains(l) implies #[trigger] core_values_at(r, l)
            == core_values_at(m, l) by {
            assert(l != labels[n]);
            if l0.contains(l) {
                let j = choose|j: int| 0 <= j < l0.len() && l0[j] == l;
                assert(labels[j] == l);
            }
            assert(core_values_at(prev, l) == core_values_at(m, l));
        }
        assert forall|l: LabelsView, w: usize| !labels.contains(l) implies #[trigger] worker_values_at(
            r,
            l,
            w,
        ) == worker_values_at(m, l, w) by {
            assert(l != labels[n]);
            lemma_set_workers(prev.workers, last, sample.workers@, (l, w));
            if l0.contains(l) {
                let j = choose|j: int| 0 <= j < l0.len() && l0[j] == l;
                assert(labels[j] == l);
            }
            assert(worker_values_at(prev, l, w) == worker_values_at(m, l, w));
        }
    }
}

/// Deregistering the key that a registration returned undoes the
/// registration: the registry monitors the runtimes it monitored before.
pub proof fn lemma_deregister_undoes_register(
    before: Map<usize, LabelsView>,
    key: usize,
    labels: LabelsView,
)
    requires
        !before.dom().contains(key),
    ensures
        before.insert(key, labels).remove(key) == before,
{
    assert(before.insert(key, labels).remove(key) =~= before);
}

/// A sampling round records each monitored runtime's own sample: after
/// `record_runtime_metrics_sample`, the series of the runtime with the `i`-th
/// key in increasing order hold the `i`-th sample, runtime-wide and for each
/// of its workers, and runtimes that the registry does not monitor keep their
/// series.
pub proof fn lemma_sampling_round_records_each_runtime(
    registry: RuntimeRegistry,
    m: RuntimeMetricsView,
    samples: Seq<RuntimeSample>,
)
    requires
        all_distinct(registry.ordered_labels()),
        samples.len() == registry.ordered_labels().len(),
        forall|i: int| 0 <= i < samples.len() ==> #[trigger] samples[i].workers@.len() <= usize::MAX,
    ensures
        forall|i: int|
            0 <= i < samples.len() ==> core_values_at(
                record_all(m, registry.ordered_labels(), samples),
                registry.runtimes()[#[trigger] key_order(registry.runtimes().dom())[i]],
            ) == samples[i].core,
        forall|i: int, w: usize|
            0 <= i < samples.len() && w < samples[i].workers@.len() ==> worker_values_at(
                record_all(m, registry.ordered_labels(), samples),
                registry.runtimes()[#[trigger] key_order(registry.runtimes().dom())[i]],
                w,
            ) == #[trigger] samples[i].workers@[w as int],
        forall|l: LabelsView|
            !registry.ordered_labels().contains(l) ==> #[trigger] core_values_at(
                record_all(m, registry.ordered_labels(), samples),
                l,
            ) == core_values_at(m, l),
        forall|l: LabelsView, w: usize|
            !registry.ordered_labels().contains(l) ==> #[trigger] worker_values_at(
                record_all(m, registry.ordered_labels(), samples),
                l,
                w,
            ) == worker_values_at(m, l, w),
{
    let labels = registry.ordered_labels();
    let after = record_all(m, labels, samples);
    let keys = key_order(registry.runtimes().dom());
    lemma_recorded_samples_read_back(m, labels, samples);
    assert forall|i: int| 0 <= i < samples.len() implies core_values_at(
        after,
        registry.runtimes()[#[trigger] keys[i]],
    ) == samples[i].core by {
        assert(labels[i] == registry.runtimes()[keys[i]]);
        assert(core_values_at(after, labels[i]) == samples[i].core);
    }
    assert forall|i: int, w: usize|
        0 <= i < samples.len() && w < samples[i].workers@.len() implies worker_values_at(
        after,
        registry.runtimes()[#[trigger] keys[i]],
        w,
    ) == #[trigger] samples[i].workers@[w as int] by {
        assert(labels[i] == registry.runtimes()[keys[i]]);
        assert(worker_values_at(after, labels[i], w) == samples[i].workers@[w as int]);
    }
}

} // verus!

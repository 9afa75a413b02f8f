//! Log volume metrics: the number of log records produced, by level.

use vstd::prelude::*;
use crate::settings::LogVerbosity;
use crate::tracing_metrics::counter_inc;

verus! {

/// The name of a level, as the `level` label of the counter carries it.
pub open spec fn level_name(level: LogVerbosity) -> Seq<char> {
    match level {
        LogVerbosity::Critical => "CRITICAL"@,
        LogVerbosity::Error => "ERROR"@,
        LogVerbosity::Warning => "WARN"@,
        LogVerbosity::Info => "INFO"@,
        LogVerbosity::Debug => "DEBUG"@,
        LogVerbosity::Trace => "TRACE"@,
    }
}

/// The name of a level.
pub fn level_str(level: LogVerbosity) -> (r: &'static str)
    ensures
        r@ == level_name(level),
{
    match level {
        LogVerbosity::Critical => "CRITICAL",
        LogVerbosity::Error => "ERROR",
        LogVerbosity::Warning => "WARN",
        LogVerbosity::Info => "INFO",
        LogVerbosity::Debug => "DEBUG",
        LogVerbosity::Trace => "TRACE",
    }
}

/// The number of produced log records, one counter per level.
#[derive(Clone, Copy, Debug, PartialEq, Eq, Structural)]
pub struct LogVolumeMetrics {
    critical: u64,
    error: u64,
    warning: u64,
    info: u64,
    debug: u64,
    trace: u64,
}

impl LogVolumeMetrics {
    /// The counter of a level.
    pub closed spec fn count(&self, level: LogVerbosity) -> u64 {
        match level {
            LogVerbosity::Critical => self.critical,
            LogVerbosity::Error => self.error,
            LogVerbosity::Warning => self.warning,
            LogVerbosity::Info => self.info,
            LogVerbosity::Debug => self.debug,
            LogVerbosity::Trace => self.trace,
        }
    }

    /// The counter whose label is `name`: that of the level so named, and
    /// zero for a name that no level has.
    pub open spec fn count_named(&self, name: Seq<char>) -> u64 {
        if exists|l: LogVerbosity| level_name(l) == name {
            self.count(choose|l: LogVerbosity| level_name(l) == name)
        } else {
            0
        }
    }

    /// All counters at zero.
    pub fn new() -> (r: Self)
        ensures
            forall|l: LogVerbosity| r.count(l) == 0,
    {
        LogVolumeMetrics { critical: 0, error: 0, warning: 0, info: 0, debug: 0, trace: 0 }
    }

    /// The counter of a level.
    pub fn get(&self, level: LogVerbosity) -> (r: u64)
        ensures
            r == self.count(level),
    {
        match level {
            LogVerbosity::Critical => self.critical,
            LogVerbosity::Error => self.error,
            LogVerbosity::Warning => self.warning,
            LogVerbosity::Info => self.info,
            LogVerbosity::Debug => self.debug,
            LogVerbosity::Trace => self.trace,
        }
    }

    /// Counts one log record of the given level.
    pub fn record(&mut self, level: LogVerbosity)
        ensures
            final(self).count(level) == counter_inc(old(self).count(level)),
            forall|l: LogVerbosity| l != level ==> final(self).count(l) == old(self).count(l),
    {
        match level {
            LogVerbosity::Critical => self.critical = self.critical.wrapping_add(1),
            LogVerbosity::Error => self.error = self.error.wrapping_add(1),
            LogVerbosity::Warning => self.warning = self.warning.wrapping_add(1),
            LogVerbosity::Info => self.info = self.info.wrapping_add(1),
            LogVerbosity::Debug => self.debug = self.debug.wrapping_add(1),
            LogVerbosity::Trace => self.trace = self.trace.wrapping_add(1),
        }
    }
}

/// How many of `levels` are `level`.
pub open spec fn occurrences(levels: Seq<LogVerbosity>, level: LogVerbosity) -> int
    decreases levels.len(),
{
    if levels.len() == 0 {
        0
    } else {
        occurrences(levels.drop_last(), level) + if levels.last() == level {
            1int
        } else {
            0int
        }
    }
}

/// The count of `level` after recording records of `levels`, in order,
/// starting from `start`, each record moving its own level's count as
/// `record` does.
pub open spec fn count_after(start: u64, levels: Seq<LogVerbosity>, level: LogVerbosity) -> u64
    decreases levels.len(),
{
    if levels.len() == 0 {
        start
    } else if levels.last() == level {
        counter_inc(count_after(start, levels.drop_last(), level))
    } else {
        count_after(start, levels.drop_last(), level)
    }
}

/// Every record counts once, under its own level: after a series of
/// records, the count of each level is its starting count plus the number of
/// records of that level, modulo `2^64`.
pub proof fn lemma_records_count_by_level(start: u64, levels: Seq<LogVerbosity>, level: LogVerbosity)
    ensures
        count_after(start, levels, level) == (start + occurrences(levels, level))
            % 0x1_0000_0000_0000_0000,
    decreases levels.len(),
{
    let w: int = 0x1_0000_0000_0000_0000;
    if levels.len() == 0 {
        vstd::arithmetic::div_mod::lemma_small_mod(start as nat, w as nat);
    } else {
        let rest = levels.drop_last();
        lemma_records_count_by_level(start, rest, level);
        if levels.last() == level {
            let prev = count_after(start, rest, level);
            vstd::arithmetic::div_mod::lemma_add_mod_noop(start + occurrences(rest, level), 1, w);
            vstd::arithmetic::div_mod::lemma_small_mod(1nat, w as nat);
            if prev < u64::MAX {
                vstd::arithmetic::div_mod::lemma_small_mod((prev + 1) as nat, w as nat);
            } else {
                vstd::arithmetic::div_mod::lemma_mod_self_0(w);
            }
            assert(counter_inc(prev) == (prev + 1) % w);
        }
    }
}

proof fn lemma_level_names_distinct(a: LogVerbosity, b: LogVerbosity)
    requires
        level_name(a) == level_name(b),
    ensures
        a == b,
{
    reveal_strlit("CRITICAL");
    reveal_strlit("ERROR");
    reveal_strlit("WARN");
    reveal_strlit("INFO");
    reveal_strlit("DEBUG");
    reveal_strlit("TRACE");
    let first = |l: LogVerbosity| level_name(l)[0];
    assert(first(a) == first(b));
    match a {
        LogVerbosity::Critical => assert(first(a) == 'C'),
        LogVerbosity::Error => assert(first(a) == 'E'),
        LogVerbosity::Warning => assert(first(a) == 'W'),
        LogVerbosity::Info => assert(first(a) == 'I'),
        LogVerbosity::Debug => assert(first(a) == 'D'),
        LogVerbosity::Trace => assert(first(a) == 'T'),
    }
    match b {
        LogVerbosity::Critical => assert(first(b) == 'C'),
        LogVerbosity::Error => assert(first(b) == 'E'),
        LogVerbosity::Warning => assert(first(b) == 'W'),
        LogVerbosity::Info => assert(first(b) == 'I'),
        LogVerbosity::Debug => assert(first(b) == 'D'),
        LogVerbosity::Trace => assert(first(b) == 'T'),
    }
}

fn same_text(a: &str, b: &str) -> (r: bool)
    ensures
        r == (a@ == b@),
{
    a.to_owned() == b.to_owned()
}

/// The number of produced log records with the given level label; zero for a
/// label that no level has.
pub fn log_record_count(metrics: &LogVolumeMetrics, level: &str) -> (r: u64)
    ensures
        r == metrics.count_named(level@),
{
    let levels: [LogVerbosity; 6] = [
        LogVerbosity::Critical,
        LogVerbosity::Error,
        LogVerbosity::Warning,
        LogVerbosity::Info,
        LogVerbosity::Debug,
        LogVerbosity::Trace,
    ];
    let mut i: usize = 0;
    while i < 6
        invariant
            i <= 6,
            levels@ == seq![
                LogVerbosity::Critical,
                LogVerbosity::Error,
                LogVerbosity::Warning,
                LogVerbosity::Info,
                LogVerbosity::Debug,
                LogVerbosity::Trace,
            ],
            forall|k: int| 0 <= k < i ==> level_name(levels@[k]) != level@,
        decreases 6 - i,
    {
        let l = levels[i];
        if same_text(level_str(l), level) {
            proof {
                assert(level_name(l) == level@);
                let c = choose|m: LogVerbosity| level_name(m) == level@;
                lemma_level_names_distinct(c, l);
            }
            return metrics.get(l);
        }
        i = i + 1;
    }
    proof {
        assert forall|m: LogVerbosity| level_name(m) != level@ by {
            match m {
                LogVerbosity::Critical => assert(levels@[0] == m),
                LogVerbosity::Error => assert(levels@[1] == m),
                LogVerbosity::Warning => assert(levels@[2] == m),
                LogVerbosity::Info => assert(levels@[3] == m),
                LogVerbosity::Debug => assert(levels@[4] == m),
                LogVerbosity::Trace => assert(levels@[5] == m),
            }
        }
    }
    0
}

} // verus!

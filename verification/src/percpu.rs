//! A counter split into one slot per CPU, read as a single wrapping `u64`.

use vstd::prelude::*;

verus! {

/// `2^64`.
pub open spec fn word() -> int {
    0x1_0000_0000_0000_0000
}

/// The plain sum of the slots.
pub open spec fn slots_sum(s: Seq<u64>) -> int
    decreases s.len(),
{
    if s.len() == 0 {
        0
    } else {
        slots_sum(s.drop_last()) + s.last()
    }
}

proof fn lemma_slots_sum_update(s: Seq<u64>, i: int, x: u64)
    requires
        0 <= i < s.len(),
    ensures
        slots_sum(s.update(i, x)) == slots_sum(s) - s[i] + x,
    decreases s.len(),
{
    let t = s.update(i, x);
    if i == s.len() - 1 {
        assert(t.drop_last() =~= s.drop_last());
    } else {
        assert(t.drop_last() =~= s.drop_last().update(i, x));
        lemma_slots_sum_update(s.drop_last(), i, x);
    }
}

proof fn lemma_slots_sum_zeros(n: nat)
    ensures
        slots_sum(Seq::new(n, |i: int| 0u64)) == 0,
    decreases n,
{
    if n > 0 {
        assert(Seq::new(n, |i: int| 0u64).drop_last() =~= Seq::new((n - 1) as nat, |i: int| 0u64));
        lemma_slots_sum_zeros((n - 1) as nat);
    }
}

/// The plain sum of increments.
pub open spec fn increments_sum(incs: Seq<u64>) -> int
    decreases incs.len(),
{
    if incs.len() == 0 {
        0
    } else {
        increments_sum(incs.drop_last()) + incs.last()
    }
}

/// The value of a counter at `start` after the increments `incs`, one at a
/// time, each adding modulo `2^64` as `inc_by` does.
pub open spec fn after_increments(start: int, incs: Seq<u64>) -> int
    decreases incs.len(),
{
    if incs.len() == 0 {
        start
    } else {
        (after_increments(start, incs.drop_last()) + incs.last()) % word()
    }
}

/// No increment is lost: after a series of increments, on whatever CPUs,
/// the counter holds its starting value plus their sum, modulo `2^64`.
pub proof fn lemma_increments_add_up(start: int, incs: Seq<u64>)
    requires
        0 <= start < word(),
    ensures
        after_increments(start, incs) == (start + increments_sum(incs)) % word(),
    decreases incs.len(),
{
    if incs.len() == 0 {
        vstd::arithmetic::div_mod::lemma_small_mod(start as nat, word() as nat);
    } else {
        let rest = incs.drop_last();
        lemma_increments_add_up(start, rest);
        vstd::arithmetic::div_mod::lemma_add_mod_noop(
            start + increments_sum(rest),
            incs.last() as int,
            word(),
        );
        vstd::arithmetic::div_mod::lemma_mod_twice(incs.last() as int, word());
        vstd::arithmetic::div_mod::lemma_small_mod(incs.last() as nat, word() as nat);
    }
}

/// A counter with one slot per CPU, so that CPUs do not contend on one
/// cache line. Its value is the sum of the slots with wrapping arithmetic,
/// which emulates a single wrapping counter.
pub struct PerCpuCounter {
    counters: Vec<u64>,
}

impl PerCpuCounter {
    /// The number of CPU slots.
    pub closed spec fn cpu_count(&self) -> nat {
        self.counters@.len()
    }

    /// The counter's value.
    pub closed spec fn value(&self) -> int {
        slots_sum(self.counters@) % word()
    }

    /// Creates a counter at zero with a slot for each of `cpu_count` CPUs.
    pub fn new(cpu_count: usize) -> (r: Self)
        requires
            cpu_count > 0,
        ensures
            r.cpu_count() == cpu_count,
            r.value() == 0,
    {
        let mut counters: Vec<u64> = Vec::new();
        let mut i: usize = 0;
        while i < cpu_count
            invariant
                i <= cpu_count,
                counters@ == Seq::new(i as nat, |k: int| 0u64),
            decreases cpu_count - i,
        {
            counters.push(0);
            i = i + 1;
            assert(counters@ =~= Seq::new(i as nat, |k: int| 0u64));
        }
        proof {
            lemma_slots_sum_zeros(cpu_count as nat);
        }
        PerCpuCounter { counters }
    }

    /// Increases the counter by 1, on the slot of CPU `cpu`.
    pub fn inc(&mut self, cpu: usize)
        requires
            cpu < old(self).cpu_count(),
        ensures
            final(self).cpu_count() == old(self).cpu_count(),
            final(self).value() == (old(self).value() + 1) % word(),
    {
        self.inc_by(cpu, 1)
    }

    /// Increases the counter by `v`, wrapping, on the slot of CPU `cpu`.
    pub fn inc_by(&mut self, cpu: usize, v: u64)
        requires
            cpu < old(self).cpu_count(),
        ensures
            final(self).cpu_count() == old(self).cpu_count(),
            final(self).value() == (old(self).value() + v) % word(),
    {
        let ghost before = self.counters@;
        let slot = self.counters[cpu];
        let updated = slot.wrapping_add(v);
        self.counters.set(cpu, updated);
        proof {
            lemma_slots_sum_update(before, cpu as int, updated);
            assert(self.counters@ == before.update(cpu as int, updated));
            let s = slots_sum(before);
            let m = word();
            assert(updated == (slot + v) % m);
            vstd::arithmetic::div_mod::lemma_add_mod_noop_right(s - slot, slot + v, m);
            vstd::arithmetic::div_mod::lemma_add_mod_noop(s, v as int, m);
            vstd::arithmetic::div_mod::lemma_mod_twice(s, m);
            assert(v as int % m == v);
        }
    }

    /// Gets the current value of the counter.
    pub fn get(&self) -> (r: u64)
        ensures
            r == self.value(),
    {
        let mut total: u64 = 0;
        let mut i: usize = 0;
        assert(self.counters@.take(0) =~= Seq::<u64>::empty());
        while i < self.counters.len()
            invariant
                i <= self.counters@.len(),
                total == slots_sum(self.counters@.take(i as int)) % word(),
            decreases self.counters@.len() - i,
        {
            let c = self.counters[i];
            proof {
                let s = slots_sum(self.counters@.take(i as int));
                assert(self.counters@.take(i + 1).drop_last() =~= self.counters@.take(i as int));
                vstd::arithmetic::div_mod::lemma_add_mod_noop(s, c as int, word());
                vstd::arithmetic::div_mod::lemma_mod_twice(c as int, word());
                assert(c as int % word() == c);
            }
            total = total.wrapping_add(c);
            i = i + 1;
        }
        assert(self.counters@.take(self.counters@.len() as int) =~= self.counters@);
        total
    }
}

} // verus!

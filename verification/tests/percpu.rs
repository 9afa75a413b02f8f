use foundations_telemetry::percpu::PerCpuCounter;

#[test]
fn mod_inc_and_get() {
    let mut counter = PerCpuCounter::new(4);
    assert_eq!(0, counter.get());

    counter.inc(0);
    assert_eq!(1, counter.get());

    counter.inc_by(2, 199);
    assert_eq!(200, counter.get());
}

#[test]
fn increments_on_different_cpus_add_up() {
    let mut counter = PerCpuCounter::new(3);
    for cpu in 0..3 {
        for _ in 0..1000 {
            counter.inc(cpu);
        }
    }
    assert_eq!(3000, counter.get());
}

#[test]
fn adding_u64_max_subtracts_one() {
    let mut counter = PerCpuCounter::new(2);
    counter.inc_by(0, 5000);
    counter.inc_by(1, u64::MAX);
    assert_eq!(4999, counter.get());
}

#[test]
fn increments_on_any_cpus_add_up_modulo_word() {
    let mut counter = PerCpuCounter::new(4);
    let incs: [(usize, u64); 5] = [(0, 10), (3, u64::MAX - 4), (1, 7), (2, 1), (3, 1)];
    for (cpu, v) in incs {
        counter.inc_by(cpu, v);
    }
    // 10 + (2^64 - 5) + 7 + 1 + 1 = 2^64 + 14.
    assert_eq!(counter.get(), 14);
}

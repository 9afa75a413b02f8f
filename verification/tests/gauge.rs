use foundations_telemetry::gauge::RangeGauge;

#[test]
fn test_rangegauge_values() {
    let mut rg = RangeGauge::default();

    // (min, current, max), as observed.
    assert_eq!(rg.get_values(), (0, 0, 0));
    rg.inc();
    assert_eq!(rg.get_values(), (0, 1, 1));
    // the act of observing the value resets the min/max history
    assert_eq!(rg.get_values(), (1, 1, 1));
    rg.dec();
    assert_eq!(rg.get_values(), (0, 0, 1));
    assert_eq!(rg.get_values(), (0, 0, 0));
    // max keeps the highest value seen after the value goes down
    rg.inc_by(3);
    rg.dec_by(2);
    assert_eq!(rg.get_values(), (0, 1, 3));
    // both min and max change in one sample period
    rg.inc_by(1);
    rg.dec_by(2);
    assert_eq!(rg.get_values(), (0, 0, 2));
}

#[test]
fn ten_up_eight_down_exports_two_with_range() {
    let mut rg = RangeGauge::new();
    for _ in 0..10 {
        rg.inc();
    }
    for _ in 0..8 {
        rg.dec();
    }
    assert_eq!(rg.get(), 2);
    assert_eq!(rg.get_values(), (0, 2, 10));
}

#[test]
fn set_returns_previous_and_widens_range() {
    let mut rg = RangeGauge::new();
    assert_eq!(rg.set(7), 0);
    assert_eq!(rg.inc_by(3), 7);
    assert_eq!(rg.dec_by(10), 10);
    assert_eq!(rg.set(4), 0);
    assert_eq!(rg.get_values(), (0, 4, 10));
    assert_eq!(rg.set(2), 4);
    assert_eq!(rg.get_values(), (2, 2, 4));
}

#[test]
fn range_after_an_observation_covers_the_values_held() {
    let mut rg = RangeGauge::default();
    assert_eq!(rg.get_values(), (0, 0, 0));
    rg.inc_by(3);
    rg.dec_by(2);
    assert_eq!(rg.get_values(), (0, 1, 3));
    rg.set(7);
    rg.dec_by(7);
    rg.inc_by(2);
    assert_eq!(rg.get_values(), (0, 2, 7));
}

use rapl_energy::Accumulator;

#[test]
fn diff_without_wrap() {
    let acc = Accumulator::new(1000, 2000).unwrap();
    assert_eq!(acc.diff(1500), 500);
    assert_eq!(acc.diff(1000), 0);
}

#[test]
fn diff_with_single_wrap() {
    // The counter wrapped once between samples: prev = 1900, next = 100,
    // modulus 2000, so the true delta is 100 + (2000 - 1900) = 200 raw units,
    // i.e. 200 microjoules = 0.0002 joules.
    let acc = Accumulator::new(1900, 2000).unwrap();
    let diff = acc.diff(100);
    assert_eq!(diff, 200);
    let joules = diff as f64 / 1e6;
    assert!((joules - 0.0002).abs() < 1e-15);
}

#[test]
fn diff_stays_below_modulus() {
    let acc = Accumulator::new(1999, 2000).unwrap();
    assert!(acc.diff(0) < 2000);
    assert!(acc.diff(1998) < 2000);
    assert_eq!(acc.diff(1998), 1999);
}

#[test]
fn update_commits_the_reading() {
    let mut acc = Accumulator::new(100, 2000).unwrap();
    assert_eq!(acc.update(300), 200);
    assert_eq!(acc.value(), 300);
    assert_eq!(acc.max(), 2000);
    assert_eq!(acc.update(250), 1950);
}

#[test]
fn reading_at_or_above_modulus_is_rejected() {
    assert!(Accumulator::new(2000, 2000).is_none());
    assert!(Accumulator::new(2001, 2000).is_none());
    assert!(Accumulator::new(0, 1).is_some());
    assert!(Accumulator::new(0, 0).is_none());
}

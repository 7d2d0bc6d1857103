use rapl_energy::constraint::{Constraint, ConstraintHandle, ConstraintSnapshot, optional, required};

fn snapshot() -> ConstraintSnapshot {
    ConstraintSnapshot {
        name: Some("long_term\n".to_string()),
        power_limit_uw: Some("100000000\n".to_string()),
        time_window_us: Some("27983872\n".to_string()),
        min_power_uw: None,
        max_power_uw: Some("200000000\n".to_string()),
        min_time_window_us: Some("2440\n".to_string()),
        max_time_window_us: None,
    }
}

#[test]
fn constraint_fields_come_from_the_snapshot() {
    let zone = "/sys/class/powercap/intel-rapl/intel-rapl:0";
    let c = Constraint::now(zone, 0, &snapshot()).unwrap();
    assert_eq!(c.name, Some("long_term".to_string()));
    assert_eq!(c.power_limit_uw, 100000000);
    assert_eq!(c.time_window_us, 27983872);
    assert_eq!(c.min_power_uw, None);
    assert_eq!(c.max_power_uw, Some(200000000));
    assert_eq!(c.min_time_window_us, Some(2440));
    assert_eq!(c.max_time_window_us, None);
}

#[test]
fn missing_power_limit_means_no_constraint() {
    let mut s = snapshot();
    s.power_limit_uw = None;
    assert!(Constraint::now("/zone", 1, &s).is_none());
    let mut s2 = snapshot();
    s2.time_window_us = None;
    assert!(Constraint::now("/zone", 1, &s2).is_none());
}

#[test]
fn empty_time_window_defaults_to_zero() {
    // The peak-power constraint has no time window: its attribute file reads
    // as empty text, which decodes as zero rather than failing.
    let mut s = snapshot();
    s.time_window_us = Some("\n".to_string());
    let c = Constraint::now("/zone", 2, &s).unwrap();
    assert_eq!(c.time_window_us, 0);
}

#[test]
fn setters_validate_and_say_where_to_write() {
    let zone = "/sys/class/powercap/intel-rapl/intel-rapl:0";
    let mut c = Constraint::now(zone, 0, &snapshot()).unwrap();
    let w = c.set_power_limit_uw(150000000);
    assert_eq!(c.power_limit_uw, 150000000);
    assert_eq!(w.value, 150000000);
    assert_eq!(
        w.path,
        "/sys/class/powercap/intel-rapl/intel-rapl:0/constraint_0_power_limit_uw"
    );
    let w2 = c.set_time_window_us(1000000);
    assert_eq!(c.time_window_us, 1000000);
    assert_eq!(
        w2.path,
        "/sys/class/powercap/intel-rapl/intel-rapl:0/constraint_0_time_window_us"
    );
}

#[test]
fn handle_builds_attribute_paths() {
    let h = ConstraintHandle::new("/zone", 7);
    assert_eq!(h.path("name"), "/zone/constraint_7_name");
    assert_eq!(h.path("max_power_uw"), "/zone/constraint_7_max_power_uw");
}

#[test]
fn required_and_optional_decode_attribute_texts() {
    assert_eq!(required(&Some("42\n".to_string())), 42);
    assert_eq!(optional(&Some(" 7 ".to_string())), Some(7));
    assert_eq!(optional(&None), None);
}

use rapl_energy::msr::{Core, CoreSnapshot, Msr, MsrReading, core_label, package_label};
use rapl_energy::unit::{Unit, CORE_ENERGY_OFFSET, PACKAGE_ENERGY_OFFSET, POWER_UNIT_OFFSET};

#[test]
fn unit_decode_is_bit_exact() {
    // time exponent in bits 16..=19, energy in 8..=12, power in 0..=3
    let units: u64 = (0xA << 16) | (16 << 8) | 0x3;
    let unit = Unit::new(units);
    assert_eq!(unit.time, 0xA);
    assert_eq!(unit.energy, 16);
    assert_eq!(unit.power, 0x3);
}

#[test]
fn unit_decode_ignores_other_bits() {
    let fields: u64 = (0xA << 16) | (16 << 8) | 0x3;
    let noisy: u64 = fields | (0xFFu64 << 32) | (0x7 << 13) | (0x7 << 5);
    assert_eq!(Unit::new(fields), Unit::new(noisy));
}

#[test]
fn unit_decode_is_deterministic() {
    let units: u64 = 0x000A_1003;
    assert_eq!(Unit::new(units), Unit::new(units));
}

#[test]
fn register_offsets_are_the_hardware_constants() {
    assert_eq!(POWER_UNIT_OFFSET, 0xC001_0299);
    assert_eq!(CORE_ENERGY_OFFSET, 0xC001_029A);
    assert_eq!(PACKAGE_ENERGY_OFFSET, 0xC001_029B);
}

#[test]
fn package_register_scenario() {
    // Package register reads 1000 at start and 1500 after one interval, with
    // modulus 2000 and energy unit 0.5^16: the elapsed energy is
    // 500 * 0.5^16 joules.
    let snap = CoreSnapshot {
        power_unit: 16 << 8,
        package_energy: 1000,
        core_energy: 0,
        max_energy_range: 2000,
    };
    let core = Core::now(0, &snap);
    assert_eq!(core.unit.energy, 16);
    let e = core.elapsed(&MsrReading { package_energy: 1500, core_energy: 0 });
    assert_eq!(e.package_energy_uj, 500);
    let joules = e.package_energy_uj as f64 * 0.5f64.powi(core.unit.energy as i32);
    assert!((joules - 500.0 * 0.5f64.powi(16)).abs() < 1e-18);
}

#[test]
fn msr_discovery_stops_at_first_gap() {
    let snap = |v: u64| CoreSnapshot {
        power_unit: 0,
        package_energy: v,
        core_energy: v,
        max_energy_range: 1000,
    };
    let msr = Msr::now(vec![Some(snap(1)), Some(snap(2)), None, Some(snap(4))]).unwrap();
    assert_eq!(msr.cores.len(), 2);
    assert!(Msr::now(vec![None, Some(snap(1))]).is_none());
    assert!(Msr::now(vec![]).is_none());
}

#[test]
fn msr_elapsed_reports_both_registers_per_package() {
    let msr = Msr::now(vec![
        Some(CoreSnapshot {
            power_unit: 16 << 8,
            package_energy: 100,
            core_energy: 200,
            max_energy_range: 1000,
        }),
        Some(CoreSnapshot {
            power_unit: 16 << 8,
            package_energy: 900,
            core_energy: 0,
            max_energy_range: 1000,
        }),
    ])
    .unwrap();
    let readings = vec![
        MsrReading { package_energy: 150, core_energy: 230 },
        MsrReading { package_energy: 50, core_energy: 10 },
    ];
    let m = msr.elapsed(&readings);
    assert_eq!(m.len(), 4);
    assert_eq!(m.entry_at(0), ("cpu0:package".to_string(), 50));
    assert_eq!(m.entry_at(1), ("cpu0:core".to_string(), 30));
    // package 1 wrapped: 50 + (1000 - 900) = 150
    assert_eq!(m.entry_at(2), ("cpu1:package".to_string(), 150));
    assert_eq!(m.entry_at(3), ("cpu1:core".to_string(), 10));
}

#[test]
fn msr_reset_commits_fresh_baselines() {
    let mut msr = Msr::now(vec![Some(CoreSnapshot {
        power_unit: 0,
        package_energy: 100,
        core_energy: 100,
        max_energy_range: 1000,
    })])
    .unwrap();
    let fresh = vec![MsrReading { package_energy: 400, core_energy: 300 }];
    msr.reset(&fresh);
    let m = msr.elapsed(&fresh);
    assert_eq!(m.entry_at(0).1, 0);
    assert_eq!(m.entry_at(1).1, 0);
}

#[test]
fn msr_headers_list_labels_in_report_order() {
    let snap = CoreSnapshot {
        power_unit: 0,
        package_energy: 0,
        core_energy: 0,
        max_energy_range: 10,
    };
    let msr = Msr::now(vec![Some(snap)]).unwrap();
    let hs = msr.headers();
    assert_eq!(hs, vec!["cpu0:package".to_string(), "cpu0:core".to_string()]);
    assert_eq!(package_label(12), "cpu12:package");
    assert_eq!(core_label(255), "cpu255:core");
}

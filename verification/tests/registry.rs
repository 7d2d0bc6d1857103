use rapl_energy::paths::RaplRoot;
use rapl_energy::probe::{Probe, ProbeReading, collection_elapsed};
use rapl_energy::rapl::{PackageReading, PackageSnapshot, Rapl, ZoneSnapshot};
use rapl_energy::msr::{CoreSnapshot, Msr, MsrReading};
use rapl_energy::registry::{RaplElapsed, Registry};

fn rapl_probe(name: &str, energy: &str) -> Probe {
    let snap = PackageSnapshot {
        zone: ZoneSnapshot {
            name: Some(name.to_string()),
            max_energy_range_uj: Some("2000".to_string()),
            energy_uj: energy.to_string(),
            constraints: vec![],
        },
        subzones: vec![],
    };
    Probe::Rapl(Rapl::now(RaplRoot::Class, false, vec![Some(snap)], vec![]).unwrap())
}

fn rapl_reading(energy_uj: u64) -> ProbeReading {
    ProbeReading::Rapl(vec![PackageReading { energy_uj, subzones: vec![] }])
}

#[test]
fn start_elapsed_free_runs_once() {
    let mut reg = Registry::new();
    let h = reg.start(rapl_probe("package-0\n", "100"));
    assert_eq!(h, 0);
    let m = reg.elapsed_at(h, &rapl_reading(350)).unwrap();
    assert_eq!(m.len(), 1);
    assert_eq!(m.entry_at(0), ("package-0".to_string(), 250));
    // the first free succeeds; the handle is dead afterwards
    assert!(reg.free(h));
    assert!(!reg.free(h));
    assert!(reg.elapsed_at(h, &rapl_reading(350)).is_none());
    assert!(reg.get(h).is_none());
}

#[test]
fn out_of_range_handles_are_refused() {
    let mut reg = Registry::new();
    assert!(!reg.free(3));
    assert!(reg.get(0).is_none());
    assert!(reg.elapsed_at(7, &rapl_reading(0)).is_none());
}

#[test]
fn stop_samples_and_ends_the_handle() {
    let mut reg = Registry::new();
    let h = reg.start(rapl_probe("package-0\n", "1900"));
    let m = reg.stop(h, &rapl_reading(100)).unwrap();
    assert_eq!(m.entry_at(0), ("package-0".to_string(), 200));
    assert!(reg.stop(h, &rapl_reading(100)).is_none());
    assert!(!reg.free(h));
}

#[test]
fn handles_stay_distinct() {
    let mut reg = Registry::new();
    let h0 = reg.start(rapl_probe("package-0\n", "10"));
    let h1 = reg.start(rapl_probe("package-1\n", "20"));
    assert_ne!(h0, h1);
    assert_eq!(reg.len(), 2);
    assert!(reg.free(h0));
    // freeing one handle leaves the other alive
    let m = reg.elapsed_at(h1, &rapl_reading(30)).unwrap();
    assert_eq!(m.entry_at(0), ("package-1".to_string(), 10));
}

#[test]
fn flattened_arrays_share_one_length() {
    let probe = rapl_probe("package-0\n", "100");
    let m = probe.elapsed(&rapl_reading(400));
    let flat = RaplElapsed::from(&m);
    assert_eq!(flat.len, flat.keys.len());
    assert_eq!(flat.len, flat.values.len());
    assert_eq!(flat.keys, vec!["package-0".to_string()]);
    assert_eq!(flat.values, vec![300]);
}

#[test]
fn a_collection_merges_in_probe_order() {
    let msr = Probe::Msr(
        Msr::now(vec![Some(CoreSnapshot {
            power_unit: 16 << 8,
            package_energy: 100,
            core_energy: 100,
            max_energy_range: 1000,
        })])
        .unwrap(),
    );
    let probes = vec![msr, rapl_probe("package-0\n", "100")];
    let readings = vec![
        ProbeReading::Msr(vec![MsrReading { package_energy: 150, core_energy: 120 }]),
        rapl_reading(500),
    ];
    let m = collection_elapsed(&probes, &readings);
    assert_eq!(m.len(), 3);
    assert_eq!(m.entry_at(0), ("cpu0:package".to_string(), 50));
    assert_eq!(m.entry_at(1), ("cpu0:core".to_string(), 20));
    assert_eq!(m.entry_at(2), ("package-0".to_string(), 400));
}

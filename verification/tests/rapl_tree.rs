use rapl_energy::paths::RaplRoot;
use rapl_energy::rapl::{
    PackageReading, PackageSnapshot, Rapl, ZoneSnapshot, package_name, read_package,
    read_package_range, read_subzone, read_subzone_range, subzone_name,
};

fn zone(name: &str, max: &str, energy: &str) -> ZoneSnapshot {
    ZoneSnapshot {
        name: Some(name.to_string()),
        max_energy_range_uj: Some(max.to_string()),
        energy_uj: energy.to_string(),
        constraints: vec![],
    }
}

fn package(name: &str, max: &str, energy: &str) -> PackageSnapshot {
    PackageSnapshot { zone: zone(name, max, energy), subzones: vec![] }
}

#[test]
fn discovery_stops_at_missing_package() {
    // Packages 0 and 1 exist; package 2's energy_uj is absent, so exactly
    // two packages end up in the tree even though package 3 exists.
    let snaps = vec![
        Some(package("package-0\n", "262143328850", "1000")),
        Some(package("package-1\n", "262143328850", "2000")),
        None,
        Some(package("package-3\n", "262143328850", "3000")),
    ];
    let rapl = Rapl::now(RaplRoot::Class, true, snaps, vec![]).unwrap();
    assert_eq!(rapl.packages.len(), 2);
    assert_eq!(rapl.packages[0].name, "package-0");
    assert_eq!(rapl.packages[1].name, "package-1");
}

#[test]
fn missing_package_zero_fails_the_driver() {
    assert!(Rapl::now(RaplRoot::Class, true, vec![], vec![]).is_none());
    let snaps = vec![None, Some(package("package-1\n", "100", "10"))];
    assert!(Rapl::now(RaplRoot::Class, true, snaps, vec![]).is_none());
}

#[test]
fn package_elapsed_routes_through_the_accumulator() {
    // The register wraps: prev = 1900, next = 100, modulus 2000 gives
    // 100 + (2000 - 1900) = 200 microjoules.
    let snaps = vec![Some(package("package-0\n", "2000", "1900"))];
    let rapl = Rapl::now(RaplRoot::Class, true, snaps, vec![]).unwrap();
    let m = rapl.elapsed(&vec![PackageReading { energy_uj: 100, subzones: vec![] }]);
    assert_eq!(m.len(), 1);
    assert_eq!(m.entry_at(0), ("package-0".to_string(), 200));
}

#[test]
fn subzones_follow_their_package_in_order() {
    let mut p = package("package-0\n", "2000", "100");
    p.subzones = vec![
        Some(zone("dram\n", "1000", "50")),
        Some(zone("core\n", "1000", "70")),
        None,
        Some(zone("uncore\n", "1000", "90")),
    ];
    let rapl = Rapl::now(RaplRoot::Class, true, vec![Some(p)], vec![]).unwrap();
    assert_eq!(rapl.packages[0].subzones.len(), 2);
    let reading = PackageReading { energy_uj: 400, subzones: vec![60, 90] };
    let m = rapl.elapsed(&vec![reading]);
    assert_eq!(m.len(), 3);
    assert_eq!(m.entry_at(0), ("package-0".to_string(), 300));
    assert_eq!(m.entry_at(1), ("package-0-dram".to_string(), 10));
    assert_eq!(m.entry_at(2), ("package-0-core".to_string(), 20));
}

#[test]
fn subzones_are_skipped_when_not_asked_for() {
    let mut p = package("package-0\n", "2000", "100");
    p.subzones = vec![Some(zone("dram\n", "1000", "50"))];
    let rapl = Rapl::now(RaplRoot::Class, false, vec![Some(p)], vec![]).unwrap();
    assert_eq!(rapl.packages[0].subzones.len(), 0);
}

#[test]
fn elapsed_mut_commits_while_reporting() {
    let snaps = vec![Some(package("package-0\n", "2000", "100"))];
    let mut rapl = Rapl::now(RaplRoot::Class, false, snaps, vec![]).unwrap();
    let r1 = vec![PackageReading { energy_uj: 400, subzones: vec![] }];
    let m1 = rapl.elapsed_mut(&r1);
    assert_eq!(m1.entry_at(0).1, 300);
    let r2 = vec![PackageReading { energy_uj: 650, subzones: vec![] }];
    let m2 = rapl.elapsed_mut(&r2);
    assert_eq!(m2.entry_at(0).1, 250);
}

#[test]
fn reset_only_moves_the_baseline() {
    let snaps = vec![Some(package("package-0\n", "2000", "100"))];
    let mut rapl = Rapl::now(RaplRoot::Class, false, snaps, vec![]).unwrap();
    rapl.reset(&vec![PackageReading { energy_uj: 500, subzones: vec![] }]);
    let m = rapl.elapsed(&vec![PackageReading { energy_uj: 500, subzones: vec![] }]);
    assert_eq!(m.entry_at(0).1, 0);
}

#[test]
fn energy_and_power_report_per_package() {
    let snaps = vec![Some(package("package-0\n", "2000", "1900"))];
    let mut rapl = Rapl::now(RaplRoot::Class, false, snaps, vec![]).unwrap();
    let rs = vec![PackageReading { energy_uj: 100, subzones: vec![] }];
    let es = rapl.energy(&rs);
    assert_eq!(es.len(), 1);
    assert_eq!(es[0].package_energy_uj, 200);
    // 200 microjoules over 50 microseconds: 4 watts
    let ws = rapl.power(&rs, 50);
    assert_eq!(ws.len(), 1);
    assert_eq!(ws[0].package_power_w, 4);
}

#[test]
fn attribute_texts_are_trimmed_and_parsed() {
    assert_eq!(read_package(&Some(" 12345\n".to_string())), Some(12345));
    assert_eq!(read_package(&Some("counter".to_string())), None);
    assert_eq!(read_package(&Some("".to_string())), None);
    assert_eq!(read_package(&None), None);
    assert_eq!(read_subzone(&Some("18446744073709551615".to_string())), Some(u64::MAX));
    assert_eq!(read_subzone(&Some("18446744073709551616".to_string())), None);
    assert_eq!(read_package_range(&Some("262143328850\n".to_string())), 262143328850);
    assert_eq!(read_subzone_range(&Some("65532610987".to_string())), 65532610987);
}

#[test]
fn zone_labels_fall_back_to_indices() {
    assert_eq!(package_name(0, &Some("package-0\n".to_string())), "package-0");
    assert_eq!(package_name(2, &None), "intel-rapl:2");
    assert_eq!(
        subzone_name(0, 1, &Some("package-0\n".to_string()), &Some("dram\n".to_string())),
        "package-0-dram"
    );
    assert_eq!(subzone_name(0, 1, &Some("package-0\n".to_string()), &None), "package-0:1");
    assert_eq!(subzone_name(3, 1, &None, &None), "intel-rapl:3:1");
}

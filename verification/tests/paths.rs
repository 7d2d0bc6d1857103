use rapl_energy::paths::{
    RaplRoot, attr_path, mmio_dram_path, msr_device_path, subzone_path, zone_path, zone_path_mmio,
};
use rapl_energy::text::{parse_u64, trim, u64_to_dec};

#[test]
fn zone_paths_follow_the_powercap_layout() {
    assert_eq!(
        zone_path(RaplRoot::Class, 0),
        "/sys/class/powercap/intel-rapl/intel-rapl:0"
    );
    assert_eq!(
        zone_path(RaplRoot::Devices, 10),
        "/sys/devices/virtual/powercap/intel-rapl/intel-rapl:10"
    );
    assert_eq!(
        subzone_path(RaplRoot::Class, 0, 1),
        "/sys/class/powercap/intel-rapl/intel-rapl:0/intel-rapl:0:1"
    );
    assert_eq!(
        zone_path_mmio(RaplRoot::Class, 2),
        "/sys/class/powercap/intel-rapl/intel-rapl-mmio:2"
    );
    assert_eq!(
        mmio_dram_path(RaplRoot::Class, 0),
        "/sys/class/powercap/intel-rapl-mmio/intel-rapl-mmio:0"
    );
    assert_eq!(
        attr_path("/sys/class/powercap/intel-rapl/intel-rapl:0", "energy_uj"),
        "/sys/class/powercap/intel-rapl/intel-rapl:0/energy_uj"
    );
}

#[test]
fn msr_devices_live_under_dev_cpu() {
    assert_eq!(msr_device_path(0), "/dev/cpu/0/msr");
    assert_eq!(msr_device_path(127), "/dev/cpu/127/msr");
}

#[test]
fn decimal_text_round_trips() {
    assert_eq!(u64_to_dec(0), "0");
    assert_eq!(u64_to_dec(10), "10");
    assert_eq!(u64_to_dec(262143328850), "262143328850");
    assert_eq!(u64_to_dec(u64::MAX), "18446744073709551615");
    assert_eq!(parse_u64(&u64_to_dec(987654321)), Some(987654321));
}

#[test]
fn trimming_strips_the_sysfs_padding() {
    assert_eq!(trim("package-0\n"), "package-0");
    assert_eq!(trim("  42 \t\r\n"), "42");
    assert_eq!(trim("\n \t"), "");
    assert_eq!(trim("core"), "core");
}

#[test]
fn parsing_rejects_what_is_not_one_number() {
    assert_eq!(parse_u64("123"), Some(123));
    assert_eq!(parse_u64(" 123\n"), Some(123));
    assert_eq!(parse_u64("12 3"), None);
    assert_eq!(parse_u64("-5"), None);
    assert_eq!(parse_u64(""), None);
    assert_eq!(parse_u64("0x10"), None);
    assert_eq!(parse_u64("18446744073709551615"), Some(u64::MAX));
    assert_eq!(parse_u64("18446744073709551616"), None);
}

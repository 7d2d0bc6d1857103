//! Construction of the fixed sysfs and device paths the drivers read.
//! The power-capping tree lives under one of two historically valid root
//! prefixes; which one exists is decided once, at driver construction, and
//! passed in as configuration.

use vstd::prelude::*;
use crate::text::{dec_digits, u64_to_dec};

verus! {

/// Which root prefix the power-capping tree was found under.
#[derive(Clone, Copy, PartialEq, Eq, Structural, Debug)]
pub enum RaplRoot {
    /// `/sys/class/powercap/intel-rapl`, preferred when both exist.
    Class,
    /// `/sys/devices/virtual/powercap/intel-rapl`.
    Devices,
}

pub open spec fn spec_prefix(root: RaplRoot) -> Seq<char> {
    match root {
        RaplRoot::Class => "/sys/class/powercap/intel-rapl"@,
        RaplRoot::Devices => "/sys/devices/virtual/powercap/intel-rapl"@,
    }
}

impl RaplRoot {
    pub fn prefix_str(&self) -> (s: &'static str)
        ensures
            s@ == spec_prefix(*self),
    {
        match self {
            RaplRoot::Class => "/sys/class/powercap/intel-rapl",
            RaplRoot::Devices => "/sys/devices/virtual/powercap/intel-rapl",
        }
    }
}

/// The directory of one package zone: `<prefix>/intel-rapl:<pkg>`.
pub open spec fn spec_zone_path(root: RaplRoot, package_id: u8) -> Seq<char> {
    spec_prefix(root) + "/intel-rapl:"@ + dec_digits(package_id as int)
}

pub fn zone_path(root: RaplRoot, package_id: u8) -> (p: String)
    ensures
        p@ == spec_zone_path(root, package_id),
{
    let mut p = root.prefix_str().to_owned();
    p.append("/intel-rapl:");
    let d = u64_to_dec(package_id as u64);
    p.append(d.as_str());
    p
}

/// The directory of one mmio package zone: `<prefix>/intel-rapl-mmio:<pkg>`.
pub open spec fn spec_zone_path_mmio(root: RaplRoot, package_id: u8) -> Seq<char> {
    spec_prefix(root) + "/intel-rapl-mmio:"@ + dec_digits(package_id as int)
}

pub fn zone_path_mmio(root: RaplRoot, package_id: u8) -> (p: String)
    ensures
        p@ == spec_zone_path_mmio(root, package_id),
{
    let mut p = root.prefix_str().to_owned();
    p.append("/intel-rapl-mmio:");
    let d = u64_to_dec(package_id as u64);
    p.append(d.as_str());
    p
}

/// The directory of one subzone: `<package zone>/intel-rapl:<pkg>:<sub>`.
pub open spec fn spec_subzone_path(root: RaplRoot, package_id: u8, subzone_id: u8) -> Seq<char> {
    spec_zone_path(root, package_id) + "/intel-rapl:"@ + dec_digits(package_id as int) + ":"@
        + dec_digits(subzone_id as int)
}

pub fn subzone_path(root: RaplRoot, package_id: u8, subzone_id: u8) -> (p: String)
    ensures
        p@ == spec_subzone_path(root, package_id, subzone_id),
{
    let mut p = zone_path(root, package_id);
    p.append("/intel-rapl:");
    let d = u64_to_dec(package_id as u64);
    p.append(d.as_str());
    p.append(":");
    let d2 = u64_to_dec(subzone_id as u64);
    p.append(d2.as_str());
    p
}

/// The directory of one mmio dram zone: `<prefix>-mmio/intel-rapl-mmio:<pkg>`.
pub open spec fn spec_mmio_dram_path(root: RaplRoot, package_id: u8) -> Seq<char> {
    spec_prefix(root) + "-mmio/intel-rapl-mmio:"@ + dec_digits(package_id as int)
}

pub fn mmio_dram_path(root: RaplRoot, package_id: u8) -> (p: String)
    ensures
        p@ == spec_mmio_dram_path(root, package_id),
{
    let mut p = root.prefix_str().to_owned();
    p.append("-mmio/intel-rapl-mmio:");
    let d = u64_to_dec(package_id as u64);
    p.append(d.as_str());
    p
}

/// One attribute file inside a zone directory: `<zone>/<attr>`.
pub open spec fn spec_attr_path(zone: Seq<char>, attr: Seq<char>) -> Seq<char> {
    zone + "/"@ + attr
}

pub fn attr_path(zone: &str, attr: &str) -> (p: String)
    ensures
        p@ == spec_attr_path(zone@, attr@),
{
    let mut p = zone.to_owned();
    p.append("/");
    p.append(attr);
    p
}

/// The per-package register device file: `/dev/cpu/<pkg>/msr`.
pub open spec fn spec_msr_device_path(package_id: u8) -> Seq<char> {
    "/dev/cpu/"@ + dec_digits(package_id as int) + "/msr"@
}

pub fn msr_device_path(package_id: u8) -> (p: String)
    ensures
        p@ == spec_msr_device_path(package_id),
{
    let mut p = "/dev/cpu/".to_owned();
    let d = u64_to_dec(package_id as u64);
    p.append(d.as_str());
    p.append("/msr");
    p
}

} // verus!

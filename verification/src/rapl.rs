//! The kernel power-capping tree: one or more packages, each with zero or
//! more subzones and zero or more power-limit constraints. Discovery turns a
//! snapshot of the tree's attribute files into driver state; sampling turns
//! fresh counter readings into an ordered energy report, routed through the
//! wrap-safe accumulator at every node.
//!
//! The surrounding program does the reads: it hands discovery the raw
//! attribute texts (with `None` where a file could not be opened) and hands
//! sampling the fresh `energy_uj` counter values, in tree order.

use vstd::prelude::*;
use crate::accumulator::{Accumulator, spec_diff};
use crate::constraint::{
    Constraint, ConstraintSnapshot, ConstraintView, constraint_snap_wf, parsed, required,
    spec_constraint_now,
};
use crate::discovery::{take_prefix, spec_prefix, lemma_prefix_char};
use crate::paths::{
    RaplRoot, spec_zone_path, spec_zone_path_mmio, spec_subzone_path, zone_path, zone_path_mmio,
    subzone_path,
};
use crate::energy_map::{
    EnergyMap, Entries, spec_insert_all, lemma_insert_all_push, lemma_insert_all_concat,
};
use crate::text::{spec_trim, spec_parse_u64, dec_digits, trim, parse_u64, u64_to_dec};

verus! {

/// The raw attribute texts of one zone directory: `None` where the file
/// could not be opened. The zone itself exists (its `energy_uj` opened); the
/// `name` and `max_energy_range_uj` attributes are required, and failing to
/// read them is fatal for the zone, not merely "absent".
pub struct ZoneSnapshot {
    pub name: Option<String>,
    pub max_energy_range_uj: Option<String>,
    pub energy_uj: String,
    pub constraints: Vec<ConstraintSnapshot>,
}

/// One package zone's snapshot together with its candidate subzones, indexed
/// by subzone id: `None` where the subzone's `energy_uj` could not be opened.
pub struct PackageSnapshot {
    pub zone: ZoneSnapshot,
    pub subzones: Vec<Option<ZoneSnapshot>>,
}

pub open spec fn zone_max(z: ZoneSnapshot) -> u64 {
    match parsed(z.max_energy_range_uj) {
        Some(v) => v,
        None => 0,
    }
}

pub open spec fn zone_energy(z: ZoneSnapshot) -> u64 {
    match spec_parse_u64(z.energy_uj@) {
        Some(v) => v,
        None => 0,
    }
}

pub open spec fn zone_label(z: ZoneSnapshot) -> Seq<char> {
    match z.name {
        Some(n) => spec_trim(n@),
        None => Seq::empty(),
    }
}

/// The required attributes are present and parse, the initial counter value
/// sits below the wrap-around modulus, and the constraint snapshots are
/// themselves readable.
pub open spec fn zone_snap_wf(z: ZoneSnapshot) -> bool {
    &&& z.name is Some
    &&& parsed(z.max_energy_range_uj) is Some
    &&& spec_parse_u64(z.energy_uj@) is Some
    &&& zone_energy(z) < zone_max(z)
    &&& z.constraints@.len() <= 255
    &&& forall|i: int|
        0 <= i < z.constraints@.len() ==> constraint_snap_wf(#[trigger] z.constraints@[i])
}

pub open spec fn package_snap_wf(p: PackageSnapshot) -> bool {
    &&& zone_snap_wf(p.zone)
    &&& p.subzones@.len() <= 255
    &&& forall|i: int|
        0 <= i < p.subzones@.len() ==> (#[trigger] p.subzones@[i] matches Some(z) ==> zone_snap_wf(
            z,
        ))
}

/// The mathematical content of a subzone.
pub struct SubzoneView {
    pub name: Seq<char>,
    pub prev_uj: u64,
    pub max_uj: u64,
    pub constraints: Seq<ConstraintView>,
}

/// The mathematical content of a package.
pub struct PackageView {
    pub name: Seq<char>,
    pub prev_uj: u64,
    pub max_uj: u64,
    pub constraints: Seq<ConstraintView>,
    pub subzones: Seq<SubzoneView>,
}

/// The mathematical content of the whole driver.
pub struct RaplView {
    pub packages: Seq<PackageView>,
}

/// One power-capping subzone (e.g. dram, core, uncore) below a package.
pub struct Subzone {
    pub name: String,
    energy: Accumulator,
    pub constraints: Vec<Constraint>,
}

/// One power-capping package zone, with its subzones and constraints.
pub struct Package {
    pub name: String,
    energy: Accumulator,
    pub constraints: Vec<Constraint>,
    pub subzones: Vec<Subzone>,
}

/// The power-capping driver: the ordered list of discovered packages.
pub struct Rapl {
    pub packages: Vec<Package>,
}

impl View for Subzone {
    type V = SubzoneView;

    closed spec fn view(&self) -> SubzoneView {
        SubzoneView {
            name: self.name@,
            prev_uj: self.energy.spec_value(),
            max_uj: self.energy.spec_max(),
            constraints: self.constraints@.map_values(|c: Constraint| c@),
        }
    }
}

impl View for Package {
    type V = PackageView;

    closed spec fn view(&self) -> PackageView {
        PackageView {
            name: self.name@,
            prev_uj: self.energy.spec_value(),
            max_uj: self.energy.spec_max(),
            constraints: self.constraints@.map_values(|c: Constraint| c@),
            subzones: self.subzones@.map_values(|s: Subzone| s@),
        }
    }
}

impl View for Rapl {
    type V = RaplView;

    closed spec fn view(&self) -> RaplView {
        RaplView { packages: self.packages@.map_values(|p: Package| p@) }
    }
}

/// The constraint list one zone directory yields: indices are scanned from 0
/// and the scan stops at the first index whose required attributes are not
/// readable.
pub open spec fn spec_zone_constraints(zone: Seq<char>, cs: Seq<ConstraintSnapshot>) -> Seq<
    ConstraintView,
> {
    spec_prefix(Seq::new(cs.len(), |i: int| spec_constraint_now(zone, i as u8, cs[i])))
}

/// What discovery yields for one subzone: its label is the package's name
/// joined to its own, its accumulator starts from the snapshot's counter.
pub open spec fn spec_subzone_now(
    root: RaplRoot,
    package_id: u8,
    subzone_id: u8,
    package_name: Seq<char>,
    z: ZoneSnapshot,
) -> SubzoneView {
    SubzoneView {
        name: package_name + "-"@ + zone_label(z),
        prev_uj: zone_energy(z),
        max_uj: zone_max(z),
        constraints: spec_zone_constraints(
            spec_subzone_path(root, package_id, subzone_id),
            z.constraints@,
        ),
    }
}

/// What an optional constraint scan step yields, lifted over option values.
pub open spec fn opt_constraint_view(o: Option<Constraint>) -> Option<ConstraintView> {
    match o {
        Some(c) => Some(c@),
        None => None,
    }
}

/// Scans a zone's constraint indices from 0, stopping at the first index
/// whose required attributes are not readable.
fn zone_constraints(zone: &str, cs: &Vec<ConstraintSnapshot>) -> (r: Vec<Constraint>)
    requires
        cs@.len() <= 255,
        forall|i: int| 0 <= i < cs@.len() ==> constraint_snap_wf(#[trigger] cs@[i]),
    ensures
        r@.map_values(|c: Constraint| c@) == spec_zone_constraints(zone@, cs@),
{
    let ghost target = Seq::new(cs@.len(), |i: int| spec_constraint_now(zone@, i as u8, cs@[i]));
    let mut opts: Vec<Option<Constraint>> = Vec::new();
    let n = cs.len();
    let mut i: usize = 0;
    while i < n
        invariant
            n == cs@.len() <= 255,
            forall|j: int| 0 <= j < n ==> constraint_snap_wf(#[trigger] cs@[j]),
            target == Seq::new(cs@.len(), |j: int| spec_constraint_now(zone@, j as u8, cs@[j])),
            0 <= i <= n,
            opts@.len() == i,
            forall|j: int| 0 <= j < i ==> opt_constraint_view(#[trigger] opts@[j]) == target[j],
        decreases n - i,
    {
        let c = Constraint::now(zone, i as u8, &cs[i]);
        opts.push(c);
        i = i + 1;
    }
    let r = take_prefix(opts);
    proof {
        let rv = r@.map_values(|c: Constraint| c@);
        assert forall|j: int| 0 <= j < rv.len() implies target[j] == Some(#[trigger] rv[j]) by {
            assert(opts@[j] == Some(r@[j]));
            assert(opt_constraint_view(opts@[j]) == target[j]);
            assert(rv[j] == r@[j]@);
        }
        if rv.len() < target.len() {
            assert(opts@[rv.len() as int] is None);
            assert(opt_constraint_view(opts@[rv.len() as int]) == target[rv.len() as int]);
        }
        lemma_prefix_char(target, rv);
    }
    r
}

impl Subzone {
    /// The accumulator's stored reading sits below its modulus, at this node
    /// and in every constraint-carrying child.
    pub open spec fn wf(self) -> bool {
        self@.prev_uj < self@.max_uj
    }

    /// Reads one subzone out of its snapshot: the label joins the package
    /// name and the subzone's own trimmed name, the accumulator starts from
    /// the snapshot's counter value, and the constraint indices are scanned
    /// from 0.
    pub fn now(
        root: RaplRoot,
        package_id: u8,
        subzone_id: u8,
        package_name: &str,
        snap: &ZoneSnapshot,
    ) -> (s: Subzone)
        requires
            zone_snap_wf(*snap),
        ensures
            s@ == spec_subzone_now(root, package_id, subzone_id, package_name@, *snap),
            s.wf(),
    {
        let mut name = package_name.to_owned();
        name.append("-");
        let own = match &snap.name {
            Some(n) => trim(n.as_str()),
            None => unreached(),
        };
        name.append(own.as_str());
        let max_energy_range_uj = required(&snap.max_energy_range_uj);
        let energy_uj = match parse_u64(snap.energy_uj.as_str()) {
            Some(v) => v,
            None => unreached(),
        };
        let energy = match Accumulator::new(energy_uj, max_energy_range_uj) {
            Some(a) => a,
            None => unreached(),
        };
        let zpath = subzone_path(root, package_id, subzone_id);
        let constraints = zone_constraints(zpath.as_str(), &snap.constraints);
        Subzone { name, energy, constraints }
    }

    /// The wrap-around modulus of this subzone's counter.
    pub fn max_energy_range_uj(&self) -> (m: u64)
        ensures
            m == self@.max_uj,
    {
        self.energy.max()
    }
}

/// What an optional subzone scan step yields, lifted over option values.
pub open spec fn opt_subzone_view(o: Option<Subzone>) -> Option<SubzoneView> {
    match o {
        Some(s) => Some(s@),
        None => None,
    }
}

/// What discovery yields for one package zone: its trimmed name, its
/// accumulator started from the snapshot's counter, its scanned constraints,
/// and (when asked for) its scanned subzones. The mmio variant of the zone
/// path only moves where the constraint files live.
pub open spec fn spec_package_now(
    root: RaplRoot,
    package_id: u8,
    mmio: bool,
    with_subzones: bool,
    p: PackageSnapshot,
) -> PackageView {
    let zpath = if mmio {
        spec_zone_path_mmio(root, package_id)
    } else {
        spec_zone_path(root, package_id)
    };
    PackageView {
        name: zone_label(p.zone),
        prev_uj: zone_energy(p.zone),
        max_uj: zone_max(p.zone),
        constraints: spec_zone_constraints(zpath, p.zone.constraints@),
        subzones: if with_subzones {
            spec_prefix(
                Seq::new(
                    p.subzones@.len(),
                    |i: int|
                        match p.subzones@[i] {
                            Some(z) => Some(
                                spec_subzone_now(root, package_id, i as u8, zone_label(p.zone), z),
                            ),
                            None => None,
                        },
                ),
            )
        } else {
            Seq::empty()
        },
    }
}

impl Package {
    /// The accumulator's stored reading sits below its modulus, here and in
    /// every subzone.
    pub open spec fn wf(self) -> bool {
        &&& self@.prev_uj < self@.max_uj
        &&& forall|i: int|
            0 <= i < self@.subzones.len() ==> (#[trigger] self@.subzones[i]).prev_uj
                < self@.subzones[i].max_uj
    }

    /// Reads one package zone out of its snapshot: name and wrap-around
    /// modulus are required, the accumulator starts from the snapshot's
    /// counter, constraint and (when asked for) subzone indices are scanned
    /// from 0, each stopping at its first gap.
    pub fn now(
        root: RaplRoot,
        package_id: u8,
        mmio: bool,
        with_subzones: bool,
        snap: &PackageSnapshot,
    ) -> (p: Package)
        requires
            package_snap_wf(*snap),
        ensures
            p@ == spec_package_now(root, package_id, mmio, with_subzones, *snap),
            p.wf(),
    {
        let name = match &snap.zone.name {
            Some(n) => trim(n.as_str()),
            None => unreached(),
        };
        let max_energy_range_uj = required(&snap.zone.max_energy_range_uj);
        let energy_uj = match parse_u64(snap.zone.energy_uj.as_str()) {
            Some(v) => v,
            None => unreached(),
        };
        let energy = match Accumulator::new(energy_uj, max_energy_range_uj) {
            Some(a) => a,
            None => unreached(),
        };
        let zpath = if mmio {
            zone_path_mmio(root, package_id)
        } else {
            zone_path(root, package_id)
        };
        let constraints = zone_constraints(zpath.as_str(), &snap.zone.constraints);
        let subzones = if with_subzones {
            let ghost target = Seq::new(
                snap.subzones@.len(),
                |i: int|
                    match snap.subzones@[i] {
                        Some(z) => Some(
                            spec_subzone_now(root, package_id, i as u8, zone_label(snap.zone), z),
                        ),
                        None => None,
                    },
            );
            let mut opts: Vec<Option<Subzone>> = Vec::new();
            let n = snap.subzones.len();
            let mut i: usize = 0;
            while i < n
                invariant
                    package_snap_wf(*snap),
                    name@ == zone_label(snap.zone),
                    n == snap.subzones@.len() <= 255,
                    target == Seq::new(
                        snap.subzones@.len(),
                        |j: int|
                            match snap.subzones@[j] {
                                Some(z) => Some(
                                    spec_subzone_now(
                                        root,
                                        package_id,
                                        j as u8,
                                        zone_label(snap.zone),
                                        z,
                                    ),
                                ),
                                None => None,
                            },
                    ),
                    0 <= i <= n,
                    opts@.len() == i,
                    forall|j: int|
                        0 <= j < i ==> opt_subzone_view(#[trigger] opts@[j]) == target[j],
                decreases n - i,
            {
                let s = match &snap.subzones[i] {
                    Some(z) => Some(Subzone::now(root, package_id, i as u8, name.as_str(), z)),
                    None => None,
                };
                proof {
                    assert(snap.subzones@[i as int] matches Some(z) ==> zone_snap_wf(z));
                }
                opts.push(s);
                i = i + 1;
            }
            let subzones = take_prefix(opts);
            proof {
                let sv = subzones@.map_values(|s: Subzone| s@);
                assert forall|j: int| 0 <= j < sv.len() implies target[j] == Some(
                    #[trigger] sv[j],
                ) by {
                    assert(opts@[j] == Some(subzones@[j]));
                    assert(opt_subzone_view(opts@[j]) == target[j]);
                    assert(sv[j] == subzones@[j]@);
                }
                if sv.len() < target.len() {
                    assert(opts@[sv.len() as int] is None);
                    assert(opt_subzone_view(opts@[sv.len() as int]) == target[sv.len() as int]);
                }
                lemma_prefix_char(target, sv);
            }
            subzones
        } else {
            Vec::new()
        };
        let p = Package { name, energy, constraints, subzones };
        proof {
            assert(p@.subzones =~= spec_package_now(
                root,
                package_id,
                mmio,
                with_subzones,
                *snap,
            ).subzones);
            assert(p@ == spec_package_now(root, package_id, mmio, with_subzones, *snap));
            assert forall|i: int| 0 <= i < p@.subzones.len() implies (
            #[trigger] p@.subzones[i]).prev_uj < p@.subzones[i].max_uj by {
                assert(p@.subzones[i] == p.subzones@[i]@);
            }
        }
        p
    }

    /// The wrap-around modulus of this package's counter.
    pub fn max_energy_range_uj(&self) -> (m: u64)
        ensures
            m == self@.max_uj,
    {
        self.energy.max()
    }
}

/// What discovery yields for the whole driver: nothing unless package 0 is
/// present; otherwise the present prefix of the packages, followed by the
/// present prefix of the mmio packages.
pub open spec fn spec_rapl_now(
    root: RaplRoot,
    with_subzones: bool,
    packages: Seq<Option<PackageSnapshot>>,
    mmio: Seq<Option<PackageSnapshot>>,
) -> Option<RaplView> {
    if packages.len() == 0 || packages[0] is None {
        None
    } else {
        let main = spec_prefix(packages);
        let mm = spec_prefix(mmio);
        Some(
            RaplView {
                packages: Seq::new(
                    main.len(),
                    |i: int| spec_package_now(root, i as u8, false, with_subzones, main[i]),
                ) + Seq::new(
                    mm.len(),
                    |i: int| spec_package_now(root, i as u8, true, with_subzones, mm[i]),
                ),
            },
        )
    }
}

impl Rapl {
    /// Every node's accumulator holds a reading below its modulus.
    pub open spec fn wf(self) -> bool {
        forall|i: int|
            0 <= i < self@.packages.len() ==> (#[trigger] self@.packages[i]).prev_uj
                < self@.packages[i].max_uj && (forall|j: int|
                0 <= j < self@.packages[i].subzones.len() ==> (
                #[trigger] self@.packages[i].subzones[j]).prev_uj
                    < self@.packages[i].subzones[j].max_uj)
    }

    /// Discovers the power-capping tree from a snapshot of its files, indexed
    /// by package id (`None` where `energy_uj` could not be opened). Package
    /// 0 is mandatory: its absence fails the whole driver. Packages past it,
    /// the mmio packages, and every zone's subzones and constraints are each
    /// scanned from index 0 up to their first gap.
    pub fn now(
        root: RaplRoot,
        with_subzones: bool,
        packages: Vec<Option<PackageSnapshot>>,
        mmio: Vec<Option<PackageSnapshot>>,
    ) -> (r: Option<Rapl>)
        requires
            packages@.len() <= 255,
            mmio@.len() <= 255,
            forall|i: int|
                0 <= i < packages@.len() ==> (#[trigger] packages@[i] matches Some(p)
                    ==> package_snap_wf(p)),
            forall|i: int|
                0 <= i < mmio@.len() ==> (#[trigger] mmio@[i] matches Some(p) ==> package_snap_wf(
                    p,
                )),
        ensures
            r is Some <==> (packages@.len() > 0 && packages@[0] is Some),
            r matches Some(x) ==> (Some(x@) == spec_rapl_now(root, with_subzones, packages@, mmio@)
                && x.wf()),
    {
        let ghost psnap = packages@;
        let ghost msnap = mmio@;
        let main = take_prefix(packages);
        proof {
            lemma_prefix_char(psnap, main@);
        }
        if main.len() == 0 {
            return None;
        }
        let mm = take_prefix(mmio);
        proof {
            lemma_prefix_char(msnap, mm@);
        }
        let ghost main_target = Seq::new(
            main@.len(),
            |i: int| spec_package_now(root, i as u8, false, with_subzones, main@[i]),
        );
        let ghost mm_target = Seq::new(
            mm@.len(),
            |i: int| spec_package_now(root, i as u8, true, with_subzones, mm@[i]),
        );
        let mut ps: Vec<Package> = Vec::new();
        let n = main.len();
        let mut i: usize = 0;
        while i < n
            invariant
                n == main@.len() <= 255,
                forall|j: int|
                    0 <= j < n ==> psnap[j] == Some(#[trigger] main@[j]) && package_snap_wf(
                        main@[j],
                    ),
                psnap.len() <= 255,
                forall|j: int|
                    0 <= j < psnap.len() ==> (#[trigger] psnap[j] matches Some(p)
                        ==> package_snap_wf(p)),
                main_target == Seq::new(
                    main@.len(),
                    |j: int| spec_package_now(root, j as u8, false, with_subzones, main@[j]),
                ),
                0 <= i <= n,
                ps@.len() == i,
                forall|j: int| 0 <= j < i ==> (#[trigger] ps@[j])@ == main_target[j],
                forall|j: int| 0 <= j < i ==> (#[trigger] ps@[j]).wf(),
            decreases n - i,
        {
            let p = Package::now(root, i as u8, false, with_subzones, &main[i]);
            ps.push(p);
            i = i + 1;
        }
        let m = mm.len();
        let mut k: usize = 0;
        while k < m
            invariant
                n == main@.len(),
                m == mm@.len() <= 255,
                forall|j: int|
                    0 <= j < m ==> msnap[j] == Some(#[trigger] mm@[j]) && package_snap_wf(mm@[j]),
                msnap.len() <= 255,
                forall|j: int|
                    0 <= j < msnap.len() ==> (#[trigger] msnap[j] matches Some(p)
                        ==> package_snap_wf(p)),
                mm_target == Seq::new(
                    mm@.len(),
                    |j: int| spec_package_now(root, j as u8, true, with_subzones, mm@[j]),
                ),
                0 <= k <= m,
                ps@.len() == n + k,
                forall|j: int| 0 <= j < n ==> (#[trigger] ps@[j])@ == main_target[j],
                forall|j: int| n <= j < n + k ==> (#[trigger] ps@[j])@ == mm_target[j - n],
                forall|j: int| 0 <= j < n + k ==> (#[trigger] ps@[j]).wf(),
            decreases m - k,
        {
            let p = Package::now(root, k as u8, true, with_subzones, &mm[k]);
            ps.push(p);
            k = k + 1;
        }
        let r = Rapl { packages: ps };
        proof {
            assert(spec_prefix(psnap) == main@);
            assert(spec_prefix(msnap) == mm@);
            assert(r@.packages =~= main_target + mm_target);
            assert(spec_rapl_now(root, with_subzones, psnap, msnap) matches Some(v) ==> v.packages
                =~= main_target + mm_target);
        }
        Some(r)
    }
}

/// The fresh counter values of one package and its subzones, in tree order,
/// as read by the caller for one sampling call.
pub struct PackageReading {
    pub energy_uj: u64,
    pub subzones: Vec<u64>,
}

/// A reading has one fresh value per node of the package.
pub open spec fn reading_matches(p: PackageView, r: PackageReading) -> bool {
    r.subzones@.len() == p.subzones.len()
}

/// Every fresh value sits below its node's wrap-around modulus; committing
/// such a reading keeps every accumulator well-formed.
pub open spec fn reading_in_range(p: PackageView, r: PackageReading) -> bool {
    &&& r.energy_uj < p.max_uj
    &&& forall|i: int|
        0 <= i < p.subzones.len() ==> r.subzones@[i] < (#[trigger] p.subzones[i]).max_uj
}

/// The labelled energy delta one subzone contributes to a report.
pub open spec fn spec_subzone_entry(s: SubzoneView, next_uj: u64) -> (Seq<char>, u64) {
    (s.name, spec_diff(s.prev_uj, next_uj, s.max_uj) as u64)
}

/// The labelled energy deltas one package contributes to a report: the
/// package's entry first, then its subzones in discovery order.
pub open spec fn spec_package_entries(p: PackageView, r: PackageReading) -> Entries {
    seq![(p.name, spec_diff(p.prev_uj, r.energy_uj, p.max_uj) as u64)] + Seq::new(
        p.subzones.len(),
        |i: int| spec_subzone_entry(p.subzones[i], r.subzones@[i]),
    )
}

/// The entries of all packages, concatenated in package order.
pub open spec fn spec_rapl_entries(ps: Seq<PackageView>, rs: Seq<PackageReading>) -> Entries
    decreases ps.len(),
{
    if ps.len() == 0 {
        Seq::empty()
    } else {
        spec_package_entries(ps[0], rs[0]) + spec_rapl_entries(ps.drop_first(), rs.drop_first())
    }
}

/// A package and its subzones committed to a fresh reading.
pub open spec fn spec_package_reset(p: PackageView, r: PackageReading) -> PackageView {
    PackageView {
        prev_uj: r.energy_uj,
        subzones: Seq::new(
            p.subzones.len(),
            |i: int| SubzoneView { prev_uj: r.subzones@[i], ..p.subzones[i] },
        ),
        ..p
    }
}

impl Subzone {
    /// The subzone's labelled energy delta for one fresh counter value.
    pub fn elapsed(&self, next_uj: u64) -> (e: (String, u64))
        requires
            self.wf(),
        ensures
            (e.0@, e.1) == spec_subzone_entry(self@, next_uj),
    {
        (self.name.clone(), self.energy.diff(next_uj))
    }

    /// As `elapsed`, and additionally commits the fresh value.
    pub fn elapsed_mut(&mut self, next_uj: u64) -> (e: (String, u64))
        requires
            old(self).wf(),
            next_uj < old(self)@.max_uj,
        ensures
            (e.0@, e.1) == spec_subzone_entry(old(self)@, next_uj),
            final(self)@ == (SubzoneView { prev_uj: next_uj, ..old(self)@ }),
            final(self).wf(),
    {
        let d = self.energy.update(next_uj);
        (self.name.clone(), d)
    }

    /// Commits the fresh value as the new baseline without reporting.
    pub fn reset(&mut self, next_uj: u64)
        requires
            old(self).wf(),
            next_uj < old(self)@.max_uj,
        ensures
            final(self)@ == (SubzoneView { prev_uj: next_uj, ..old(self)@ }),
            final(self).wf(),
    {
        let _ = self.energy.update(next_uj);
    }
}

impl Package {
    /// Inserts this package's entries into a report: the package entry
    /// first, then each subzone in discovery order.
    #[verifier::loop_isolation(false)]
    pub fn append_elapsed(&self, r: &PackageReading, m: &mut EnergyMap)
        requires
            self.wf(),
            reading_matches(self@, *r),
            old(m).wf(),
        ensures
            final(m)@ == spec_insert_all(old(m)@, spec_package_entries(self@, *r)),
            final(m).wf(),
    {
        let ghost entries = spec_package_entries(self@, *r);
        let d = self.energy.diff(r.energy_uj);
        m.insert(self.name.clone(), d);
        proof {
            assert(entries[0] == (self@.name, spec_diff(self@.prev_uj, r.energy_uj, self@.max_uj)
                as u64));
            lemma_insert_all_push(old(m)@, Seq::empty(), entries[0]);
            assert(Seq::<(Seq<char>, u64)>::empty().push(entries[0]) =~= entries.take(1));
            assert(m@ == spec_insert_all(old(m)@, entries.take(1)));
        }
        let n = self.subzones.len();
        let mut i: usize = 0;
        while i < n
            invariant
                0 <= i <= n,
                m@ == spec_insert_all(old(m)@, entries.take(1 + i as int)),
                m.wf(),
            decreases n - i,
        {
            proof {
                assert(self@.subzones[i as int] == self.subzones@[i as int]@);
            }
            let (k, v) = self.subzones[i].elapsed(r.subzones[i]);
            proof {
                assert((k@, v) == entries[1 + i as int]);
                lemma_insert_all_push(old(m)@, entries.take(1 + i as int), entries[1 + i as int]);
                assert(entries.take(2 + i as int) =~= entries.take(1 + i as int).push(
                    entries[1 + i as int],
                ));
            }
            m.insert(k, v);
            i = i + 1;
        }
        proof {
            assert(entries.take(1 + n as int) =~= entries);
        }
    }

    /// The package's energy report for one reading: its own entry first,
    /// then each subzone's, in discovery order.
    pub fn elapsed(&self, r: &PackageReading) -> (m: EnergyMap)
        requires
            self.wf(),
            reading_matches(self@, *r),
        ensures
            m@ == spec_insert_all(Seq::empty(), spec_package_entries(self@, *r)),
            m.wf(),
    {
        let mut m = EnergyMap::new();
        self.append_elapsed(r, &mut m);
        m
    }

    /// As `append_elapsed`, and additionally commits the fresh reading at
    /// every node it visits.
    #[verifier::loop_isolation(false)]
    pub fn append_elapsed_mut(&mut self, r: &PackageReading, m: &mut EnergyMap)
        requires
            old(self).wf(),
            reading_matches(old(self)@, *r),
            reading_in_range(old(self)@, *r),
            old(m).wf(),
        ensures
            final(m)@ == spec_insert_all(old(m)@, spec_package_entries(old(self)@, *r)),
            final(m).wf(),
            final(self)@ == spec_package_reset(old(self)@, *r),
            final(self).wf(),
    {
        let ghost entries = spec_package_entries(old(self)@, *r);
        let d = self.energy.update(r.energy_uj);
        m.insert(self.name.clone(), d);
        proof {
            assert(entries[0] == (old(self)@.name, spec_diff(
                old(self)@.prev_uj,
                r.energy_uj,
                old(self)@.max_uj,
            ) as u64));
            lemma_insert_all_push(old(m)@, Seq::empty(), entries[0]);
            assert(Seq::<(Seq<char>, u64)>::empty().push(entries[0]) =~= entries.take(1));
            assert(m@ == spec_insert_all(old(m)@, entries.take(1)));
        }
        let n = self.subzones.len();
        let mut i: usize = 0;
        while i < n
            invariant
                0 <= i <= n,
                n == self.subzones@.len(),
                m@ == spec_insert_all(old(m)@, entries.take(1 + i as int)),
                m.wf(),
                self.name@ == old(self)@.name,
                self.energy.spec_value() == r.energy_uj,
                self.energy.spec_max() == old(self)@.max_uj,
                self.energy.wf(),
                self.constraints@ == old(self).constraints@,
                forall|j: int|
                    0 <= j < i ==> (#[trigger] self.subzones@[j])@ == (SubzoneView {
                        prev_uj: r.subzones@[j],
                        ..old(self)@.subzones[j]
                    }),
                forall|j: int| i <= j < n ==> #[trigger] self.subzones@[j] == old(self).subzones@[j],
            decreases n - i,
        {
            proof {
                assert(self.subzones@[i as int] == old(self).subzones@[i as int]);
                assert(old(self)@.subzones[i as int] == old(self).subzones@[i as int]@);
            }
            let (k, v) = self.subzones[i].elapsed_mut(r.subzones[i]);
            proof {
                assert((k@, v) == entries[1 + i as int]);
                lemma_insert_all_push(old(m)@, entries.take(1 + i as int), entries[1 + i as int]);
                assert(entries.take(2 + i as int) =~= entries.take(1 + i as int).push(
                    entries[1 + i as int],
                ));
            }
            m.insert(k, v);
            i = i + 1;
        }
        proof {
            assert(entries.take(1 + n as int) =~= entries);
            assert(final(self)@.subzones =~= spec_package_reset(old(self)@, *r).subzones);
            assert(final(self)@.constraints =~= spec_package_reset(old(self)@, *r).constraints);
        }
    }

    /// Commits a fresh reading at every node without reporting.
    #[verifier::loop_isolation(false)]
    pub fn reset(&mut self, r: &PackageReading)
        requires
            old(self).wf(),
            reading_matches(old(self)@, *r),
            reading_in_range(old(self)@, *r),
        ensures
            final(self)@ == spec_package_reset(old(self)@, *r),
            final(self).wf(),
    {
        let _ = self.energy.update(r.energy_uj);
        let n = self.subzones.len();
        let mut i: usize = 0;
        while i < n
            invariant
                0 <= i <= n,
                n == self.subzones@.len(),
                self.name@ == old(self)@.name,
                self.energy.spec_value() == r.energy_uj,
                self.energy.spec_max() == old(self)@.max_uj,
                self.energy.wf(),
                self.constraints@ == old(self).constraints@,
                forall|j: int|
                    0 <= j < i ==> (#[trigger] self.subzones@[j])@ == (SubzoneView {
                        prev_uj: r.subzones@[j],
                        ..old(self)@.subzones[j]
                    }),
                forall|j: int| i <= j < n ==> #[trigger] self.subzones@[j] == old(self).subzones@[j],
            decreases n - i,
        {
            proof {
                assert(self.subzones@[i as int] == old(self).subzones@[i as int]);
                assert(old(self)@.subzones[i as int] == old(self).subzones@[i as int]@);
            }
            self.subzones[i].reset(r.subzones[i]);
            i = i + 1;
        }
        proof {
            assert(final(self)@.subzones =~= spec_package_reset(old(self)@, *r).subzones);
            assert(final(self)@.constraints =~= spec_package_reset(old(self)@, *r).constraints);
        }
    }
}

/// One fresh reading per package, each matching its package's shape.
pub open spec fn rapl_reading_matches(v: RaplView, rs: Seq<PackageReading>) -> bool {
    &&& rs.len() == v.packages.len()
    &&& forall|i: int|
        0 <= i < v.packages.len() ==> reading_matches(#[trigger] v.packages[i], rs[i])
}

/// Every fresh value across the tree sits below its node's modulus.
pub open spec fn rapl_reading_in_range(v: RaplView, rs: Seq<PackageReading>) -> bool {
    forall|i: int| 0 <= i < v.packages.len() ==> reading_in_range(#[trigger] v.packages[i], rs[i])
}

/// The whole driver committed to a fresh reading.
pub open spec fn spec_rapl_reset(v: RaplView, rs: Seq<PackageReading>) -> RaplView {
    RaplView {
        packages: Seq::new(v.packages.len(), |i: int| spec_package_reset(v.packages[i], rs[i])),
    }
}

/// One more package extends the entry concatenation at its end.
proof fn lemma_rapl_entries_snoc(ps: Seq<PackageView>, rs: Seq<PackageReading>, i: int)
    requires
        0 <= i < ps.len(),
        i < rs.len(),
    ensures
        spec_rapl_entries(ps.take(i + 1), rs.take(i + 1)) == spec_rapl_entries(
            ps.take(i),
            rs.take(i),
        ) + spec_package_entries(ps[i], rs[i]),
    decreases i,
{
    if i == 0 {
        assert(ps.take(1)[0] == ps[0]);
        assert(rs.take(1)[0] == rs[0]);
        assert(ps.take(1).drop_first() =~= ps.take(0));
        assert(rs.take(1).drop_first() =~= rs.take(0));
        assert(ps.take(0).len() == 0);
        assert(spec_rapl_entries(ps.take(1), rs.take(1)) == spec_package_entries(ps[0], rs[0])
            + spec_rapl_entries(ps.take(0), rs.take(0)));
        assert(spec_package_entries(ps[0], rs[0]) + Seq::<(Seq<char>, u64)>::empty()
            =~= spec_package_entries(ps[0], rs[0]));
        assert(Seq::<(Seq<char>, u64)>::empty() + spec_package_entries(ps[0], rs[0])
            =~= spec_package_entries(ps[0], rs[0]));
    } else {
        lemma_rapl_entries_snoc(ps.drop_first(), rs.drop_first(), i - 1);
        assert(ps.take(i + 1)[0] == ps[0]);
        assert(rs.take(i + 1)[0] == rs[0]);
        assert(ps.take(i + 1).drop_first() =~= ps.drop_first().take(i));
        assert(rs.take(i + 1).drop_first() =~= rs.drop_first().take(i));
        assert(ps.take(i)[0] == ps[0]);
        assert(rs.take(i)[0] == rs[0]);
        assert(ps.take(i).drop_first() =~= ps.drop_first().take(i - 1));
        assert(rs.take(i).drop_first() =~= rs.drop_first().take(i - 1));
        assert(ps.drop_first()[i - 1] == ps[i]);
        assert(rs.drop_first()[i - 1] == rs[i]);
        let head = spec_package_entries(ps[0], rs[0]);
        let mid = spec_rapl_entries(ps.drop_first().take(i - 1), rs.drop_first().take(i - 1));
        let tail = spec_package_entries(ps[i], rs[i]);
        assert(spec_rapl_entries(ps.take(i + 1), rs.take(i + 1)) == head + (mid + tail));
        assert(spec_rapl_entries(ps.take(i), rs.take(i)) == head + mid);
        assert(head + (mid + tail) =~= (head + mid) + tail);
    }
}

impl Rapl {
    /// The merged energy report of one sampling call: each package's entries
    /// in package order, package entry before its subzones'.
    #[verifier::loop_isolation(false)]
    pub fn elapsed(&self, rs: &Vec<PackageReading>) -> (m: EnergyMap)
        requires
            self.wf(),
            rapl_reading_matches(self@, rs@),
        ensures
            m@ == spec_insert_all(Seq::empty(), spec_rapl_entries(self@.packages, rs@)),
            m.wf(),
    {
        let mut m = EnergyMap::new();
        let n = self.packages.len();
        let mut i: usize = 0;
        while i < n
            invariant
                0 <= i <= n,
                m@ == spec_insert_all(
                    Seq::empty(),
                    spec_rapl_entries(self@.packages.take(i as int), rs@.take(i as int)),
                ),
                m.wf(),
            decreases n - i,
        {
            proof {
                assert(self@.packages[i as int] == self.packages@[i as int]@);
            }
            self.packages[i].append_elapsed(&rs[i], &mut m);
            proof {
                lemma_rapl_entries_snoc(self@.packages, rs@, i as int);
                lemma_insert_all_concat(
                    Seq::empty(),
                    spec_rapl_entries(self@.packages.take(i as int), rs@.take(i as int)),
                    spec_package_entries(self@.packages[i as int], rs@[i as int]),
                );
            }
            i = i + 1;
        }
        proof {
            assert(self@.packages.take(n as int) =~= self@.packages);
            assert(rs@.take(n as int) =~= rs@);
        }
        m
    }

    /// As `elapsed`, and additionally commits the fresh reading at every
    /// node it visits.
    #[verifier::loop_isolation(false)]
    pub fn elapsed_mut(&mut self, rs: &Vec<PackageReading>) -> (m: EnergyMap)
        requires
            old(self).wf(),
            rapl_reading_matches(old(self)@, rs@),
            rapl_reading_in_range(old(self)@, rs@),
        ensures
            m@ == spec_insert_all(Seq::empty(), spec_rapl_entries(old(self)@.packages, rs@)),
            m.wf(),
            final(self)@ == spec_rapl_reset(old(self)@, rs@),
            final(self).wf(),
    {
        let mut m = EnergyMap::new();
        let n = self.packages.len();
        let mut i: usize = 0;
        while i < n
            invariant
                0 <= i <= n,
                n == self.packages@.len(),
                m@ == spec_insert_all(
                    Seq::empty(),
                    spec_rapl_entries(old(self)@.packages.take(i as int), rs@.take(i as int)),
                ),
                m.wf(),
                forall|j: int|
                    0 <= j < i ==> (#[trigger] self.packages@[j])@ == spec_package_reset(
                        old(self)@.packages[j],
                        rs@[j],
                    ),
                forall|j: int|
                    i <= j < n ==> #[trigger] self.packages@[j] == old(self).packages@[j],
            decreases n - i,
        {
            proof {
                assert(self.packages@[i as int] == old(self).packages@[i as int]);
                assert(old(self)@.packages[i as int] == old(self).packages@[i as int]@);
            }
            self.packages[i].append_elapsed_mut(&rs[i], &mut m);
            proof {
                lemma_rapl_entries_snoc(old(self)@.packages, rs@, i as int);
                lemma_insert_all_concat(
                    Seq::empty(),
                    spec_rapl_entries(old(self)@.packages.take(i as int), rs@.take(i as int)),
                    spec_package_entries(old(self)@.packages[i as int], rs@[i as int]),
                );
            }
            i = i + 1;
        }
        proof {
            assert(old(self)@.packages.take(n as int) =~= old(self)@.packages);
            assert(rs@.take(n as int) =~= rs@);
            assert(final(self)@.packages =~= spec_rapl_reset(old(self)@, rs@).packages);
        }
        m
    }

    /// Commits a fresh reading at every node without reporting.
    #[verifier::loop_isolation(false)]
    pub fn reset(&mut self, rs: &Vec<PackageReading>)
        requires
            old(self).wf(),
            rapl_reading_matches(old(self)@, rs@),
            rapl_reading_in_range(old(self)@, rs@),
        ensures
            final(self)@ == spec_rapl_reset(old(self)@, rs@),
            final(self).wf(),
    {
        let n = self.packages.len();
        let mut i: usize = 0;
        while i < n
            invariant
                0 <= i <= n,
                n == self.packages@.len(),
                forall|j: int|
                    0 <= j < i ==> (#[trigger] self.packages@[j])@ == spec_package_reset(
                        old(self)@.packages[j],
                        rs@[j],
                    ),
                forall|j: int|
                    i <= j < n ==> #[trigger] self.packages@[j] == old(self).packages@[j],
            decreases n - i,
        {
            proof {
                assert(self.packages@[i as int] == old(self).packages@[i as int]);
                assert(old(self)@.packages[i as int] == old(self).packages@[i as int]@);
            }
            self.packages[i].reset(&rs[i]);
            i = i + 1;
        }
        proof {
            assert(final(self)@.packages =~= spec_rapl_reset(old(self)@, rs@).packages);
        }
    }
}

/// Decodes a package's `energy_uj` text: `None` when the file was absent or
/// its text does not parse (the caller proceeds without that package).
pub fn read_package(text: &Option<String>) -> (r: Option<u64>)
    ensures
        r == parsed(*text),
{
    match text {
        Some(s) => parse_u64(s.as_str()),
        None => None,
    }
}

/// Decodes a subzone's `energy_uj` text, exactly as `read_package` does.
pub fn read_subzone(text: &Option<String>) -> (r: Option<u64>)
    ensures
        r == parsed(*text),
{
    match text {
        Some(s) => parse_u64(s.as_str()),
        None => None,
    }
}

/// Decodes a package's `max_energy_range_uj` text. The attribute is
/// required: callers rule out an absent or unparsable text beforehand.
pub fn read_package_range(text: &Option<String>) -> (v: u64)
    requires
        parsed(*text) is Some,
    ensures
        Some(v) == parsed(*text),
{
    required(text)
}

/// Decodes a subzone's `max_energy_range_uj` text, exactly as
/// `read_package_range` does.
pub fn read_subzone_range(text: &Option<String>) -> (v: u64)
    requires
        parsed(*text) is Some,
    ensures
        Some(v) == parsed(*text),
{
    required(text)
}

/// A package's output label: its trimmed `name` text, or `intel-rapl:<pkg>`
/// when the name attribute could not be read.
pub open spec fn spec_package_name(package_id: u8, text: Option<String>) -> Seq<char> {
    match text {
        Some(t) => spec_trim(t@),
        None => "intel-rapl:"@ + dec_digits(package_id as int),
    }
}

pub fn package_name(package_id: u8, text: &Option<String>) -> (s: String)
    ensures
        s@ == spec_package_name(package_id, *text),
{
    match text {
        Some(t) => trim(t.as_str()),
        None => {
            let mut s = "intel-rapl:".to_owned();
            let d = u64_to_dec(package_id as u64);
            s.append(d.as_str());
            s
        },
    }
}

/// A subzone's output label: the package's label joined to the subzone's
/// trimmed `name` text with `-`, or to the subzone index with `:` when the
/// subzone's name attribute could not be read.
pub open spec fn spec_subzone_name(
    package_id: u8,
    subzone_id: u8,
    package_text: Option<String>,
    subzone_text: Option<String>,
) -> Seq<char> {
    let pname = spec_package_name(package_id, package_text);
    match subzone_text {
        Some(t) => pname + "-"@ + spec_trim(t@),
        None => pname + ":"@ + dec_digits(subzone_id as int),
    }
}

pub fn subzone_name(
    package_id: u8,
    subzone_id: u8,
    package_text: &Option<String>,
    subzone_text: &Option<String>,
) -> (s: String)
    ensures
        s@ == spec_subzone_name(package_id, subzone_id, *package_text, *subzone_text),
{
    let mut s = package_name(package_id, package_text);
    match subzone_text {
        Some(t) => {
            s.append("-");
            let own = trim(t.as_str());
            s.append(own.as_str());
        },
        None => {
            s.append(":");
            let d = u64_to_dec(subzone_id as u64);
            s.append(d.as_str());
        },
    }
    s
}

/// One package's raw energy deltas: the package counter's delta and each
/// subzone's, in discovery order, all in microjoules.
pub struct RaplEnergy {
    pub package_energy_uj: u64,
    pub subzone_energy_uj: Vec<u64>,
}

/// One package's average power over an interval: energy delta divided by the
/// interval, for the package and each subzone in discovery order.
pub struct RaplPower {
    pub package_power_w: u64,
    pub subzone_power_w: Vec<u64>,
}

/// One package's raw microjoule deltas for one fresh reading.
#[verifier::loop_isolation(false)]
fn package_energy(p: &Package, r: &PackageReading) -> (e: RaplEnergy)
    requires
        p.wf(),
        reading_matches(p@, *r),
    ensures
        e.package_energy_uj == spec_diff(p@.prev_uj, r.energy_uj, p@.max_uj),
        e.subzone_energy_uj@.len() == p@.subzones.len(),
        forall|i: int|
            0 <= i < p@.subzones.len() ==> #[trigger] e.subzone_energy_uj@[i] == spec_diff(
                p@.subzones[i].prev_uj,
                r.subzones@[i],
                p@.subzones[i].max_uj,
            ),
{
    let package_energy_uj = p.energy.diff(r.energy_uj);
    let mut subzone_energy_uj: Vec<u64> = Vec::new();
    let n = p.subzones.len();
    let mut i: usize = 0;
    while i < n
        invariant
            0 <= i <= n,
            subzone_energy_uj@.len() == i,
            forall|j: int|
                0 <= j < i ==> #[trigger] subzone_energy_uj@[j] == spec_diff(
                    p@.subzones[j].prev_uj,
                    r.subzones@[j],
                    p@.subzones[j].max_uj,
                ),
        decreases n - i,
    {
        proof {
            assert(p@.subzones[i as int] == p.subzones@[i as int]@);
        }
        let d = p.subzones[i].energy.diff(r.subzones[i]);
        subzone_energy_uj.push(d);
        i = i + 1;
    }
    RaplEnergy { package_energy_uj, subzone_energy_uj }
}

impl Package {
    /// The package's average power over an interval of `micros`
    /// microseconds: each node's wrap-safe delta divided by the interval,
    /// with the fresh reading committed as the new baseline.
    pub fn power(&mut self, r: &PackageReading, micros: u64) -> (w: RaplPower)
        requires
            old(self).wf(),
            reading_matches(old(self)@, *r),
            reading_in_range(old(self)@, *r),
            micros > 0,
        ensures
            w.package_power_w == spec_diff(old(self)@.prev_uj, r.energy_uj, old(self)@.max_uj)
                as u64 / micros,
            w.subzone_power_w@.len() == old(self)@.subzones.len(),
            forall|i: int|
                0 <= i < old(self)@.subzones.len() ==> #[trigger] w.subzone_power_w@[i]
                    == spec_diff(
                    old(self)@.subzones[i].prev_uj,
                    r.subzones@[i],
                    old(self)@.subzones[i].max_uj,
                ) as u64 / micros,
            final(self)@ == spec_package_reset(old(self)@, *r),
            final(self).wf(),
    {
        let e = package_energy(self, r);
        self.reset(r);
        let package_power_w = e.package_energy_uj / micros;
        let mut subzone_power_w: Vec<u64> = Vec::new();
        let n = e.subzone_energy_uj.len();
        let mut i: usize = 0;
        while i < n
            invariant
                0 <= i <= n,
                n == e.subzone_energy_uj@.len(),
                micros > 0,
                subzone_power_w@.len() == i,
                forall|j: int|
                    0 <= j < i ==> #[trigger] subzone_power_w@[j] == e.subzone_energy_uj@[j]
                        / micros,
            decreases n - i,
        {
            let d = e.subzone_energy_uj[i] / micros;
            subzone_power_w.push(d);
            i = i + 1;
        }
        RaplPower { package_power_w, subzone_power_w }
    }
}

impl Rapl {
    /// The raw microjoule deltas of every package for one sampling call, in
    /// package order.
    #[verifier::loop_isolation(false)]
    pub fn energy(&self, rs: &Vec<PackageReading>) -> (es: Vec<RaplEnergy>)
        requires
            self.wf(),
            rapl_reading_matches(self@, rs@),
        ensures
            es@.len() == self@.packages.len(),
            forall|i: int|
                0 <= i < self@.packages.len() ==> (#[trigger] es@[i]).package_energy_uj
                    == spec_diff(
                    self@.packages[i].prev_uj,
                    rs@[i].energy_uj,
                    self@.packages[i].max_uj,
                ) && es@[i].subzone_energy_uj@.len() == self@.packages[i].subzones.len() && (
                forall|j: int|
                    0 <= j < self@.packages[i].subzones.len()
                        ==> #[trigger] es@[i].subzone_energy_uj@[j] == spec_diff(
                        self@.packages[i].subzones[j].prev_uj,
                        rs@[i].subzones@[j],
                        self@.packages[i].subzones[j].max_uj,
                    )),
    {
        let mut es: Vec<RaplEnergy> = Vec::new();
        let n = self.packages.len();
        let mut i: usize = 0;
        while i < n
            invariant
                0 <= i <= n,
                es@.len() == i,
                forall|j: int|
                    0 <= j < i ==> (#[trigger] es@[j]).package_energy_uj == spec_diff(
                        self@.packages[j].prev_uj,
                        rs@[j].energy_uj,
                        self@.packages[j].max_uj,
                    ) && es@[j].subzone_energy_uj@.len() == self@.packages[j].subzones.len() && (
                    forall|k: int|
                        0 <= k < self@.packages[j].subzones.len()
                            ==> #[trigger] es@[j].subzone_energy_uj@[k] == spec_diff(
                            self@.packages[j].subzones[k].prev_uj,
                            rs@[j].subzones@[k],
                            self@.packages[j].subzones[k].max_uj,
                        )),
            decreases n - i,
        {
            proof {
                assert(self@.packages[i as int] == self.packages@[i as int]@);
            }
            let e = package_energy(&self.packages[i], &rs[i]);
            es.push(e);
            i = i + 1;
        }
        es
    }

    /// The average power of every package over an interval of `micros`
    /// microseconds, committing the fresh reading everywhere.
    #[verifier::loop_isolation(false)]
    pub fn power(&mut self, rs: &Vec<PackageReading>, micros: u64) -> (ws: Vec<RaplPower>)
        requires
            old(self).wf(),
            rapl_reading_matches(old(self)@, rs@),
            rapl_reading_in_range(old(self)@, rs@),
            micros > 0,
        ensures
            ws@.len() == old(self)@.packages.len(),
            forall|i: int|
                0 <= i < old(self)@.packages.len() ==> (#[trigger] ws@[i]).package_power_w
                    == spec_diff(
                    old(self)@.packages[i].prev_uj,
                    rs@[i].energy_uj,
                    old(self)@.packages[i].max_uj,
                ) as u64 / micros && ws@[i].subzone_power_w@.len()
                    == old(self)@.packages[i].subzones.len() && (forall|j: int|
                    0 <= j < old(self)@.packages[i].subzones.len()
                        ==> #[trigger] ws@[i].subzone_power_w@[j] == spec_diff(
                        old(self)@.packages[i].subzones[j].prev_uj,
                        rs@[i].subzones@[j],
                        old(self)@.packages[i].subzones[j].max_uj,
                    ) as u64 / micros),
            final(self)@ == spec_rapl_reset(old(self)@, rs@),
            final(self).wf(),
    {
        let mut ws: Vec<RaplPower> = Vec::new();
        let n = self.packages.len();
        let mut i: usize = 0;
        while i < n
            invariant
                0 <= i <= n,
                n == self.packages@.len(),
                micros > 0,
                ws@.len() == i,
                forall|j: int|
                    0 <= j < i ==> (#[trigger] ws@[j]).package_power_w == spec_diff(
                        old(self)@.packages[j].prev_uj,
                        rs@[j].energy_uj,
                        old(self)@.packages[j].max_uj,
                    ) as u64 / micros && ws@[j].subzone_power_w@.len()
                        == old(self)@.packages[j].subzones.len() && (forall|k: int|
                        0 <= k < old(self)@.packages[j].subzones.len()
                            ==> #[trigger] ws@[j].subzone_power_w@[k] == spec_diff(
                            old(self)@.packages[j].subzones[k].prev_uj,
                            rs@[j].subzones@[k],
                            old(self)@.packages[j].subzones[k].max_uj,
                        ) as u64 / micros),
                forall|j: int|
                    0 <= j < i ==> (#[trigger] self.packages@[j])@ == spec_package_reset(
                        old(self)@.packages[j],
                        rs@[j],
                    ),
                forall|j: int|
                    i <= j < n ==> #[trigger] self.packages@[j] == old(self).packages@[j],
            decreases n - i,
        {
            proof {
                assert(self.packages@[i as int] == old(self).packages@[i as int]);
                assert(old(self)@.packages[i as int] == old(self).packages@[i as int]@);
            }
            let w = self.packages[i].power(&rs[i], micros);
            ws.push(w);
            i = i + 1;
        }
        proof {
            assert(final(self)@.packages =~= spec_rapl_reset(old(self)@, rs@).packages);
        }
        ws
    }
}

} // verus!

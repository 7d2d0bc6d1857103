//! The per-package register driver: each CPU package exposes a power-unit
//! register (decoded once at discovery) and two accumulated-energy registers.
//! Sampling turns fresh register values into wrap-safe raw deltas; the
//! decoded energy exponent tells the caller the scale (`0.5^exponent` joules
//! per raw unit).
//!
//! The surrounding program does the device reads: it hands discovery one
//! snapshot per package index (`None` where the device could not be opened)
//! and hands sampling the fresh register values.

use vstd::prelude::*;
use crate::accumulator::{Accumulator, spec_diff};
use crate::discovery::{take_prefix, spec_prefix, lemma_prefix_char};
use crate::energy_map::{EnergyMap, Entries, spec_insert_all, lemma_insert_all_push};
use crate::text::{dec_digits, u64_to_dec};
use crate::unit::{Unit, spec_time_exponent, spec_energy_exponent, spec_power_exponent};

verus! {

/// The initial register values of one package's device, read at discovery.
pub struct CoreSnapshot {
    /// The raw power-unit register value.
    pub power_unit: u64,
    /// The initial package accumulated-energy register value.
    pub package_energy: u64,
    /// The initial core accumulated-energy register value.
    pub core_energy: u64,
    /// The wrap-around modulus of the two energy registers.
    pub max_energy_range: u64,
}

/// Both initial readings sit below the registers' wrap-around modulus.
pub open spec fn core_snap_wf(s: CoreSnapshot) -> bool {
    s.package_energy < s.max_energy_range && s.core_energy < s.max_energy_range
}

/// The fresh register values of one package for one sampling call.
pub struct MsrReading {
    pub package_energy: u64,
    pub core_energy: u64,
}

/// One package's raw energy deltas, in raw register units.
pub struct MsrEnergy {
    pub package_energy_uj: u64,
    pub core_energy_uj: u64,
}

/// One per-package register reader: the decoded unit register and one
/// wrap-safe accumulator per monitored energy register.
pub struct Core {
    pub package_id: u8,
    pub unit: Unit,
    package: Accumulator,
    core: Accumulator,
}

/// The mathematical content of a core reader.
pub struct CoreView {
    pub package_id: u8,
    pub unit: Unit,
    pub package_prev: u64,
    pub core_prev: u64,
    pub max: u64,
}

impl View for Core {
    type V = CoreView;

    closed spec fn view(&self) -> CoreView {
        CoreView {
            package_id: self.package_id,
            unit: self.unit,
            package_prev: self.package.spec_value(),
            core_prev: self.core.spec_value(),
            max: self.package.spec_max(),
        }
    }
}

/// The register driver: the ordered list of discovered package readers.
pub struct Msr {
    pub cores: Vec<Core>,
}

/// The mathematical content of the driver.
pub struct MsrView {
    pub cores: Seq<CoreView>,
}

impl View for Msr {
    type V = MsrView;

    closed spec fn view(&self) -> MsrView {
        MsrView { cores: self.cores@.map_values(|c: Core| c@) }
    }
}

/// What discovery yields for one package index: the unit register decoded
/// through its three fixed bit fields, and both accumulators started from
/// the snapshot's readings.
pub open spec fn spec_core_now(package_id: u8, s: CoreSnapshot) -> CoreView {
    CoreView {
        package_id,
        unit: Unit {
            time: spec_time_exponent(s.power_unit),
            energy: spec_energy_exponent(s.power_unit),
            power: spec_power_exponent(s.power_unit),
        },
        package_prev: s.package_energy,
        core_prev: s.core_energy,
        max: s.max_energy_range,
    }
}

/// The package-energy label of one package: `cpu<id>:package`.
pub open spec fn spec_package_label(package_id: u8) -> Seq<char> {
    "cpu"@ + dec_digits(package_id as int) + ":package"@
}

/// The core-energy label of one package: `cpu<id>:core`.
pub open spec fn spec_core_label(package_id: u8) -> Seq<char> {
    "cpu"@ + dec_digits(package_id as int) + ":core"@
}

pub fn package_label(package_id: u8) -> (s: String)
    ensures
        s@ == spec_package_label(package_id),
{
    let mut s = "cpu".to_owned();
    let d = u64_to_dec(package_id as u64);
    s.append(d.as_str());
    s.append(":package");
    s
}

pub fn core_label(package_id: u8) -> (s: String)
    ensures
        s@ == spec_core_label(package_id),
{
    let mut s = "cpu".to_owned();
    let d = u64_to_dec(package_id as u64);
    s.append(d.as_str());
    s.append(":core");
    s
}

/// The two labelled raw deltas one package contributes to a report: its
/// package register's entry, then its core register's.
pub open spec fn spec_core_entries(c: CoreView, r: MsrReading) -> Entries {
    seq![
        (spec_package_label(c.package_id), spec_diff(c.package_prev, r.package_energy, c.max) as u64),
        (spec_core_label(c.package_id), spec_diff(c.core_prev, r.core_energy, c.max) as u64),
    ]
}

/// The entries of all packages, concatenated in package order.
pub open spec fn spec_msr_entries(cs: Seq<CoreView>, rs: Seq<MsrReading>) -> Entries
    decreases cs.len(),
{
    if cs.len() == 0 {
        Seq::empty()
    } else {
        spec_core_entries(cs[0], rs[0]) + spec_msr_entries(cs.drop_first(), rs.drop_first())
    }
}

/// A core reader committed to a fresh reading.
pub open spec fn spec_core_reset(c: CoreView, r: MsrReading) -> CoreView {
    CoreView { package_prev: r.package_energy, core_prev: r.core_energy, ..c }
}

/// The whole driver committed to a fresh reading.
pub open spec fn spec_msr_reset(v: MsrView, rs: Seq<MsrReading>) -> MsrView {
    MsrView { cores: Seq::new(v.cores.len(), |i: int| spec_core_reset(v.cores[i], rs[i])) }
}

/// Every fresh value sits below the registers' wrap-around modulus.
pub open spec fn msr_reading_in_range(v: MsrView, rs: Seq<MsrReading>) -> bool {
    forall|i: int|
        0 <= i < v.cores.len() ==> rs[i].package_energy < (#[trigger] v.cores[i]).max
            && rs[i].core_energy < v.cores[i].max
}

impl Core {
    /// Both accumulators share the registers' one wrap-around modulus and
    /// hold readings below it.
    pub closed spec fn wf(self) -> bool {
        &&& self.package.wf()
        &&& self.core.wf()
        &&& self.core.spec_max() == self.package.spec_max()
    }

    /// A well-formed reader's stored readings sit below the modulus its view
    /// shows.
    pub proof fn lemma_wf_view(self)
        requires
            self.wf(),
        ensures
            self@.package_prev < self@.max,
            self@.core_prev < self@.max,
    {
    }

    /// Reads one package's device snapshot: decodes the power-unit register
    /// once and starts both energy accumulators from the initial readings.
    pub fn now(package_id: u8, snap: &CoreSnapshot) -> (c: Core)
        requires
            core_snap_wf(*snap),
        ensures
            c@ == spec_core_now(package_id, *snap),
            c.wf(),
    {
        let unit = Unit::new(snap.power_unit);
        let package = match Accumulator::new(snap.package_energy, snap.max_energy_range) {
            Some(a) => a,
            None => unreached(),
        };
        let core = match Accumulator::new(snap.core_energy, snap.max_energy_range) {
            Some(a) => a,
            None => unreached(),
        };
        Core { package_id, unit, package, core }
    }

    /// The package's two raw deltas for one pair of fresh register values.
    pub fn elapsed(&self, r: &MsrReading) -> (e: MsrEnergy)
        requires
            self.wf(),
        ensures
            e.package_energy_uj == spec_diff(self@.package_prev, r.package_energy, self@.max),
            e.core_energy_uj == spec_diff(self@.core_prev, r.core_energy, self@.max),
    {
        MsrEnergy {
            package_energy_uj: self.package.diff(r.package_energy),
            core_energy_uj: self.core.diff(r.core_energy),
        }
    }

    /// As `elapsed`, and additionally commits the fresh values.
    pub fn elapsed_mut(&mut self, r: &MsrReading) -> (e: MsrEnergy)
        requires
            old(self).wf(),
            r.package_energy < old(self)@.max,
            r.core_energy < old(self)@.max,
        ensures
            e.package_energy_uj == spec_diff(
                old(self)@.package_prev,
                r.package_energy,
                old(self)@.max,
            ),
            e.core_energy_uj == spec_diff(old(self)@.core_prev, r.core_energy, old(self)@.max),
            final(self)@ == spec_core_reset(old(self)@, *r),
            final(self).wf(),
    {
        MsrEnergy {
            package_energy_uj: self.package.update(r.package_energy),
            core_energy_uj: self.core.update(r.core_energy),
        }
    }

    /// Commits fresh register values as the new baseline without reporting.
    pub fn reset(&mut self, r: &MsrReading)
        requires
            old(self).wf(),
            r.package_energy < old(self)@.max,
            r.core_energy < old(self)@.max,
        ensures
            final(self)@ == spec_core_reset(old(self)@, *r),
            final(self).wf(),
    {
        let _ = self.package.update(r.package_energy);
        let _ = self.core.update(r.core_energy);
    }

    /// The labels of this package's two entries, in report order.
    pub fn headers(&self) -> (hs: Vec<String>)
        ensures
            hs@.len() == 2,
            hs@[0]@ == spec_package_label(self@.package_id),
            hs@[1]@ == spec_core_label(self@.package_id),
    {
        let mut hs: Vec<String> = Vec::new();
        hs.push(package_label(self.package_id));
        hs.push(core_label(self.package_id));
        hs
    }

    /// Inserts this package's two entries into a report.
    pub fn append_elapsed(&self, r: &MsrReading, m: &mut EnergyMap)
        requires
            self.wf(),
            old(m).wf(),
        ensures
            final(m)@ == spec_insert_all(old(m)@, spec_core_entries(self@, *r)),
            final(m).wf(),
    {
        let ghost entries = spec_core_entries(self@, *r);
        let d0 = self.package.diff(r.package_energy);
        m.insert(package_label(self.package_id), d0);
        proof {
            lemma_insert_all_push(old(m)@, Seq::empty(), entries[0]);
            assert(Seq::<(Seq<char>, u64)>::empty().push(entries[0]) =~= entries.take(1));
        }
        let d1 = self.core.diff(r.core_energy);
        m.insert(core_label(self.package_id), d1);
        proof {
            lemma_insert_all_push(old(m)@, entries.take(1), entries[1]);
            assert(entries.take(1).push(entries[1]) =~= entries);
        }
    }
}

impl Msr {
    /// Every reader's accumulators hold readings below their modulus.
    pub closed spec fn wf(self) -> bool {
        forall|i: int| 0 <= i < self.cores@.len() ==> (#[trigger] self.cores@[i]).wf()
    }

    /// Discovers the register readers from one snapshot per package index
    /// (`None` where the device could not be opened). Package 0 is
    /// mandatory: its absence fails the whole driver; the scan stops at the
    /// first gap.
    pub fn now(snaps: Vec<Option<CoreSnapshot>>) -> (r: Option<Msr>)
        requires
            snaps@.len() <= 255,
            forall|i: int|
                0 <= i < snaps@.len() ==> (#[trigger] snaps@[i] matches Some(s) ==> core_snap_wf(
                    s,
                )),
        ensures
            r is Some <==> (snaps@.len() > 0 && snaps@[0] is Some),
            r matches Some(m) ==> (m@.cores == Seq::new(
                spec_prefix(snaps@).len(),
                |i: int| spec_core_now(i as u8, spec_prefix(snaps@)[i]),
            ) && m.wf()),
    {
        let ghost orig = snaps@;
        let present = take_prefix(snaps);
        proof {
            lemma_prefix_char(orig, present@);
        }
        if present.len() == 0 {
            return None;
        }
        let mut cores: Vec<Core> = Vec::new();
        let n = present.len();
        let mut i: usize = 0;
        while i < n
            invariant
                n == present@.len() <= 255,
                forall|j: int|
                    0 <= j < n ==> orig[j] == Some(#[trigger] present@[j]) && core_snap_wf(
                        present@[j],
                    ),
                orig.len() <= 255,
                forall|j: int|
                    0 <= j < orig.len() ==> (#[trigger] orig[j] matches Some(s) ==> core_snap_wf(
                        s,
                    )),
                0 <= i <= n,
                cores@.len() == i,
                forall|j: int|
                    0 <= j < i ==> (#[trigger] cores@[j])@ == spec_core_now(j as u8, present@[j]),
                forall|j: int| 0 <= j < i ==> (#[trigger] cores@[j]).wf(),
            decreases n - i,
        {
            let c = Core::now(i as u8, &present[i]);
            cores.push(c);
            i = i + 1;
        }
        let m = Msr { cores };
        proof {
            assert(spec_prefix(orig) == present@);
            assert(m@.cores =~= Seq::new(
                spec_prefix(orig).len(),
                |j: int| spec_core_now(j as u8, spec_prefix(orig)[j]),
            ));
        }
        Some(m)
    }

    /// The raw deltas of every package for one sampling call, in package
    /// order.
    #[verifier::loop_isolation(false)]
    pub fn energy(&self, rs: &Vec<MsrReading>) -> (es: Vec<MsrEnergy>)
        requires
            self.wf(),
            rs@.len() == self@.cores.len(),
        ensures
            es@.len() == self@.cores.len(),
            forall|i: int|
                0 <= i < self@.cores.len() ==> (#[trigger] es@[i]).package_energy_uj == spec_diff(
                    self@.cores[i].package_prev,
                    rs@[i].package_energy,
                    self@.cores[i].max,
                ) && es@[i].core_energy_uj == spec_diff(
                    self@.cores[i].core_prev,
                    rs@[i].core_energy,
                    self@.cores[i].max,
                ),
    {
        let mut es: Vec<MsrEnergy> = Vec::new();
        let n = self.cores.len();
        let mut i: usize = 0;
        while i < n
            invariant
                0 <= i <= n,
                es@.len() == i,
                forall|j: int|
                    0 <= j < i ==> (#[trigger] es@[j]).package_energy_uj == spec_diff(
                        self@.cores[j].package_prev,
                        rs@[j].package_energy,
                        self@.cores[j].max,
                    ) && es@[j].core_energy_uj == spec_diff(
                        self@.cores[j].core_prev,
                        rs@[j].core_energy,
                        self@.cores[j].max,
                    ),
            decreases n - i,
        {
            proof {
                assert(self@.cores[i as int] == self.cores@[i as int]@);
            }
            let e = self.cores[i].elapsed(&rs[i]);
            es.push(e);
            i = i + 1;
        }
        es
    }

    /// The merged report of one sampling call: per package, the package
    /// register's labelled delta then the core register's, values in raw
    /// register units (each reader's decoded unit gives the scale).
    #[verifier::loop_isolation(false)]
    pub fn elapsed(&self, rs: &Vec<MsrReading>) -> (m: EnergyMap)
        requires
            self.wf(),
            rs@.len() == self@.cores.len(),
        ensures
            m@ == spec_insert_all(Seq::empty(), spec_msr_entries(self@.cores, rs@)),
            m.wf(),
    {
        let mut m = EnergyMap::new();
        let n = self.cores.len();
        let mut i: usize = 0;
        while i < n
            invariant
                0 <= i <= n,
                m@ == spec_insert_all(
                    Seq::empty(),
                    spec_msr_entries(self@.cores.take(i as int), rs@.take(i as int)),
                ),
                m.wf(),
            decreases n - i,
        {
            proof {
                assert(self@.cores[i as int] == self.cores@[i as int]@);
            }
            self.cores[i].append_elapsed(&rs[i], &mut m);
            proof {
                lemma_msr_entries_snoc(self@.cores, rs@, i as int);
                crate::energy_map::lemma_insert_all_concat(
                    Seq::empty(),
                    spec_msr_entries(self@.cores.take(i as int), rs@.take(i as int)),
                    spec_core_entries(self@.cores[i as int], rs@[i as int]),
                );
            }
            i = i + 1;
        }
        proof {
            assert(self@.cores.take(n as int) =~= self@.cores);
            assert(rs@.take(n as int) =~= rs@);
        }
        m
    }

    /// Commits fresh register values at every reader without reporting.
    #[verifier::loop_isolation(false)]
    pub fn reset(&mut self, rs: &Vec<MsrReading>)
        requires
            old(self).wf(),
            rs@.len() == old(self)@.cores.len(),
            msr_reading_in_range(old(self)@, rs@),
        ensures
            final(self)@ == spec_msr_reset(old(self)@, rs@),
            final(self).wf(),
    {
        let n = self.cores.len();
        let mut i: usize = 0;
        while i < n
            invariant
                0 <= i <= n,
                n == self.cores@.len(),
                forall|j: int|
                    0 <= j < i ==> (#[trigger] self.cores@[j])@ == spec_core_reset(
                        old(self)@.cores[j],
                        rs@[j],
                    ) && self.cores@[j].wf(),
                forall|j: int| i <= j < n ==> #[trigger] self.cores@[j] == old(self).cores@[j],
            decreases n - i,
        {
            proof {
                assert(self.cores@[i as int] == old(self).cores@[i as int]);
                assert(old(self)@.cores[i as int] == old(self).cores@[i as int]@);
            }
            self.cores[i].reset(&rs[i]);
            i = i + 1;
        }
        proof {
            assert(final(self)@.cores =~= Seq::new(
                old(self)@.cores.len(),
                |j: int| spec_core_reset(old(self)@.cores[j], rs@[j]),
            ));
        }
    }

    /// The labels of every entry the driver reports, in report order.
    #[verifier::loop_isolation(false)]
    pub fn headers(&self) -> (hs: Vec<String>)
        ensures
            hs@.len() == 2 * self@.cores.len(),
            forall|i: int|
                0 <= i < self@.cores.len() ==> (#[trigger] hs@[2 * i])@ == spec_package_label(
                    self@.cores[i].package_id,
                ) && hs@[2 * i + 1]@ == spec_core_label(self@.cores[i].package_id),
    {
        let mut hs: Vec<String> = Vec::new();
        let n = self.cores.len();
        let mut i: usize = 0;
        while i < n
            invariant
                0 <= i <= n,
                hs@.len() == 2 * i,
                forall|j: int|
                    0 <= j < i ==> (#[trigger] hs@[2 * j])@ == spec_package_label(
                        self@.cores[j].package_id,
                    ) && hs@[2 * j + 1]@ == spec_core_label(self@.cores[j].package_id),
            decreases n - i,
        {
            proof {
                assert(self@.cores[i as int] == self.cores@[i as int]@);
            }
            let ghost before = hs@;
            hs.push(package_label(self.cores[i].package_id));
            hs.push(core_label(self.cores[i].package_id));
            proof {
                
                assert(hs@[2 * i as int + 1] == hs@[before.len() as int + 1]);
                assert forall|j: int|
                    0 <= j < i implies (#[trigger] hs@[2 * j])@ == spec_package_label(
                    self@.cores[j].package_id,
                ) && hs@[2 * j + 1]@ == spec_core_label(self@.cores[j].package_id) by {
                    assert(hs@[2 * j] == before[2 * j]);
                    assert(hs@[2 * j + 1] == before[2 * j + 1]);
                }
            }
            i = i + 1;
        }
        hs
    }
}

/// One more package extends the entry concatenation at its end.
proof fn lemma_msr_entries_snoc(cs: Seq<CoreView>, rs: Seq<MsrReading>, i: int)
    requires
        0 <= i < cs.len(),
        i < rs.len(),
    ensures
        spec_msr_entries(cs.take(i + 1), rs.take(i + 1)) == spec_msr_entries(
            cs.take(i),
            rs.take(i),
        ) + spec_core_entries(cs[i], rs[i]),
    decreases i,
{
    if i == 0 {
        assert(cs.take(1)[0] == cs[0]);
        assert(rs.take(1)[0] == rs[0]);
        assert(cs.take(1).drop_first() =~= cs.take(0));
        assert(rs.take(1).drop_first() =~= rs.take(0));
        assert(cs.take(0).len() == 0);
        assert(spec_core_entries(cs[0], rs[0]) + Seq::<(Seq<char>, u64)>::empty()
            =~= spec_core_entries(cs[0], rs[0]));
        assert(Seq::<(Seq<char>, u64)>::empty() + spec_core_entries(cs[0], rs[0])
            =~= spec_core_entries(cs[0], rs[0]));
    } else {
        lemma_msr_entries_snoc(cs.drop_first(), rs.drop_first(), i - 1);
        assert(cs.take(i + 1)[0] == cs[0]);
        assert(rs.take(i + 1)[0] == rs[0]);
        assert(cs.take(i + 1).drop_first() =~= cs.drop_first().take(i));
        assert(rs.take(i + 1).drop_first() =~= rs.drop_first().take(i));
        assert(cs.take(i)[0] == cs[0]);
        assert(rs.take(i)[0] == rs[0]);
        assert(cs.take(i).drop_first() =~= cs.drop_first().take(i - 1));
        assert(rs.take(i).drop_first() =~= rs.drop_first().take(i - 1));
        assert(cs.drop_first()[i - 1] == cs[i]);
        assert(rs.drop_first()[i - 1] == rs[i]);
        let head = spec_core_entries(cs[0], rs[0]);
        let mid = spec_msr_entries(cs.drop_first().take(i - 1), rs.drop_first().take(i - 1));
        let tail = spec_core_entries(cs[i], rs[i]);
        assert(spec_msr_entries(cs.take(i + 1), rs.take(i + 1)) == head + (mid + tail));
        assert(spec_msr_entries(cs.take(i), rs.take(i)) == head + mid);
        assert(head + (mid + tail) =~= (head + mid) + tail);
    }
}

} // verus!

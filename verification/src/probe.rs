//! The uniform probe capability over the closed set of counter drivers: any
//! probe can report the energy elapsed since its baseline and commit a fresh
//! baseline. A probe collection is an ordered list of probes whose reports
//! merge into one flat ordered report; on a shared label the later probe's
//! value wins.

use vstd::prelude::*;
use crate::energy_map::{EnergyMap, Entries, spec_insert_all, spec_merge, merge};
use crate::msr::{Msr, MsrView, MsrReading, spec_msr_entries, spec_msr_reset, msr_reading_in_range};
use crate::rapl::{
    Rapl, RaplView, PackageReading, spec_rapl_entries, rapl_reading_matches, rapl_reading_in_range,
    spec_rapl_reset,
};

verus! {

/// One counter source, as a tagged variant over the driver kinds.
pub enum Probe {
    Msr(Msr),
    Rapl(Rapl),
}

/// The mathematical content of a probe.
pub enum ProbeView {
    Msr(MsrView),
    Rapl(RaplView),
}

/// The fresh counter values a probe needs for one sampling call, shaped like
/// the probe that consumes them.
pub enum ProbeReading {
    Msr(Vec<MsrReading>),
    Rapl(Vec<PackageReading>),
}

impl View for Probe {
    type V = ProbeView;

    closed spec fn view(&self) -> ProbeView {
        match self {
            Probe::Msr(m) => ProbeView::Msr(m@),
            Probe::Rapl(r) => ProbeView::Rapl(r@),
        }
    }
}

/// A reading fits a probe when it is of the probe's kind and carries one
/// fresh value per node.
pub open spec fn probe_reading_matches(p: Probe, r: ProbeReading) -> bool {
    match (p, r) {
        (Probe::Msr(m), ProbeReading::Msr(rs)) => rs@.len() == m@.cores.len(),
        (Probe::Rapl(x), ProbeReading::Rapl(rs)) => rapl_reading_matches(x@, rs@),
        _ => false,
    }
}

/// Every fresh value sits below its counter's wrap-around modulus.
pub open spec fn probe_reading_in_range(p: Probe, r: ProbeReading) -> bool {
    match (p, r) {
        (Probe::Msr(m), ProbeReading::Msr(rs)) => msr_reading_in_range(m@, rs@),
        (Probe::Rapl(x), ProbeReading::Rapl(rs)) => rapl_reading_in_range(x@, rs@),
        _ => false,
    }
}

/// The probe committed to a fresh reading.
pub open spec fn spec_probe_reset(p: Probe, r: ProbeReading) -> ProbeView {
    match (p, r) {
        (Probe::Msr(m), ProbeReading::Msr(rs)) => ProbeView::Msr(spec_msr_reset(m@, rs@)),
        (Probe::Rapl(x), ProbeReading::Rapl(rs)) => ProbeView::Rapl(spec_rapl_reset(x@, rs@)),
        (p2, _) => p2@,
    }
}

/// The labelled deltas one probe contributes for one reading.
pub open spec fn spec_probe_entries(p: Probe, r: ProbeReading) -> Entries {
    match (p, r) {
        (Probe::Msr(m), ProbeReading::Msr(rs)) => spec_msr_entries(m@.cores, rs@),
        (Probe::Rapl(x), ProbeReading::Rapl(rs)) => spec_rapl_entries(x@.packages, rs@),
        _ => Seq::empty(),
    }
}

impl Probe {
    /// Every accumulator under the probe holds a reading below its modulus.
    pub open spec fn wf(self) -> bool {
        match self {
            Probe::Msr(m) => m.wf(),
            Probe::Rapl(r) => r.wf(),
        }
    }

    /// The probe's energy report for one reading, in the probe's own node
    /// order.
    pub fn elapsed(&self, r: &ProbeReading) -> (m: EnergyMap)
        requires
            self.wf(),
            probe_reading_matches(*self, *r),
        ensures
            m@ == spec_insert_all(Seq::empty(), spec_probe_entries(*self, *r)),
            m.wf(),
    {
        match (self, r) {
            (Probe::Msr(d), ProbeReading::Msr(rs)) => d.elapsed(rs),
            (Probe::Rapl(d), ProbeReading::Rapl(rs)) => d.elapsed(rs),
            _ => unreached(),
        }
    }

    /// Commits a fresh reading at every node of the probe.
    pub fn reset(&mut self, r: &ProbeReading)
        requires
            old(self).wf(),
            probe_reading_matches(*old(self), *r),
            probe_reading_in_range(*old(self), *r),
        ensures
            final(self).wf(),
            final(self)@ == spec_probe_reset(*old(self), *r),
    {
        match (self, r) {
            (Probe::Msr(d), ProbeReading::Msr(rs)) => d.reset(rs),
            (Probe::Rapl(d), ProbeReading::Rapl(rs)) => d.reset(rs),
            _ => unreached(),
        }
    }
}

/// The reports a probe collection's members produce, one per probe in
/// collection order.
pub open spec fn spec_member_reports(probes: Seq<Probe>, rs: Seq<ProbeReading>) -> Seq<Entries> {
    Seq::new(probes.len(), |i: int| spec_insert_all(Seq::empty(), spec_probe_entries(probes[i], rs[i])))
}

/// The merged report of an ordered probe collection: each member's report is
/// folded in, in collection order, so on a shared label the later probe's
/// value wins while the label keeps its first position.
#[verifier::loop_isolation(false)]
pub fn collection_elapsed(probes: &Vec<Probe>, rs: &Vec<ProbeReading>) -> (m: EnergyMap)
    requires
        rs@.len() == probes@.len(),
        forall|i: int| 0 <= i < probes@.len() ==> (#[trigger] probes@[i]).wf(),
        forall|i: int|
            0 <= i < probes@.len() ==> probe_reading_matches(#[trigger] probes@[i], rs@[i]),
    ensures
        m@ == spec_merge(spec_member_reports(probes@, rs@)),
        m.wf(),
{
    let mut maps: Vec<EnergyMap> = Vec::new();
    let n = probes.len();
    let mut i: usize = 0;
    while i < n
        invariant
            0 <= i <= n,
            maps@.len() == i,
            forall|j: int|
                0 <= j < i ==> (#[trigger] maps@[j])@ == spec_insert_all(
                    Seq::empty(),
                    spec_probe_entries(probes@[j], rs@[j]),
                ),
        decreases n - i,
    {
        let m = probes[i].elapsed(&rs[i]);
        maps.push(m);
        i = i + 1;
    }
    let m = merge(&maps);
    proof {
        assert(maps@.map_values(|x: EnergyMap| x@) =~= spec_member_reports(probes@, rs@));
    }
    m
}

/// Commits a fresh reading in every member of a probe collection.
#[verifier::loop_isolation(false)]
pub fn collection_reset(probes: &mut Vec<Probe>, rs: &Vec<ProbeReading>)
    requires
        rs@.len() == old(probes)@.len(),
        forall|i: int| 0 <= i < old(probes)@.len() ==> (#[trigger] old(probes)@[i]).wf(),
        forall|i: int|
            0 <= i < old(probes)@.len() ==> probe_reading_matches(
                #[trigger] old(probes)@[i],
                rs@[i],
            ),
        forall|i: int|
            0 <= i < old(probes)@.len() ==> probe_reading_in_range(
                #[trigger] old(probes)@[i],
                rs@[i],
            ),
    ensures
        final(probes)@.len() == old(probes)@.len(),
        forall|i: int| 0 <= i < final(probes)@.len() ==> (#[trigger] final(probes)@[i]).wf(),
        forall|i: int|
            0 <= i < final(probes)@.len() ==> (#[trigger] final(probes)@[i])@ == spec_probe_reset(
                old(probes)@[i],
                rs@[i],
            ),
{
    let n = probes.len();
    let mut i: usize = 0;
    while i < n
        invariant
            0 <= i <= n,
            probes@.len() == n,
            forall|j: int| 0 <= j < i ==> (#[trigger] probes@[j]).wf(),
            forall|j: int|
                0 <= j < i ==> (#[trigger] probes@[j])@ == spec_probe_reset(
                    old(probes)@[j],
                    rs@[j],
                ),
            forall|j: int| i <= j < n ==> #[trigger] probes@[j] == old(probes)@[j],
        decreases n - i,
    {
        probes[i].reset(&rs[i]);
        i = i + 1;
    }
}

} // verus!

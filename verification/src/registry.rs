//! The native-interop boundary's state: probes created for external callers
//! live in a registry of slots, addressed by opaque integer handles with
//! paired create/destroy operations, and a report is flattened into parallel
//! key and value arrays of one length. The thin foreign-function shims around
//! the library hold only pointer plumbing; every lifecycle decision is here.

use vstd::prelude::*;
use crate::energy_map::EnergyMap;
use crate::probe::{Probe, ProbeReading, probe_reading_matches, spec_probe_entries};
use crate::energy_map::spec_insert_all;

verus! {

/// A report flattened for a native caller: parallel key and value arrays and
/// their common length, to be freed together and exactly once.
pub struct RaplElapsed {
    pub keys: Vec<String>,
    pub values: Vec<u64>,
    pub len: usize,
}

impl RaplElapsed {
    /// Flattens a report: the key and value arrays carry the report's
    /// entries in order, and the stated length equals both arrays' lengths.
    #[verifier::loop_isolation(false)]
    pub fn from(m: &EnergyMap) -> (r: RaplElapsed)
        ensures
            r.keys@.len() == m@.len(),
            r.values@.len() == m@.len(),
            r.len == m@.len(),
            forall|i: int| 0 <= i < m@.len() ==> ((#[trigger] r.keys@[i])@, r.values@[i]) == m@[i],
    {
        let len = m.len();
        let mut keys: Vec<String> = Vec::new();
        let mut values: Vec<u64> = Vec::new();
        let mut i: usize = 0;
        while i < len
            invariant
                0 <= i <= len,
                keys@.len() == i,
                values@.len() == i,
                forall|j: int| 0 <= j < i ==> ((#[trigger] keys@[j])@, values@[j]) == m@[j],
            decreases len - i,
        {
            let (k, v) = m.entry_at(i);
            keys.push(k);
            values.push(v);
            i = i + 1;
        }
        RaplElapsed { keys, values, len }
    }
}

/// What freeing a handle does to the slots: a handle below the slot count
/// empties its slot and reports whether it was still occupied; any other
/// handle changes nothing and reports failure.
pub open spec fn spec_free(s: Seq<Option<Probe>>, h: int) -> (Seq<Option<Probe>>, bool) {
    if 0 <= h < s.len() {
        (s.update(h, None), s[h] is Some)
    } else {
        (s, false)
    }
}

/// The registry of probes handed out to native callers: each `start`
/// allocates a slot and returns its index as the opaque handle; each slot is
/// freed at most once, and a freed or out-of-range handle is refused rather
/// than freed again.
pub struct Registry {
    slots: Vec<Option<Probe>>,
}

impl View for Registry {
    type V = Seq<Option<Probe>>;

    closed spec fn view(&self) -> Seq<Option<Probe>> {
        self.slots@
    }
}

impl Registry {
    /// Every probe still held in a slot is well-formed.
    pub open spec fn wf(self) -> bool {
        forall|i: int|
            0 <= i < self@.len() ==> (#[trigger] self@[i] matches Some(p) ==> p.wf())
    }

    pub fn new() -> (r: Registry)
        ensures
            r@ == Seq::<Option<Probe>>::empty(),
    {
        Registry { slots: Vec::new() }
    }

    /// Transfers a probe to the registry and returns its handle: a fresh
    /// slot, occupied by exactly this probe.
    pub fn start(&mut self, p: Probe) -> (h: usize)
        ensures
            final(self)@ == old(self)@.push(Some(p)),
            h == old(self)@.len(),
            final(self)@[h as int] == Some(p),
    {
        let h = self.slots.len();
        self.slots.push(Some(p));
        h
    }

    /// The probe a live handle addresses; nothing for a freed or
    /// out-of-range handle.
    pub fn get(&self, h: usize) -> (r: Option<&Probe>)
        ensures
            r is Some <==> (h < self@.len() && self@[h as int] is Some),
            r matches Some(p) ==> self@[h as int] == Some(*p),
    {
        if h < self.slots.len() {
            match &self.slots[h] {
                Some(p) => Some(p),
                None => None,
            }
        } else {
            None
        }
    }

    /// Samples the probe a live handle addresses, without touching its
    /// baseline; nothing for a freed or out-of-range handle.
    pub fn elapsed_at(&self, h: usize, r: &ProbeReading) -> (m: Option<EnergyMap>)
        requires
            self.wf(),
            (h < self@.len() && self@[h as int] is Some) ==> probe_reading_matches(
                self@[h as int]->0,
                *r,
            ),
        ensures
            m is Some <==> (h < self@.len() && self@[h as int] is Some),
            m matches Some(x) ==> (self@[h as int] matches Some(p) && x@ == spec_insert_all(
                Seq::empty(),
                spec_probe_entries(p, *r),
            ) && x.wf()),
    {
        match self.get(h) {
            Some(p) => Some(p.elapsed(r)),
            None => None,
        }
    }

    /// Ends a live handle's lifecycle in one step: takes its probe out of
    /// the registry (the handle is dead afterwards) and reports the energy
    /// elapsed since the probe's baseline. A freed or out-of-range handle
    /// yields nothing and changes nothing.
    pub fn stop(&mut self, h: usize, r: &ProbeReading) -> (m: Option<EnergyMap>)
        requires
            old(self).wf(),
            (h < old(self)@.len() && old(self)@[h as int] is Some) ==> probe_reading_matches(
                old(self)@[h as int]->0,
                *r,
            ),
        ensures
            m is Some <==> (h < old(self)@.len() && old(self)@[h as int] is Some),
            h < old(self)@.len() ==> final(self)@ == old(self)@.update(h as int, None),
            h >= old(self)@.len() ==> final(self)@ == old(self)@,
            m matches Some(x) ==> (old(self)@[h as int] matches Some(p) && x@ == spec_insert_all(
                Seq::empty(),
                spec_probe_entries(p, *r),
            ) && x.wf()),
            final(self).wf(),
    {
        if h >= self.slots.len() {
            return None;
        }
        let mut taken: Option<Probe> = None;
        core::mem::swap(&mut taken, &mut self.slots[h]);
        proof {
            assert(final(self)@ =~= old(self)@.update(h as int, None));
        }
        match taken {
            Some(p) => Some(p.elapsed(r)),
            None => None,
        }
    }

    pub fn len(&self) -> (n: usize)
        ensures
            n == self@.len(),
    {
        self.slots.len()
    }

    /// Frees a handle exactly once: the first `free` of a live handle
    /// empties its slot and succeeds; freeing the same handle again, or any
    /// handle that addresses no live probe, is refused and changes nothing.
    pub fn free(&mut self, h: usize) -> (ok: bool)
        ensures
            (final(self)@, ok) == spec_free(old(self)@, h as int),
    {
        if h < self.slots.len() {
            let mut taken: Option<Probe> = None;
            core::mem::swap(&mut taken, &mut self.slots[h]);
            proof {
                assert(final(self)@ =~= old(self)@.update(h as int, None));
            }
            taken.is_some()
        } else {
            false
        }
    }
}

/// The create/sample/free lifecycle never frees twice: after a probe is
/// started, its handle is occupied; the first free succeeds and empties the
/// slot; a second free of the same handle reports failure and leaves every
/// slot as it was.
pub proof fn lemma_free_exactly_once(s: Seq<Option<Probe>>, p: Probe)
    ensures
        ({
            let h = s.len() as int;
            let s1 = s.push(Some(p));
            let (s2, ok1) = spec_free(s1, h);
            let (s3, ok2) = spec_free(s2, h);
            &&& s1[h] is Some
            &&& ok1
            &&& s2[h] is None
            &&& !ok2
            &&& s3 == s2
        }),
{
    let h = s.len() as int;
    let s1 = s.push(Some(p));
    assert(s1[h] == Some(p));
    let s2 = spec_free(s1, h).0;
    assert(s2[h] is None);
}

} // verus!

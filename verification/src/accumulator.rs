//! A monotonically increasing hardware counter with a known wrap-around
//! modulus. Consumers diff successive raw readings; a reading below the
//! previous one is taken as exactly one wrap of the counter.

use vstd::prelude::*;

verus! {

/// The delta between two successive raw readings of a counter that wraps at
/// `max`: a plain difference when the counter advanced, and the distance
/// through one wrap when it went backwards.
pub open spec fn spec_diff(prev: u64, next: u64, max: u64) -> int {
    if next >= prev {
        next - prev
    } else {
        next + (max - prev)
    }
}

/// The last-observed raw reading of one energy counter, together with the
/// counter's hardware-defined wrap-around modulus.
pub struct Accumulator {
    value: u64,
    max: u64,
}

impl Accumulator {
    /// The stored reading is always strictly below the wrap-around modulus.
    pub open spec fn wf(self) -> bool {
        self.spec_value() < self.spec_max()
    }

    pub closed spec fn spec_value(self) -> u64 {
        self.value
    }

    pub closed spec fn spec_max(self) -> u64 {
        self.max
    }

    /// Starts an accumulator from an initial raw reading; a reading at or
    /// above the modulus is a corrupted source, not a counter.
    pub fn new(value: u64, max: u64) -> (r: Option<Accumulator>)
        ensures
            r is Some <==> value < max,
            r matches Some(a) ==> a.spec_value() == value && a.spec_max() == max && a.wf(),
    {
        if value < max {
            Some(Accumulator { value, max })
        } else {
            None
        }
    }

    /// The last-observed raw reading.
    pub fn value(&self) -> (v: u64)
        ensures
            v == self.spec_value(),
    {
        self.value
    }

    /// The counter's wrap-around modulus.
    pub fn max(&self) -> (m: u64)
        ensures
            m == self.spec_max(),
    {
        self.max
    }

    /// The energy consumed since the stored reading, assuming the counter
    /// wrapped at most once.
    pub fn diff(&self, next: u64) -> (d: u64)
        requires
            self.wf(),
        ensures
            d == spec_diff(self.spec_value(), next, self.spec_max()),
    {
        if next >= self.value {
            next - self.value
        } else {
            next + (self.max - self.value)
        }
    }

    /// As `diff`, and additionally commits `next` as the new stored reading.
    pub fn update(&mut self, next: u64) -> (d: u64)
        requires
            old(self).wf(),
            next < old(self).spec_max(),
        ensures
            d == spec_diff(old(self).spec_value(), next, old(self).spec_max()),
            final(self).spec_value() == next,
            final(self).spec_max() == old(self).spec_max(),
            final(self).wf(),
    {
        let d = self.diff(next);
        self.value = next;
        d
    }
}

/// For every `prev < max` and in-range reading `next`, the wrap-safe delta is
/// the plain difference when the counter advanced and `next + (max - prev)`
/// after a single wrap; either way it is non-negative and below the modulus.
pub proof fn lemma_diff_bounds(prev: u64, next: u64, max: u64)
    requires
        prev < max,
        next < max,
    ensures
        next >= prev ==> spec_diff(prev, next, max) == next - prev,
        next < prev ==> spec_diff(prev, next, max) == next + (max - prev),
        0 <= spec_diff(prev, next, max) < max,
{
}

} // verus!

//! Bit-exact decoding of the MSR power-unit register. The register packs
//! three scale exponents into fixed bit fields; each derived scale factor is
//! `0.5^exponent`. The exponents are pure functions of the register value;
//! turning them into floating-point factors is left to the caller.

use vstd::prelude::*;

verus! {

/// Power-unit register offset in the per-package register file.
pub const POWER_UNIT_OFFSET: u64 = 0xC001_0299;
/// Core accumulated-energy register offset.
pub const CORE_ENERGY_OFFSET: u64 = 0xC001_029A;
/// Package accumulated-energy register offset.
pub const PACKAGE_ENERGY_OFFSET: u64 = 0xC001_029B;

/// Bits 16..=19 of the power-unit register: the time-scale exponent.
pub const TIME_UNIT_MASK: u64 = 0b1111_0000_0000_0000_0000;
/// Bits 8..=12 of the power-unit register: the energy-scale exponent.
pub const ENERGY_UNIT_MASK: u64 = 0b0000_0001_1111_0000_0000;
/// Bits 0..=3 of the power-unit register: the power-scale exponent.
pub const POWER_UNIT_MASK: u64 = 0b0000_0000_0000_0000_1111;

pub open spec fn spec_time_exponent(units: u64) -> u64 {
    (units & TIME_UNIT_MASK) >> 16u64
}

pub open spec fn spec_energy_exponent(units: u64) -> u64 {
    (units & ENERGY_UNIT_MASK) >> 8u64
}

pub open spec fn spec_power_exponent(units: u64) -> u64 {
    units & POWER_UNIT_MASK
}

/// The three scale exponents decoded from one power-unit register read.
/// A field's scale factor is `0.5^exponent`.
#[derive(Clone, Copy, PartialEq, Eq, Structural, Debug)]
pub struct Unit {
    pub time: u64,
    pub energy: u64,
    pub power: u64,
}

impl Unit {
    /// Decodes the three fixed bit fields of a raw power-unit register value.
    pub fn new(units: u64) -> (r: Unit)
        ensures
            r.time == spec_time_exponent(units),
            r.energy == spec_energy_exponent(units),
            r.power == spec_power_exponent(units),
            r.time < 16 && r.energy < 32 && r.power < 16,
    {
        proof {
            lemma_exponent_bounds(units);
        }
        Unit {
            time: (units & TIME_UNIT_MASK) >> 16u64,
            energy: (units & ENERGY_UNIT_MASK) >> 8u64,
            power: units & POWER_UNIT_MASK,
        }
    }
}

/// Each decoded exponent fits its bit field.
pub proof fn lemma_exponent_bounds(units: u64)
    ensures
        spec_time_exponent(units) < 16,
        spec_energy_exponent(units) < 32,
        spec_power_exponent(units) < 16,
{
    assert((units & TIME_UNIT_MASK) >> 16u64 < 16) by (bit_vector);
    assert((units & ENERGY_UNIT_MASK) >> 8u64 < 32) by (bit_vector);
    assert(units & POWER_UNIT_MASK < 16) by (bit_vector);
}

/// The decoded scale factors depend on the three bit fields alone: two
/// register values that agree on each field decode to the same exponents,
/// whatever their other bits hold and in whatever order they are decoded.
pub proof fn lemma_decode_deterministic(a: u64, b: u64)
    requires
        a & TIME_UNIT_MASK == b & TIME_UNIT_MASK,
        a & ENERGY_UNIT_MASK == b & ENERGY_UNIT_MASK,
        a & POWER_UNIT_MASK == b & POWER_UNIT_MASK,
    ensures
        spec_time_exponent(a) == spec_time_exponent(b),
        spec_energy_exponent(a) == spec_energy_exponent(b),
        spec_power_exponent(a) == spec_power_exponent(b),
{
}

} // verus!

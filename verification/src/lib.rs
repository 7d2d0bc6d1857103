//! Energy-telemetry collection: wrap-safe accumulation of hardware energy
//! counters, bit-exact decoding of the MSR power-unit register, discovery of
//! the kernel power-capping tree, ordered energy reports, and a handle
//! registry that gives native callers an explicit create/sample/free
//! lifecycle.

pub mod accumulator;
pub mod constraint;
pub mod discovery;
pub mod energy_map;
pub mod msr;
pub mod paths;
pub mod probe;
pub mod rapl;
pub mod reader;
pub mod registry;
pub mod text;
pub mod unit;

pub use accumulator::Accumulator;
pub use energy_map::EnergyMap;
pub use msr::Msr;
pub use probe::Probe;
pub use rapl::Rapl;
pub use reader::{RaplReader, packages, elapsed, labels};
pub use registry::Registry;
pub use unit::Unit;

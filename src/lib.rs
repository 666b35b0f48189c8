//! Verified core of a driver for a per-core matrix coprocessor: instruction and
//! operand encoding, hardware-generation detection, the enable/disable lifecycle,
//! and the tile program of a single-precision matrix multiply.

pub mod encode;
pub mod detect;
pub mod kernel;
pub mod lifecycle;

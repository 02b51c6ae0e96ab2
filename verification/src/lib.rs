//! Grid bookkeeping, initial-condition validation and step scheduling for a
//! Schrödinger–Poisson (fuzzy dark matter) simulator.
//!
//! The numerical kernels work on floating-point fields on the GPU; this crate
//! holds the integer and combinatorial logic around them, with contracts.

pub mod grid;
pub mod af;
pub mod ics;
pub mod io;
pub mod collections;
pub mod stepping;

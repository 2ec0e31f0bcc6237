//! Witness-table construction and field arithmetization helpers for an
//! EVM-trace proving circuit: field-element byte codecs, random linear
//! combinations, the binary-to-base-9 logic encoding, the sponge absorb
//! step, and the five witness tables with their ordering invariants.
use vstd::prelude::*;

pub mod absorb;
pub mod circuit;
pub mod codec;
pub mod field;
pub mod fixed;
pub mod rlc;
pub mod tables;

verus! {

} // verus!

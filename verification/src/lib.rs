//! Reduction of a Short Integer Solution (SIS) instance into a chain of
//! principal-relation folding rounds, together with a multi-round prover
//! and the matching verifier.

pub mod ring;
pub mod relation;
pub mod sis_relation;
pub mod transcript;
pub mod reducer;
pub mod prover;
pub mod verification;

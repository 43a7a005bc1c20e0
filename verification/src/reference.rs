//! Reference implementations of the interfaces that the argument is built
//! on.
//!
//! They are transparent: a commitment is the polynomial it commits to, an
//! opening is checked by evaluating the commitment, the proof of the
//! sumcheck holds the polynomials it speaks of, and the verifier of memory
//! checking recomputes the grand products from the commitments. Nothing is
//! hidden and nothing is succinct. They show what
//! the interfaces ask for, and with them the argument is complete without
//! any assumption.

pub mod commitment;
pub mod completeness;
pub mod memory_checking;
pub mod sumcheck;
pub mod transcript;

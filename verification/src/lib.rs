//! Surge: a lookup argument that proves a batch of table lookups against
//! fixed, decomposable tables.
//!
//! A lookup decomposes into one address for each of `C` dimensions; each
//! address is read in subtables of `M` entries. A prover builds a witness of
//! the addresses read, the counters found and the values observed
//! ([`witness`]), commits to it, proves by a sumcheck that the values
//! collate to the claimed outputs ([`sumcheck`]) and proves by offline
//! memory checking that the values were read from the subtables
//! ([`leaves`], [`openings`]). [`protocol`] puts the steps in order for
//! prover and verifier.
//!
//! The field, the instruction family, the transcript, the commitment scheme
//! and the two subprotocols are interfaces ([`field`], [`instruction`],
//! [`transcript`], [`commitment`], [`subprotocols`]). The crate brings one
//! implementation of each: a field of 61 bits ([`field::Fp`]), the
//! exclusive-or instruction ([`xor`]), and transparent implementations of
//! the others ([`reference`]).
//!
//! What the argument rests on is proved: the timestamps and the multiset
//! identity of a witness ([`witness`], [`leaves`]), the algebra of
//! fingerprints ([`fingerprint`]), the pairing of dimensions and subtables
//! ([`memory`]), that the tuples a verifier rebuilds open the leaves a
//! prover computes ([`reconstruction`], and [`xor_mle`] for the subtable
//! of the exclusive-or), and that a verifier accepts what a prover builds:
//! where the subprotocols are complete ([`protocol`]), and so with the
//! implementations of this crate ([`reference::completeness`]).

pub mod commitment;
pub mod eq_poly;
pub mod errors;
pub mod field;
pub mod fingerprint;
pub mod instruction;
pub mod leaves;
pub mod math;
pub mod memory;
pub mod mle;
pub mod openings;
mod parallel;
pub mod poly;
pub mod preprocessing;
pub mod protocol;
pub mod reconstruction;
pub mod reference;
pub mod stuff;
pub mod subprotocols;
pub mod sumcheck;
pub mod transcript;
pub mod witness;
pub mod xor;
pub mod xor_mle;

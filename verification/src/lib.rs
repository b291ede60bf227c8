//! Threshold-signature certificate circuit: message and commitment
//! construction, the in-circuit threshold range check, and the prover and
//! verifier decision logic, stated and proved over plain values.
//!
//! A committee of key holders jointly authorizes a cross-chain certificate
//! by a single succinct proof that at least a threshold of them signed it,
//! without revealing who. The hashing, signing, and proof backends are
//! external primitives; everything this crate states about them is
//! parameterized over a hash model, a signature-verdict model, and the
//! field modulus, and everything it computes — bit packing, witness
//! derivation, shape checks, hash-input assembly — is verified.
//!
//! - [`bits`]: bit sequences, their two readings, and conversions.
//! - [`field`]: plain-value field elements and their byte codec.
//! - [`fees`]: the fee-packing wire format and its round trip.
//! - [`params`]: key material and the fixed filler constants.
//! - [`hashing`]: the hash compositions and what they bind.
//! - [`circuit`]: the circuit instance, its satisfiability semantics, and
//!   the threshold-enforcement theorems.
//! - [`protocol`]: the prover-side decision logic around the circuit.

pub mod bits;
pub mod circuit;
pub mod fees;
pub mod field;
pub mod hashing;
pub mod params;
pub mod protocol;

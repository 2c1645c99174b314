//! Compiles an `N x N` matrix relation into a rank-1 constraint system
//! (R1CS) over a prime field, together with the witness generation and
//! capacity sizing that a universal-setup proof backend needs.
//!
//! The relation enforced is the row/row contraction
//! `C[i][j] = sum_k A[i][k] * B[j][k]` — the dot product of row `i` of `A`
//! with row `j` of `B`, not the conventional matrix product. This definition
//! is deliberate and is preserved exactly throughout the crate.
//!
//! Matrix entries are modelled as bounded machine integers standing for
//! field elements: with every entry at most [`ENTRY_BOUND`] in magnitude and
//! `n` at most [`MAX_N`], every product and sum the circuit computes stays
//! far below the modulus of any field of cryptographic size, so integer
//! semantics and field semantics agree exactly. The mapping into concrete
//! field elements (and the calls into the proof backend) happen outside the
//! library, on plain values that this crate has already pinned down.

use vstd::prelude::*;

pub mod capacity;
pub mod circuit;
pub mod cli;
pub mod errors;
pub mod indexing;
pub mod laws;
pub mod r1cs;
pub mod witness;

verus! {

/// Largest side length the library accepts: keeps every derived count
/// (`4 * n^3 + 2 * n^2` at most) within `usize` on any supported target.
pub const MAX_N: usize = 512;

/// Largest magnitude of an assigned matrix entry: keeps every product and
/// running sum the circuit computes within `i64`, and far below the field
/// modulus, so the integer model is exact.
pub const ENTRY_BOUND: i64 = 1048576;

} // verus!

//! The failure taxonomy of the pipeline, and the distinct exit code each
//! failure maps to. A rejected proof (`VerifyRejected`) is a legitimate
//! terminal outcome, reported distinctly from the error stages.

use vstd::prelude::*;

verus! {

/// Everything that can go wrong between reading the arguments and the
/// verifier's answer. Each variant is returned to the caller as a value;
/// only the outermost driver ever terminates the process.
#[derive(Clone, Copy, PartialEq, Eq, Structural, Debug)]
pub enum Failure {
    /// The command line did not hold one positive integer within range.
    BadArguments,
    /// A matrix had the wrong number of entries, or the side length was zero.
    DimensionMismatch,
    /// An assignment-requiring synthesis pass met an unassigned entry.
    MissingWitness,
    /// The backend's universal setup failed for the requested bounds.
    SetupFailure,
    /// The backend could not index the shape-only circuit.
    IndexFailure,
    /// The backend could not produce a proof from the witness circuit.
    ProveFailure,
    /// The verifier answered `false`: a rejected proof, not an error.
    VerifyRejected,
}

/// The process exit code for each failure, distinct and non-zero;
/// success is reported as zero by the driver itself.
pub open spec fn exit_code_spec(f: Failure) -> int {
    match f {
        Failure::BadArguments => 2,
        Failure::DimensionMismatch => 3,
        Failure::MissingWitness => 4,
        Failure::SetupFailure => 5,
        Failure::IndexFailure => 6,
        Failure::ProveFailure => 7,
        Failure::VerifyRejected => 8,
    }
}

/// Maps a failure to its process exit code.
pub fn exit_code(f: Failure) -> (code: u8)
    ensures
        code == exit_code_spec(f),
        code != 0,
{
    match f {
        Failure::BadArguments => 2,
        Failure::DimensionMismatch => 3,
        Failure::MissingWitness => 4,
        Failure::SetupFailure => 5,
        Failure::IndexFailure => 6,
        Failure::ProveFailure => 7,
        Failure::VerifyRejected => 8,
    }
}

/// Distinct failures carry distinct exit codes, so an observer of the exit
/// status can tell every failure kind apart.
pub proof fn lemma_exit_codes_distinct(f1: Failure, f2: Failure)
    ensures
        exit_code_spec(f1) == exit_code_spec(f2) ==> f1 == f2,
{
}

} // verus!

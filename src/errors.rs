//! The errors of proving, verifying and aggregating.
use vstd::prelude::*;

verus! {

/// Why creating, parsing or verifying a range proof failed.
#[derive(Clone, Debug, PartialEq, Eq)]
pub enum ProofError {
    /// The proof did not verify.
    VerificationError,
    /// The bytes do not parse into a proof.
    FormatError,
    /// The number of values differs from the number of blinding factors.
    WrongNumBlindingFactors,
    /// The bit size is not one of 8, 16, 32 or 64.
    InvalidBitsize,
    /// The generators are too few for the bit size or the number of parties.
    InvalidGeneratorsLength,
    /// The aggregation protocol failed.
    ProvingError(MPCError),
}

/// Why a step of the aggregation protocol failed.
#[derive(Clone, Debug, PartialEq, Eq)]
pub enum MPCError {
    /// The dealer sent the challenge `x = 0`, which would reveal a party's blinding factors.
    MaliciousDealer,
    /// The bit size is not one of 8, 16, 32 or 64.
    InvalidBitsize,
    /// The generators are too few for the bit size or the number of parties.
    InvalidGeneratorsLength,
    /// The dealer got a number of value commitments other than the number of parties.
    WrongNumValueCommitments,
    /// The dealer got a number of polynomial commitments other than the number of parties.
    WrongNumPolyCommitments,
    /// The dealer got a number of proof shares other than the number of parties.
    WrongNumProofShares,
    /// The number of parties is not a power of two.
    InvalidAggregation,
    /// These parties sent shares that do not check out.
    MalformedProofShares { bad_shares: Vec<usize> },
}

} // verus!

//! The messages that parties and dealer exchange while they aggregate a range proof.
use crate::point::CompressedPoint;
use crate::scalar::Scalar;
use vstd::prelude::*;

verus! {

/// A party's first message: commitments `V` to its value, `A` to the value's bits and `S` to
/// the blinding vectors.
#[derive(Clone, Copy, Debug)]
pub struct ValueCommitment {
    pub V: CompressedPoint,
    pub A: CompressedPoint,
    pub S: CompressedPoint,
}

/// The dealer's first challenge.
#[derive(Clone, Copy, Debug)]
pub struct ValueChallenge {
    pub y: Scalar,
    pub z: Scalar,
}

/// A party's second message: commitments to the coefficients `t_1`, `t_2` of `t(X)`.
#[derive(Clone, Copy, Debug)]
pub struct PolyCommitment {
    pub T_1: CompressedPoint,
    pub T_2: CompressedPoint,
}

/// The dealer's second challenge.
#[derive(Clone, Copy, Debug)]
pub struct PolyChallenge {
    pub x: Scalar,
}

/// A party's last message: its commitments, `t(x)` with its blinding, the blinding of `A + x S`
/// and the vectors `l(x)`, `r(x)`.
#[derive(Clone, Debug)]
pub struct ProofShare {
    pub value_commitment: ValueCommitment,
    pub poly_commitment: PolyCommitment,
    pub t_x: Scalar,
    pub t_x_blinding: Scalar,
    pub e_blinding: Scalar,
    pub l_vec: Vec<Scalar>,
    pub r_vec: Vec<Scalar>,
}

} // verus!

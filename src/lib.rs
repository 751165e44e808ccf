//! Aggregated range proofs over the Ristretto group.
//!
//! A prover shows that each of `m` values committed under Pedersen commitments lies in
//! `[0, 2^n)`, with one proof of `2 log2(n m) + 9` elements. The proof is assembled by a
//! dealer from the messages of `m` parties ([`party`], [`dealer`]), reduces to an
//! inner-product argument ([`inner_product_proof`]), and draws every challenge from a
//! Fiat-Shamir transcript ([`transcript`]). [`range_proof`] holds the entry points and the
//! wire format.
//!
//! Scalars are modelled as integers modulo the group order ([`scalar`]); group elements are
//! held in their compressed encoding ([`point`]).
#![allow(non_snake_case)]
pub mod scalar;
pub mod point;
pub mod transcript;
pub mod util;
pub mod generators;
pub mod errors;
pub mod inner_product_proof;
pub mod messages;
pub mod party;
pub mod range_proof;
pub mod dealer;

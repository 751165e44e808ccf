//! Group elements of the Ristretto group, held in their 32-byte compressed encoding.
use crate::scalar::{scalar_values, Scalar};
use curve25519_dalek::ristretto::{CompressedRistretto, RistrettoBasepointTable, RistrettoPoint};
use curve25519_dalek::scalar::Scalar as DalekScalar;
use subtle::ConditionallySelectable;
use curve25519_dalek::traits::{MultiscalarMul, VartimeMultiscalarMul};
use vstd::prelude::*;

verus! {

/// Whether 32 bytes are the compressed encoding of a group element.
pub uninterp spec fn decompresses(p: Seq<u8>) -> bool;

/// The encoding of the multiscalar product `sum_i scalars[i] * points[i]`.
pub uninterp spec fn msm_of(scalars: Seq<int>, points: Seq<Seq<u8>>) -> Seq<u8>;

/// The encoding of the multiscalar product `sum_i scalars[i] * points[i]`, computed in
/// variable time.
pub uninterp spec fn vartime_msm_of(scalars: Seq<int>, points: Seq<Seq<u8>>) -> Seq<u8>;

/// The encoding of `s P`, where `p` encodes `P`.
pub uninterp spec fn mul_of(p: Seq<u8>, s: int) -> Seq<u8>;

/// The encoding of `P + Q`, where `p` and `q` encode `P` and `Q`.
pub uninterp spec fn add_of(p: Seq<u8>, q: Seq<u8>) -> Seq<u8>;

/// The encoding of `P - Q`, where `p` and `q` encode `P` and `Q`.
pub uninterp spec fn sub_of(p: Seq<u8>, q: Seq<u8>) -> Seq<u8>;

/// The encoding of the group element that hashing `input` onto the group gives.
pub uninterp spec fn hash_to_point_of(input: Seq<u8>) -> Seq<u8>;

/// A group element in compressed form.
#[derive(Clone, Copy, Debug, PartialEq, Eq)]
pub struct CompressedPoint {
    pub bytes: [u8; 32],
}

impl View for CompressedPoint {
    type V = Seq<u8>;

    open spec fn view(&self) -> Seq<u8> {
        self.bytes@
    }
}

/// The encodings of a sequence of points.
pub open spec fn point_values(p: Seq<CompressedPoint>) -> Seq<Seq<u8>> {
    p.map_values(|x: CompressedPoint| x@)
}

/// The encoding of the identity element: 32 zero bytes.
pub open spec fn identity_encoding() -> Seq<u8> {
    Seq::new(32, |i: int| 0u8)
}

/// Whether every point of a sequence is the encoding of a group element.
pub open spec fn all_decompress(p: Seq<CompressedPoint>) -> bool {
    forall|i: int| 0 <= i < p.len() ==> decompresses(#[trigger] p[i]@)
}

/// `b` where `choice` is 1, `a` where it is 0, chosen in constant time; `None` where an
/// argument is not the encoding of a group element.
///
/// Relies on `CompressedRistretto::decompress`, on `ConditionallySelectable` for
/// `RistrettoPoint` with `subtle::Choice::from`, which takes 0 or 1, and on
/// `RistrettoPoint::compress`: decoding accepts only the canonical encoding of an element and
/// compressing gives that encoding back, so the result is the chosen argument's encoding.
#[verifier::external_body]
pub fn select_point(a: &CompressedPoint, b: &CompressedPoint, choice: u8) -> (r: Option<
    CompressedPoint,
>)
    requires
        choice <= 1,
    ensures
        r is Some <==> (decompresses(a@) && decompresses(b@)),
        r is Some ==> r->0@ == (if choice == 1 {
            b@
        } else {
            a@
        }),
{
    match (CompressedRistretto(a.bytes).decompress(), CompressedRistretto(b.bytes).decompress()) {
        (Some(p), Some(q)) => Some(CompressedPoint {
            bytes: RistrettoPoint::conditional_select(&p, &q, subtle::Choice::from(choice))
                .compress()
                .to_bytes(),
        }),
        _ => None,
    }
}

impl CompressedPoint {
    /// Whether these bytes are the encoding of a group element.
    ///
    /// Relies on `CompressedRistretto::decompress`, which returns `None` exactly where they are
    /// not.
    #[verifier::external_body]
    pub fn is_valid(&self) -> (r: bool)
        ensures
            r == decompresses(self@),
    {
        CompressedRistretto(self.bytes).decompress().is_some()
    }

    /// The identity element.
    ///
    /// Relies on `Identity` for `CompressedRistretto`: 32 zero bytes, the encoding of the
    /// identity element.
    #[verifier::external_body]
    pub fn identity() -> (r: CompressedPoint)
        ensures
            r@ == identity_encoding(),
            decompresses(r@),
    {
        CompressedPoint {
            bytes: <CompressedRistretto as curve25519_dalek::traits::Identity>::identity().to_bytes(),
        }
    }

    /// Whether this is the encoding of the identity element.
    pub fn is_identity(&self) -> (r: bool)
        ensures
            r == (self@ == identity_encoding()),
    {
        let mut i: usize = 0;
        while i < 32
            invariant
                0 <= i <= 32,
                forall|k: int| 0 <= k < i ==> self@[k] == 0u8,
            decreases 32 - i,
        {
            if self.bytes[i] != 0 {
                assert(self@[i as int] != identity_encoding()[i as int]);
                return false;
            }
            i = i + 1;
        }
        assert(self@ =~= identity_encoding());
        true
    }
}

/// The multiscalar product `sum_i scalars[i] * points[i]`; `None` where a point is not the
/// encoding of a group element.
///
/// Relies on `CompressedRistretto::decompress`, on the constant-time
/// `RistrettoPoint::multiscalar_mul`, which asks for as many scalars as points, and on
/// `RistrettoPoint::compress`, whose output always decompresses.
#[verifier::external_body]
pub fn multiscalar_mul(scalars: &[Scalar], points: &[CompressedPoint]) -> (r: Option<
    CompressedPoint,
>)
    requires
        scalars@.len() == points@.len(),
    ensures
        r is Some <==> all_decompress(points@),
        r is Some ==> r->0@ == msm_of(scalar_values(scalars@), point_values(points@)),
        r is Some ==> decompresses(r->0@),
{
    let ps: Option<Vec<RistrettoPoint>> =
        points.iter().map(|p| CompressedRistretto(p.bytes).decompress()).collect();
    let ss = scalars.iter().map(|s| DalekScalar::from_bytes_mod_order(s.bytes));
    ps.map(|ps| CompressedPoint {
        bytes: RistrettoPoint::multiscalar_mul(ss, ps.iter()).compress().to_bytes(),
    })
}

/// The multiscalar product `sum_i scalars[i] * points[i]` in variable time, for public
/// inputs; `None` where a point is not the encoding of a group element.
///
/// Relies on `CompressedRistretto::decompress`, on
/// `RistrettoPoint::optional_multiscalar_mul`, which asks for as many scalars as points and
/// returns `None` exactly where a point is `None`, and on `RistrettoPoint::compress`, whose
/// output always decompresses.
#[verifier::external_body]
pub fn vartime_multiscalar_mul(scalars: &[Scalar], points: &[CompressedPoint]) -> (r: Option<
    CompressedPoint,
>)
    requires
        scalars@.len() == points@.len(),
    ensures
        r is Some <==> all_decompress(points@),
        r is Some ==> r->0@ == vartime_msm_of(scalar_values(scalars@), point_values(points@)),
        r is Some ==> decompresses(r->0@),
{
    let ps = points.iter().map(|p| CompressedRistretto(p.bytes).decompress());
    let ss = scalars.iter().map(|s| DalekScalar::from_bytes_mod_order(s.bytes));
    RistrettoPoint::optional_multiscalar_mul(ss, ps).map(|p| CompressedPoint {
        bytes: p.compress().to_bytes(),
    })
}

/// The product `s P`, by way of a precomputed table of multiples of `P`; `None` where `p` is
/// not the encoding of a group element.
///
/// Relies on `CompressedRistretto::decompress`, on `RistrettoBasepointTable::create` and its
/// `Mul` by a scalar, which give `s P` for any point `P`, and on `RistrettoPoint::compress`.
#[verifier::external_body]
pub fn mul_point(p: &CompressedPoint, s: &Scalar) -> (r: Option<CompressedPoint>)
    ensures
        r is Some <==> decompresses(p@),
        r is Some ==> r->0@ == mul_of(p@, s@) && decompresses(r->0@),
{
    let k = DalekScalar::from_bytes_mod_order(s.bytes);
    CompressedRistretto(p.bytes).decompress().map(|q| CompressedPoint {
        bytes: (&k * &RistrettoBasepointTable::create(&q)).compress().to_bytes(),
    })
}

/// The sum `P + Q`; `None` where an argument is not the encoding of a group element.
///
/// Relies on `CompressedRistretto::decompress`, on `Add` for `RistrettoPoint`, and on
/// `RistrettoPoint::compress`.
#[verifier::external_body]
pub fn add_points(p: &CompressedPoint, q: &CompressedPoint) -> (r: Option<CompressedPoint>)
    ensures
        r is Some <==> (decompresses(p@) && decompresses(q@)),
        r is Some ==> r->0@ == add_of(p@, q@) && decompresses(r->0@),
{
    match (CompressedRistretto(p.bytes).decompress(), CompressedRistretto(q.bytes).decompress()) {
        (Some(a), Some(b)) => Some(CompressedPoint { bytes: (a + b).compress().to_bytes() }),
        _ => None,
    }
}

/// The difference `P - Q`; `None` where an argument is not the encoding of a group element.
///
/// Relies on `CompressedRistretto::decompress`, on `Sub` for `RistrettoPoint`, and on
/// `RistrettoPoint::compress`.
#[verifier::external_body]
pub fn sub_points(p: &CompressedPoint, q: &CompressedPoint) -> (r: Option<CompressedPoint>)
    ensures
        r is Some <==> (decompresses(p@) && decompresses(q@)),
        r is Some ==> r->0@ == sub_of(p@, q@) && decompresses(r->0@),
{
    match (CompressedRistretto(p.bytes).decompress(), CompressedRistretto(q.bytes).decompress()) {
        (Some(a), Some(b)) => Some(CompressedPoint { bytes: (a - b).compress().to_bytes() }),
        _ => None,
    }
}

/// Hashes bytes onto the group with SHA-512.
///
/// Relies on `RistrettoPoint::hash_from_bytes::<sha2::Sha512>`, a function of the input
/// alone, and on `RistrettoPoint::compress`, whose output always decompresses.
#[verifier::external_body]
pub fn hash_to_point(input: &[u8]) -> (r: CompressedPoint)
    ensures
        r@ == hash_to_point_of(input@),
        decompresses(r@),
{
    CompressedPoint {
        bytes: RistrettoPoint::hash_from_bytes::<sha2::Sha512>(input).compress().to_bytes(),
    }
}

/// The Ristretto base point.
///
/// Relies on `curve25519_dalek::constants::RISTRETTO_BASEPOINT_COMPRESSED`, the encoding of a
/// group element.
#[verifier::external_body]
pub fn basepoint() -> (r: CompressedPoint)
    ensures
        decompresses(r@),
{
    CompressedPoint { bytes: curve25519_dalek::constants::RISTRETTO_BASEPOINT_COMPRESSED.to_bytes() }
}

} // verus!

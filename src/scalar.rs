//! Scalars of the Ristretto group's prime-order field, modelled as integers modulo the group order.
use rand::rngs::StdRng;
use vstd::prelude::*;

verus! {

#[verifier::external_type_specification]
#[verifier::external_body]
pub struct ExStdRng(rand::rngs::StdRng);

/// The order of the Ristretto group: 2^252 + 27742317777372353535851937790883648493.
pub open spec fn group_order() -> int {
    7237005577332262213973186563042994240857116359379907606001950938285454250989int
}

/// The integer that a little-endian byte string denotes.
pub open spec fn le_value(b: Seq<u8>) -> nat
    decreases b.len(),
{
    if b.len() == 0 {
        0
    } else {
        b[0] as nat + 256 * le_value(b.subrange(1, b.len() as int))
    }
}

/// Field addition.
pub open spec fn fadd(a: int, b: int) -> int {
    (a + b) % group_order()
}

/// Field subtraction.
pub open spec fn fsub(a: int, b: int) -> int {
    (a - b) % group_order()
}

/// Field multiplication.
pub open spec fn fmul(a: int, b: int) -> int {
    (a * b) % group_order()
}

/// Field negation.
pub open spec fn fneg(a: int) -> int {
    (-a) % group_order()
}

/// `x` to the power `e` in the field.
pub open spec fn fpow(x: int, e: nat) -> int
    decreases e,
{
    if e == 0 {
        1
    } else {
        fmul(fpow(x, (e - 1) as nat), x)
    }
}

/// The field inverse, by Fermat: `x^(l - 2)`; zero for zero.
pub open spec fn finv(x: int) -> int {
    fpow(x, (group_order() - 2) as nat)
}

/// An element of the scalar field, held as 32 little-endian bytes.
#[derive(Clone, Copy, Debug)]
pub struct Scalar {
    pub(crate) bytes: [u8; 32],
}

impl View for Scalar {
    type V = int;

    /// The integer that the bytes denote; every scalar this library makes is below the
    /// group order.
    closed spec fn view(&self) -> int {
        le_value(self.bytes@) as int
    }
}

/// A uniformly random scalar.
///
/// Relies on `curve25519_dalek::scalar::Scalar::random`, which reduces 64 random bytes modulo
/// the group order.
#[verifier::external_body]
pub(crate) fn random_scalar(rng: &mut StdRng) -> (r: Scalar)
    ensures
        0 <= r@ < group_order(),
{
    Scalar { bytes: curve25519_dalek::scalar::Scalar::random(rng).to_bytes() }
}

impl PartialEq for Scalar {
    fn eq(&self, o: &Scalar) -> (r: bool) {
        self.equals(o)
    }
}

impl vstd::std_specs::cmp::PartialEqSpecImpl for Scalar {
    open spec fn obeys_eq_spec() -> bool {
        true
    }

    open spec fn eq_spec(&self, o: &Scalar) -> bool {
        self@ % group_order() == o@ % group_order()
    }
}

/// The values of a sequence of scalars.
pub open spec fn scalar_values(s: Seq<Scalar>) -> Seq<int> {
    s.map_values(|x: Scalar| x@)
}

impl Scalar {
    /// The scalar `v`.
    ///
    /// Relies on `From<u64>` for `curve25519_dalek::scalar::Scalar`: `v` as a field element.
    #[verifier::external_body]
    pub(crate) fn of_u64(v: u64) -> (r: Scalar)
        ensures
            r@ == v as int,
    {
        Scalar { bytes: curve25519_dalek::scalar::Scalar::from(v).to_bytes() }
    }

    /// The scalar `v`.
    pub fn from_u64(v: u64) -> (r: Scalar)
        ensures
            r@ == v as int,
    {
        Scalar::of_u64(v)
    }

    /// The scalar that 32 little-endian bytes denote, where they denote an integer below the
    /// group order.
    pub fn from_bytes(b: [u8; 32]) -> (r: Option<Scalar>)
        ensures
            r is Some <==> le_value(b@) < group_order(),
            r is Some ==> r->0@ == le_value(b@) as int && r->0.encoding() == b@,
    {
        Scalar::from_canonical_bytes(b)
    }

    /// The scalar zero.
    pub fn zero() -> (r: Scalar)
        ensures
            r@ == 0,
    {
        Scalar::from_u64(0)
    }

    /// The scalar one.
    pub fn one() -> (r: Scalar)
        ensures
            r@ == 1,
    {
        Scalar::from_u64(1)
    }

    /// Relies on `Add` for `curve25519_dalek::scalar::Scalar`: addition modulo the group order.
    #[verifier::external_body]
    pub(crate) fn add(&self, o: &Scalar) -> (r: Scalar)
        ensures
            r@ == fadd(self@, o@),
    {
        let a = curve25519_dalek::scalar::Scalar::from_bytes_mod_order(self.bytes);
        let b = curve25519_dalek::scalar::Scalar::from_bytes_mod_order(o.bytes);
        Scalar { bytes: (a + b).to_bytes() }
    }

    /// Relies on `Sub` for `curve25519_dalek::scalar::Scalar`: subtraction modulo the group order.
    #[verifier::external_body]
    pub(crate) fn sub(&self, o: &Scalar) -> (r: Scalar)
        ensures
            r@ == fsub(self@, o@),
    {
        let a = curve25519_dalek::scalar::Scalar::from_bytes_mod_order(self.bytes);
        let b = curve25519_dalek::scalar::Scalar::from_bytes_mod_order(o.bytes);
        Scalar { bytes: (a - b).to_bytes() }
    }

    /// Relies on `Mul` for `curve25519_dalek::scalar::Scalar`: multiplication modulo the group
    /// order.
    #[verifier::external_body]
    pub(crate) fn mul(&self, o: &Scalar) -> (r: Scalar)
        ensures
            r@ == fmul(self@, o@),
    {
        let a = curve25519_dalek::scalar::Scalar::from_bytes_mod_order(self.bytes);
        let b = curve25519_dalek::scalar::Scalar::from_bytes_mod_order(o.bytes);
        Scalar { bytes: (a * b).to_bytes() }
    }

    /// Relies on `Neg` for `curve25519_dalek::scalar::Scalar`: negation modulo the group order.
    #[verifier::external_body]
    pub(crate) fn neg(&self) -> (r: Scalar)
        ensures
            r@ == fneg(self@),
    {
        let a = curve25519_dalek::scalar::Scalar::from_bytes_mod_order(self.bytes);
        Scalar { bytes: (-a).to_bytes() }
    }

    /// Relies on `curve25519_dalek::scalar::Scalar::invert`, which raises its argument to the
    /// power `l - 2`: the multiplicative inverse of a nonzero scalar.
    #[verifier::external_body]
    pub(crate) fn invert(&self) -> (r: Scalar)
        ensures
            r@ == finv(self@),
            self@ % group_order() != 0 ==> fmul(self@, r@) == 1,
    {
        let a = curve25519_dalek::scalar::Scalar::from_bytes_mod_order(self.bytes);
        Scalar { bytes: a.invert().to_bytes() }
    }

    /// Whether two scalars are the same field element.
    ///
    /// Relies on `PartialEq` for `curve25519_dalek::scalar::Scalar`, a constant-time comparison.
    #[verifier::external_body]
    pub(crate) fn equals(&self, o: &Scalar) -> (r: bool)
        ensures
            r == (self@ % group_order() == o@ % group_order()),
    {
        let a = curve25519_dalek::scalar::Scalar::from_bytes_mod_order(self.bytes);
        let b = curve25519_dalek::scalar::Scalar::from_bytes_mod_order(o.bytes);
        a == b
    }

    /// The scalar that a 64-byte little-endian integer denotes, reduced modulo the group order.
    ///
    /// Relies on `curve25519_dalek::scalar::Scalar::from_bytes_mod_order_wide`.
    #[verifier::external_body]
    pub(crate) fn from_bytes_mod_order_wide(b: &[u8; 64]) -> (r: Scalar)
        ensures
            r@ == le_value(b@) as int % group_order(),
    {
        Scalar { bytes: curve25519_dalek::scalar::Scalar::from_bytes_mod_order_wide(b).to_bytes() }
    }

    /// The scalar that a canonical encoding denotes; `None` where the bytes, read as a
    /// little-endian integer, are not below the group order.
    ///
    /// Relies on `curve25519_dalek::scalar::Scalar::from_canonical_bytes`.
    #[verifier::external_body]
    pub(crate) fn from_canonical_bytes(b: [u8; 32]) -> (r: Option<Scalar>)
        ensures
            r is Some <==> le_value(b@) < group_order(),
            r is Some ==> r->0@ == le_value(b@) as int && r->0.encoding() == b@,
    {
        Option::from(curve25519_dalek::scalar::Scalar::from_canonical_bytes(b)).map(
            |s: curve25519_dalek::scalar::Scalar| Scalar { bytes: s.to_bytes() },
        )
    }

    /// The 32 bytes that hold the scalar.
    pub closed spec fn encoding(&self) -> Seq<u8> {
        self.bytes@
    }

    /// A scalar's encoding is 32 bytes that denote its value.
    pub proof fn lemma_encoding(&self)
        ensures
            self.encoding().len() == 32,
            le_value(self.encoding()) == self@,
    {
    }

    /// The canonical 32-byte encoding.
    pub fn to_bytes(&self) -> (r: [u8; 32])
        ensures
            r@ == self.encoding(),
            le_value(r@) == self@,
    {
        self.bytes
    }
}

} // verus!

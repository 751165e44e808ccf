//! A party of the aggregation protocol: it holds one secret value and moves through three states,
//! each transition consuming the state before it.
use crate::errors::MPCError;
use crate::generators::{commit_spec, Generators};
use crate::messages::{PolyChallenge, PolyCommitment, ProofShare, ValueChallenge, ValueCommitment};
use crate::point::{
    add_of, add_points, all_decompress, select_point, decompresses, identity_encoding, msm_of,
    multiscalar_mul, point_values, sub_of, sub_points, CompressedPoint,
};
use crate::scalar::{fadd, fmul, fpow, fsub, random_scalar, scalar_values, Scalar};
use crate::util::{
    inner_product_spec, middle_coeff, poly2_eval_spec, powers, scalar_exp_vartime, Poly2,
    VecPoly1,
};
use rand::rngs::StdRng;
use vstd::prelude::*;

verus! {

/// Whether `n` is a bit size that range proofs support: 8, 16, 32 or 64.
pub open spec fn valid_bitsize(n: usize) -> bool {
    n == 8 || n == 16 || n == 32 || n == 64
}

/// Bit `i` of `v`, as 0 or 1.
pub open spec fn bit_of(v: u64, i: int) -> int {
    ((v >> (i as u64)) & 1u64) as int
}

/// `A` after the first `k` bits: starting from `a_blinding B_blinding`, bit `i` adds `G_j[i]`
/// where it is set (else the identity) and subtracts `H_j[i]` where it is clear (else the
/// identity).
pub open spec fn a_acc(v: u64, G: Seq<Seq<u8>>, H: Seq<Seq<u8>>, start: Seq<u8>, k: nat) -> Seq<u8>
    decreases k,
{
    if k == 0 {
        start
    } else {
        let i = (k - 1) as int;
        let set = bit_of(v, i) == 1;
        sub_of(
            add_of(a_acc(v, G, H, start, (k - 1) as nat), if set { G[i] } else { identity_encoding() }),
            if set { identity_encoding() } else { H[i] },
        )
    }
}

/// The bases of `A` and `S`: `B_blinding`, then `G_j`, then `H_j`.
pub open spec fn party_bases(B_blinding: Seq<u8>, G: Seq<Seq<u8>>, H: Seq<Seq<u8>>) -> Seq<Seq<u8>> {
    seq![B_blinding] + G + H
}

/// The constant coefficient of `l(X)` at `i`: `a_L[i] - z`.
pub open spec fn l0_spec(v: u64, z: int, i: int) -> int {
    fsub(bit_of(v, i), z)
}

/// The constant coefficient of `r(X)` at `i`:
/// `y^(jn) y^i (a_R[i] + z) + z^2 z^j 2^i`.
pub open spec fn r0_spec(v: u64, y: int, z: int, oy: int, oz: int, i: int) -> int {
    fadd(
        fmul(fmul(oy, fpow(y, i as nat)), fadd(fsub(bit_of(v, i), 1), z)),
        fmul(fmul(fmul(z, z), oz), fpow(2, i as nat)),
    )
}

/// The linear coefficient of `r(X)` at `i`: `y^(jn) y^i s_R[i]`.
pub open spec fn r1_spec(y: int, oy: int, s_R_i: int, i: int) -> int {
    fmul(fmul(oy, fpow(y, i as nat)), s_R_i)
}

/// What taking position `j` does: the next state keeps the value, its blinding and the
/// generators, and the value commitment holds `V`, and `A` and `S` formed from the blindings
/// that the next state holds:
/// `A = a_blinding B_blinding + <a_L, G_j> + <a_R, H_j>` and
/// `S = s_blinding B_blinding + <s_L, G_j> + <s_R, H_j>`.
pub open spec fn assigned<'a>(
    before: PartyAwaitingPosition<'a>,
    j: usize,
    after: PartyAwaitingValueChallenge<'a>,
    vc: ValueCommitment,
) -> bool {
    let gens = before.generators();
    let n = before.n();
    let G = point_values(gens.g_vec()[j as int].subrange(0, n as int));
    let H = point_values(gens.h_vec()[j as int].subrange(0, n as int));
    &&& after.wf()
    &&& after.j() == j
    &&& after.n() == n
    &&& after.v() == before.v()
    &&& after.v_blinding() == before.v_blinding()
    &&& after.generators() == gens
    &&& after.s_L().len() == n
    &&& after.s_R().len() == n
    &&& vc == after.value_commitment()
    &&& vc.V == before.V()
    &&& decompresses(vc.A@)
    &&& decompresses(vc.S@)
    &&& vc.A@ == a_acc(
        before.v(),
        G,
        H,
        msm_of(seq![after.a_blinding()@], seq![gens.pedersen_gens.B_blinding@]),
        n as nat,
    )
    &&& vc.S@ == msm_of(
        seq![after.s_blinding()@] + scalar_values(after.s_L()) + scalar_values(after.s_R()),
        party_bases(gens.pedersen_gens.B_blinding@, G, H),
    )
}

/// What applying the challenges `y`, `z` does: the next state holds `l(X)`, `r(X)` and
/// `t(X) = <l(X), r(X)>`, and the polynomial commitment holds
/// `T_1 = t_1 B + t_1_blinding B_blinding` and `T_2 = t_2 B + t_2_blinding B_blinding` for
/// the blindings that the next state holds.
pub open spec fn challenged<'a>(
    before: PartyAwaitingValueChallenge<'a>,
    vc: ValueChallenge,
    after: PartyAwaitingPolyChallenge,
    pc: PolyCommitment,
) -> bool {
    let n = before.n() as int;
    let oy = fpow(vc.y@, (before.j() * before.n()) as nat);
    let oz = fpow(vc.z@, before.j() as nat);
    let l = after.l_poly();
    let rp = after.r_poly();
    let t = after.t_poly();
    let gens = before.generators().pedersen_gens;
    &&& after.wf()
    &&& pc == after.poly_commitment()
    &&& decompresses(pc.T_1@)
    &&& decompresses(pc.T_2@)
    &&& after.value_commitment() == before.value_commitment()
    &&& after.z() == vc.z
    &&& after.offset_z()@ == oz
    &&& after.v_blinding() == before.v_blinding()
    &&& after.a_blinding() == before.a_blinding()
    &&& after.s_blinding() == before.s_blinding()
    &&& l.0.len() == n && l.1.len() == n && rp.0.len() == n && rp.1.len() == n
    &&& forall|i: int| 0 <= i < n ==> (#[trigger] l.0[i])@ == l0_spec(before.v(), vc.z@, i)
    &&& forall|i: int| 0 <= i < n ==> (#[trigger] l.1[i]) == before.s_L()[i]
    &&& forall|i: int|
        0 <= i < n ==> (#[trigger] rp.0[i])@ == r0_spec(before.v(), vc.y@, vc.z@, oy, oz, i)
    &&& forall|i: int|
        0 <= i < n ==> (#[trigger] rp.1[i])@ == r1_spec(vc.y@, oy, before.s_R()[i]@, i)
    &&& t.0@ == inner_product_spec(scalar_values(l.0), scalar_values(rp.0), n as nat)
    &&& t.2@ == inner_product_spec(scalar_values(l.1), scalar_values(rp.1), n as nat)
    &&& t.1@ == middle_coeff(
        scalar_values(l.0),
        scalar_values(l.1),
        scalar_values(rp.0),
        scalar_values(rp.1),
    )
    &&& pc.T_1@ == commit_spec(gens.B@, gens.B_blinding@, t.1@, after.t_1_blinding()@)
    &&& pc.T_2@ == commit_spec(gens.B@, gens.B_blinding@, t.2@, after.t_2_blinding()@)
}

/// The random values that one party draws while it proves a value of `n` bits.
#[derive(Clone, Debug)]
pub struct PartyDraws {
    pub a_blinding: Scalar,
    pub s_blinding: Scalar,
    pub s_L: Vec<Scalar>,
    pub s_R: Vec<Scalar>,
    pub t_1_blinding: Scalar,
    pub t_2_blinding: Scalar,
}

impl PartyDraws {
    /// Whether the blinding vectors have length `n`.
    pub open spec fn fits(&self, n: usize) -> bool {
        self.s_L@.len() == n && self.s_R@.len() == n
    }

    /// Draws the blindings of a party that proves a value of `n` bits.
    pub fn draw(n: usize, rng: &mut StdRng) -> (r: PartyDraws)
        ensures
            r.fits(n),
    {
        let a_blinding = random_scalar(rng);
        let s_blinding = random_scalar(rng);
        let mut s_L: Vec<Scalar> = Vec::new();
        let mut s_R: Vec<Scalar> = Vec::new();
        let mut i: usize = 0;
        while i < n
            invariant
                s_L@.len() == i,
                s_R@.len() == i,
                i <= n,
            decreases n - i,
        {
            s_L.push(random_scalar(rng));
            s_R.push(random_scalar(rng));
            i = i + 1;
        }
        let t_1_blinding = random_scalar(rng);
        let t_2_blinding = random_scalar(rng);
        PartyDraws { a_blinding, s_blinding, s_L, s_R, t_1_blinding, t_2_blinding }
    }
}

/// The entry point of a party.
pub struct Party {}

impl Party {
    /// Starts a party that proves `v` in `[0, 2^n)` under the blinding `v_blinding`; fails where
    /// `n` is not a supported bit size or the generators have fewer than `n` bases per party.
    pub fn new<'a>(v: u64, v_blinding: Scalar, n: usize, generators: &'a Generators) -> (r: Result<
        PartyAwaitingPosition<'a>,
        MPCError,
    >)
        requires
            generators.wf(),
        ensures
            !valid_bitsize(n) ==> r == Err::<PartyAwaitingPosition<'a>, MPCError>(
                MPCError::InvalidBitsize,
            ),
            valid_bitsize(n) && generators.gens_capacity < n ==> r == Err::<
                PartyAwaitingPosition<'a>,
                MPCError,
            >(MPCError::InvalidGeneratorsLength),
            valid_bitsize(n) && generators.gens_capacity >= n ==> r is Ok && ({
                let p = r->Ok_0;
                &&& p.wf()
                &&& p.generators() == generators
                &&& p.n() == n
                &&& p.v() == v
                &&& p.v_blinding() == v_blinding
                &&& p.V()@ == commit_spec(
                    generators.pedersen_gens.B@,
                    generators.pedersen_gens.B_blinding@,
                    v as int,
                    v_blinding@,
                )
            }),
    {
        if !(n == 8 || n == 16 || n == 32 || n == 64) {
            return Err(MPCError::InvalidBitsize);
        }
        if generators.gens_capacity < n {
            return Err(MPCError::InvalidGeneratorsLength);
        }
        let vs = Scalar::from_u64(v);
        let V = generators.pedersen_gens.commit(&vs, &v_blinding);
        Ok(PartyAwaitingPosition { generators, n, v, v_blinding, V })
    }
}

/// A party that knows its value and bit size, and waits for its position `j`.
pub struct PartyAwaitingPosition<'a> {
    generators: &'a Generators,
    n: usize,
    v: u64,
    v_blinding: Scalar,
    V: CompressedPoint,
}

impl<'a> PartyAwaitingPosition<'a> {
    /// The state's `generators`.
    pub closed spec fn generators(&self) -> &'a Generators {
        self.generators
    }

    /// The state's `n`.
    pub closed spec fn n(&self) -> usize {
        self.n
    }

    /// The state's `v`.
    pub closed spec fn v(&self) -> u64 {
        self.v
    }

    /// The state's `v_blinding`.
    pub closed spec fn v_blinding(&self) -> Scalar {
        self.v_blinding
    }

    /// The state's `V`.
    pub closed spec fn V(&self) -> CompressedPoint {
        self.V
    }

    /// The generators are well formed and have `n` bases per party, for a supported `n`.
    pub closed spec fn wf(&self) -> bool {
        self.generators.wf() && valid_bitsize(self.n) && self.n <= self.generators.gens_capacity
    }

    /// Takes position `j`, draws the blinding factors, and commits to the value's bits.
    pub fn assign_position(self, j: usize, rng: &mut StdRng) -> (r: (
        PartyAwaitingValueChallenge<'a>,
        ValueCommitment,
    ))
        requires
            self.wf(),
            j < self.generators().party_capacity,
            j * self.n() <= u64::MAX,
        ensures
            assigned(self, j, r.0, r.1),
    {
        let a_blinding = random_scalar(rng);
        let s_blinding = random_scalar(rng);
        let mut s_L: Vec<Scalar> = Vec::new();
        let mut s_R: Vec<Scalar> = Vec::new();
        let mut i: usize = 0;
        while i < self.n
            invariant
                s_L@.len() == i,
                s_R@.len() == i,
                i <= self.n,
            decreases self.n - i,
        {
            s_L.push(random_scalar(rng));
            s_R.push(random_scalar(rng));
            i = i + 1;
        }
        self.assign_position_with(j, a_blinding, s_blinding, s_L, s_R)
    }

    /// Takes position `j` with the given blinding factors and commits to the value's bits:
    /// `A = a_blinding B_blinding + <a_L, G_j> + <a_R, H_j>` and
    /// `S = s_blinding B_blinding + <s_L, G_j> + <s_R, H_j>`.
    pub fn assign_position_with(
        self,
        j: usize,
        a_blinding: Scalar,
        s_blinding: Scalar,
        s_L: Vec<Scalar>,
        s_R: Vec<Scalar>,
    ) -> (r: (PartyAwaitingValueChallenge<'a>, ValueCommitment))
        requires
            self.wf(),
            j < self.generators().party_capacity,
            j * self.n() <= u64::MAX,
            s_L@.len() == self.n(),
            s_R@.len() == self.n(),
        ensures
            assigned(self, j, r.0, r.1),
            r.0.a_blinding() == a_blinding,
            r.0.s_blinding() == s_blinding,
            r.0.s_L() == s_L@,
            r.0.s_R() == s_R@,
    {
        let n = self.n;
        let gens = self.generators;
        let G = gens.party_G(j, n);
        let H = gens.party_H(j, n);
        let id = CompressedPoint::identity();
        let bb = vec![a_blinding];
        let bp = vec![gens.pedersen_gens.B_blinding];
        assert(scalar_values(bb@) =~= seq![a_blinding@]);
        assert(point_values(bp@) =~= seq![gens.pedersen_gens.B_blinding@]);
        assert(all_decompress(bp@));
        let aB = multiscalar_mul(bb.as_slice(), bp.as_slice()).unwrap();
        let ghost pG = point_values(G@);
        let ghost pH = point_values(H@);
        proof {
            assert forall|k: int| 0 <= k < n implies decompresses(#[trigger] pG[k]) && decompresses(
                pH[k],
            ) by {
                assert(G@[k] == gens.g_vec()[j as int][k]);
                assert(H@[k] == gens.h_vec()[j as int][k]);
            }
        }
        let mut A = aB;
        let mut i: usize = 0;
        while i < n
            invariant
                i <= n,
                n == self.n,
                n <= 64,
                G@.len() == n,
                H@.len() == n,
                pG == point_values(G@),
                pH == point_values(H@),
                forall|k: int| 0 <= k < n ==> decompresses(#[trigger] pG[k]) && decompresses(pH[k]),
                id@ == identity_encoding(),
                decompresses(id@),
                decompresses(A@),
                A@ == a_acc(self.v, pG, pH, aB@, i as nat),
            decreases n - i,
        {
            let vv: u64 = self.v;
            let sh: u64 = i as u64;
            let b: u64 = (vv >> sh) & 1;
            assert(b <= 1) by (bit_vector)
                requires
                    b == (vv >> sh) & 1,
            ;
            assert(decompresses(pG[i as int]) && decompresses(pH[i as int]));
            let g = select_point(&id, &G[i], b as u8).unwrap();
            let h = select_point(&H[i], &id, b as u8).unwrap();
            let t = add_points(&A, &g).unwrap();
            A = sub_points(&t, &h).unwrap();
            i = i + 1;
        }
        let mut bases: Vec<CompressedPoint> = Vec::new();
        bases.push(gens.pedersen_gens.B_blinding);
        crate::util::extend(&mut bases, G.as_slice());
        crate::util::extend(&mut bases, H.as_slice());
        let ghost pb = party_bases(gens.pedersen_gens.B_blinding@, point_values(G@), point_values(H@));
        assert(point_values(bases@) =~= pb);
        assert(all_decompress(bases@)) by {
            assert forall|k: int| 0 <= k < bases@.len() implies crate::point::decompresses(
                #[trigger] bases@[k]@,
            ) by {
                if k >= 1 && k < 1 + n {
                    assert(bases@[k] == gens.g_vec()[j as int][k - 1]);
                } else if k >= 1 + n {
                    assert(bases@[k] == gens.h_vec()[j as int][k - 1 - n]);
                }
            }
        }
        let mut s_sc: Vec<Scalar> = Vec::new();
        s_sc.push(s_blinding);
        crate::util::extend(&mut s_sc, s_L.as_slice());
        crate::util::extend(&mut s_sc, s_R.as_slice());
        assert(scalar_values(s_sc@) =~= seq![s_blinding@] + scalar_values(s_L@) + scalar_values(s_R@));
        let S = multiscalar_mul(s_sc.as_slice(), bases.as_slice()).unwrap();
        let value_commitment = ValueCommitment { V: self.V, A, S };
        let next = PartyAwaitingValueChallenge {
            n,
            v: self.v,
            v_blinding: self.v_blinding,
            j,
            generators: gens,
            value_commitment,
            a_blinding,
            s_blinding,
            s_L,
            s_R,
        };
        (next, value_commitment)
    }
}

/// A party that knows its position `j` and has committed to its value's bits; it waits for the
/// challenges `y`, `z`.
pub struct PartyAwaitingValueChallenge<'a> {
    n: usize,
    v: u64,
    v_blinding: Scalar,
    j: usize,
    generators: &'a Generators,
    value_commitment: ValueCommitment,
    a_blinding: Scalar,
    s_blinding: Scalar,
    s_L: Vec<Scalar>,
    s_R: Vec<Scalar>,
}

impl<'a> PartyAwaitingValueChallenge<'a> {
    /// The state's `n`.
    pub closed spec fn n(&self) -> usize {
        self.n
    }

    /// The state's `v`.
    pub closed spec fn v(&self) -> u64 {
        self.v
    }

    /// The state's `v_blinding`.
    pub closed spec fn v_blinding(&self) -> Scalar {
        self.v_blinding
    }

    /// The state's `j`.
    pub closed spec fn j(&self) -> usize {
        self.j
    }

    /// The state's `generators`.
    pub closed spec fn generators(&self) -> &'a Generators {
        self.generators
    }

    /// The state's `value_commitment`.
    pub closed spec fn value_commitment(&self) -> ValueCommitment {
        self.value_commitment
    }

    /// The state's `a_blinding`.
    pub closed spec fn a_blinding(&self) -> Scalar {
        self.a_blinding
    }

    /// The state's `s_blinding`.
    pub closed spec fn s_blinding(&self) -> Scalar {
        self.s_blinding
    }

    /// The state's `s_L`.
    pub closed spec fn s_L(&self) -> Seq<Scalar> {
        self.s_L@
    }

    /// The state's `s_R`.
    pub closed spec fn s_R(&self) -> Seq<Scalar> {
        self.s_R@
    }

    /// The generators are well formed and cover position `j` with `n` bases, for a supported
    /// `n`; the blinding vectors have length `n`.
    pub closed spec fn wf(&self) -> bool {
        &&& self.generators.wf()
        &&& valid_bitsize(self.n)
        &&& self.n <= self.generators.gens_capacity
        &&& self.j < self.generators.party_capacity
        &&& self.j * self.n <= u64::MAX
        &&& self.s_L@.len() == self.n
        &&& self.s_R@.len() == self.n
    }

    /// Applies the challenges `y`, `z`, draws the blindings of `T_1`, `T_2`, and commits to
    /// the coefficients of `t(X)`.
    pub fn apply_challenge(self, vc: &ValueChallenge, rng: &mut StdRng) -> (r: (
        PartyAwaitingPolyChallenge,
        PolyCommitment,
    ))
        requires
            self.wf(),
        ensures
            challenged(self, *vc, r.0, r.1),
    {
        let t_1_blinding = random_scalar(rng);
        let t_2_blinding = random_scalar(rng);
        self.apply_challenge_with(vc, t_1_blinding, t_2_blinding)
    }

    /// Applies the challenges `y`, `z` with the given blindings of `T_1`, `T_2`: forms
    /// `l(X)`, `r(X)` and `t(X) = <l(X), r(X)>`, and commits to `t_1` and `t_2`.
    pub fn apply_challenge_with(self, vc: &ValueChallenge, t_1_blinding: Scalar, t_2_blinding: Scalar) -> (r: (
        PartyAwaitingPolyChallenge,
        PolyCommitment,
    ))
        requires
            self.wf(),
        ensures
            challenged(self, *vc, r.0, r.1),
            r.0.t_1_blinding() == t_1_blinding,
            r.0.t_2_blinding() == t_2_blinding,
    {
        let n = self.n;
        let offset_y = scalar_exp_vartime(&vc.y, (self.j as u64) * (n as u64));
        let offset_z = scalar_exp_vartime(&vc.z, self.j as u64);
        let ypow = powers(&vc.y, n);
        let two = Scalar::from_u64(2);
        let tpow = powers(&two, n);
        let one = Scalar::one();
        let zz = vc.z.mul(&vc.z);
        let zz_oz = zz.mul(&offset_z);
        let mut l0: Vec<Scalar> = Vec::new();
        let mut l1: Vec<Scalar> = Vec::new();
        let mut r0: Vec<Scalar> = Vec::new();
        let mut r1: Vec<Scalar> = Vec::new();
        let mut i: usize = 0;
        while i < n
            invariant
                i <= n,
                n == self.n,
                n <= 64,
                self.wf(),
                ypow@.len() == n,
                tpow@.len() == n,
                forall|k: int| 0 <= k < n ==> (#[trigger] ypow@[k])@ == fpow(vc.y@, k as nat),
                forall|k: int| 0 <= k < n ==> (#[trigger] tpow@[k])@ == fpow(2, k as nat),
                one@ == 1,
                zz_oz@ == fmul(fmul(vc.z@, vc.z@), offset_z@),
                offset_y@ == fpow(vc.y@, (self.j * self.n) as nat),
                l0@.len() == i,
                l1@.len() == i,
                r0@.len() == i,
                r1@.len() == i,
                forall|k: int| 0 <= k < i ==> (#[trigger] l0@[k])@ == l0_spec(self.v, vc.z@, k),
                forall|k: int| 0 <= k < i ==> (#[trigger] l1@[k]) == self.s_L@[k],
                forall|k: int|
                    0 <= k < i ==> (#[trigger] r0@[k])@ == r0_spec(
                        self.v,
                        vc.y@,
                        vc.z@,
                        offset_y@,
                        offset_z@,
                        k,
                    ),
                forall|k: int|
                    0 <= k < i ==> (#[trigger] r1@[k])@ == r1_spec(vc.y@, offset_y@, self.s_R@[k]@, k),
            decreases n - i,
        {
            let a_L = Scalar::from_u64((self.v >> (i as u64)) & 1);
            let a_R = a_L.sub(&one);
            let exp_y = offset_y.mul(&ypow[i]);
            l0.push(a_L.sub(&vc.z));
            l1.push(self.s_L[i]);
            let r0i = exp_y.mul(&a_R.add(&vc.z)).add(&zz_oz.mul(&tpow[i]));
            r0.push(r0i);
            r1.push(exp_y.mul(&self.s_R[i]));
            i = i + 1;
        }
        let l_poly = VecPoly1(l0, l1);
        let r_poly = VecPoly1(r0, r1);
        let t_poly = l_poly.inner_product(&r_poly);
        let pg = self.generators.pedersen_gens;
        let T_1 = pg.commit(&t_poly.1, &t_1_blinding);
        let T_2 = pg.commit(&t_poly.2, &t_2_blinding);
        let poly_commitment = PolyCommitment { T_1, T_2 };
        let next = PartyAwaitingPolyChallenge {
            value_commitment: self.value_commitment,
            poly_commitment,
            z: vc.z,
            offset_z,
            l_poly,
            r_poly,
            t_poly,
            v_blinding: self.v_blinding,
            a_blinding: self.a_blinding,
            s_blinding: self.s_blinding,
            t_1_blinding,
            t_2_blinding,
        };
        (next, poly_commitment)
    }
}

/// A party that has committed to `t(X)` and waits for the challenge `x`.
pub struct PartyAwaitingPolyChallenge {
    value_commitment: ValueCommitment,
    poly_commitment: PolyCommitment,
    z: Scalar,
    offset_z: Scalar,
    l_poly: VecPoly1,
    r_poly: VecPoly1,
    t_poly: Poly2,
    v_blinding: Scalar,
    a_blinding: Scalar,
    s_blinding: Scalar,
    t_1_blinding: Scalar,
    t_2_blinding: Scalar,
}

impl PartyAwaitingPolyChallenge {
    /// The state's `value_commitment`.
    pub closed spec fn value_commitment(&self) -> ValueCommitment {
        self.value_commitment
    }

    /// The state's `poly_commitment`.
    pub closed spec fn poly_commitment(&self) -> PolyCommitment {
        self.poly_commitment
    }

    /// The state's `z`.
    pub closed spec fn z(&self) -> Scalar {
        self.z
    }

    /// The state's `offset_z`.
    pub closed spec fn offset_z(&self) -> Scalar {
        self.offset_z
    }

    /// The state's `l_poly`.
    pub closed spec fn l_poly(&self) -> (Seq<Scalar>, Seq<Scalar>) {
        (self.l_poly.0@, self.l_poly.1@)
    }

    /// The state's `r_poly`.
    pub closed spec fn r_poly(&self) -> (Seq<Scalar>, Seq<Scalar>) {
        (self.r_poly.0@, self.r_poly.1@)
    }

    /// The state's `t_poly`.
    pub closed spec fn t_poly(&self) -> (Scalar, Scalar, Scalar) {
        (self.t_poly.0, self.t_poly.1, self.t_poly.2)
    }

    /// The state's `v_blinding`.
    pub closed spec fn v_blinding(&self) -> Scalar {
        self.v_blinding
    }

    /// The state's `a_blinding`.
    pub closed spec fn a_blinding(&self) -> Scalar {
        self.a_blinding
    }

    /// The state's `s_blinding`.
    pub closed spec fn s_blinding(&self) -> Scalar {
        self.s_blinding
    }

    /// The state's `t_1_blinding`.
    pub closed spec fn t_1_blinding(&self) -> Scalar {
        self.t_1_blinding
    }

    /// The state's `t_2_blinding`.
    pub closed spec fn t_2_blinding(&self) -> Scalar {
        self.t_2_blinding
    }

    /// The four coefficient vectors have one length.
    pub closed spec fn wf(&self) -> bool {
        self.l_poly.wf() && self.r_poly.wf() && self.l_poly.0@.len() == self.r_poly.0@.len()
    }

    /// Evaluates at the challenge `x` and returns the party's share of the proof; fails with
    /// `MaliciousDealer` when `x = 0`, which would reveal the blindings.
    pub fn apply_challenge(self, pc: &PolyChallenge) -> (r: Result<ProofShare, MPCError>)
        requires
            self.wf(),
        ensures
            pc.x@ % crate::scalar::group_order() == 0 ==> r == Err::<ProofShare, MPCError>(
                MPCError::MaliciousDealer,
            ),
            pc.x@ % crate::scalar::group_order() != 0 ==> r is Ok && ({
                let s = r->Ok_0;
                let x = pc.x@;
                let t = self.t_poly();
                let l = self.l_poly();
                let rp = self.r_poly();
                &&& s.value_commitment == self.value_commitment()
                &&& s.poly_commitment == self.poly_commitment()
                &&& s.t_x@ == poly2_eval_spec(t.0@, t.1@, t.2@, x)
                &&& s.t_x_blinding@ == poly2_eval_spec(
                    fmul(fmul(fmul(self.z()@, self.z()@), self.offset_z()@), self.v_blinding()@),
                    self.t_1_blinding()@,
                    self.t_2_blinding()@,
                    x,
                )
                &&& s.e_blinding@ == fadd(self.a_blinding()@, fmul(self.s_blinding()@, x))
                &&& s.l_vec@.len() == l.0.len()
                &&& s.r_vec@.len() == rp.0.len()
                &&& forall|i: int|
                    0 <= i < l.0.len() ==> (#[trigger] s.l_vec@[i])@ == fadd(l.0[i]@, fmul(l.1[i]@, x))
                &&& forall|i: int|
                    0 <= i < rp.0.len() ==> (#[trigger] s.r_vec@[i])@ == fadd(
                        rp.0[i]@,
                        fmul(rp.1[i]@, x),
                    )
            }),
    {
        let zero = Scalar::zero();
        if pc.x.equals(&zero) {
            return Err(MPCError::MaliciousDealer);
        }
        let zz = self.z.mul(&self.z);
        let t_blinding_poly = Poly2(
            zz.mul(&self.offset_z).mul(&self.v_blinding),
            self.t_1_blinding,
            self.t_2_blinding,
        );
        let t_x = self.t_poly.eval(&pc.x);
        let t_x_blinding = t_blinding_poly.eval(&pc.x);
        let e_blinding = self.a_blinding.add(&self.s_blinding.mul(&pc.x));
        let l_vec = self.l_poly.eval(&pc.x);
        let r_vec = self.r_poly.eval(&pc.x);
        Ok(ProofShare {
            value_commitment: self.value_commitment,
            poly_commitment: self.poly_commitment,
            t_x,
            t_x_blinding,
            e_blinding,
            l_vec,
            r_vec,
        })
    }
}

} // verus!

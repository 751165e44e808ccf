//! The dealer of the aggregation protocol: it folds the parties' messages, draws the challenges
//! from the transcript, checks the shares and assembles the aggregate proof.
use crate::errors::MPCError;
use crate::generators::Generators;
use crate::inner_product_proof::{innerproduct_domain_log, ipa_spec, is_pow2, InnerProductProof};
use crate::messages::{PolyChallenge, PolyCommitment, ProofShare, ValueChallenge, ValueCommitment};
use crate::party::valid_bitsize;
use crate::point::{
    all_decompress, decompresses, identity_encoding, msm_of, multiscalar_mul, point_values,
    vartime_msm_of, vartime_multiscalar_mul, CompressedPoint,
};
use crate::range_proof::RangeProof;
use crate::scalar::{fadd, finv, fmul, fneg, fpow, fsub, scalar_values, Scalar};
use crate::transcript::{
    append_point, append_scalar, challenge_scalar, challenge_value, rangeproof_domain_log,
    rangeproof_domain_sep, transcript_log, with_challenge, with_message, TranscriptEntry,
};
use crate::util::{
    extend, inner_product, inner_product_spec, powers, scalar_exp_vartime, sum_of_powers,
    sum_of_powers_spec,
};
use merlin::Transcript;
use vstd::prelude::*;
use vstd::string::StringSliceAdditionalSpecFns;

verus! {

/// `m` copies of the scalar one.
pub open spec fn ones(m: nat) -> Seq<int> {
    Seq::new(m, |i: int| 1int)
}

/// The log after a sequence of labelled points.
pub open spec fn with_points(log: Seq<TranscriptEntry>, label: Seq<u8>, ps: Seq<Seq<u8>>) -> Seq<TranscriptEntry>
    decreases ps.len(),
{
    if ps.len() == 0 {
        log
    } else {
        with_message(with_points(log, label, ps.drop_last()), label, ps.last())
    }
}

/// The dealer, before any party has sent a message.
pub struct Dealer {}

impl Dealer {
    /// Starts aggregating `m` proofs of `n` bits: checks the parameters and writes the domain
    /// separator into the transcript.
    pub fn new<'a>(gens: &'a Generators, n: usize, m: usize, transcript: &mut Transcript) -> (r:
        Result<DealerAwaitingValueCommitments<'a>, MPCError>)
        requires
            gens.wf(),
        ensures
            !valid_bitsize(n) ==> r == Err::<DealerAwaitingValueCommitments<'a>, MPCError>(
                MPCError::InvalidBitsize,
            ),
            valid_bitsize(n) && (gens.gens_capacity < n || gens.party_capacity < m) ==> r == Err::<
                DealerAwaitingValueCommitments<'a>,
                MPCError,
            >(MPCError::InvalidGeneratorsLength),
            valid_bitsize(n) && gens.gens_capacity >= n && gens.party_capacity >= m && !is_pow2(
                m as nat,
            ) ==> r == Err::<DealerAwaitingValueCommitments<'a>, MPCError>(
                MPCError::InvalidAggregation,
            ),
            valid_bitsize(n) && gens.gens_capacity >= n && gens.party_capacity >= m && is_pow2(
                m as nat,
            ) ==> r is Ok,
            r is Err ==> *final(transcript) == *old(transcript),
            r is Ok ==> valid_bitsize(n) && gens.gens_capacity >= n && gens.party_capacity >= m
                && is_pow2(m as nat) && r->Ok_0.wf() && r->Ok_0.gens == gens && r->Ok_0.n == n
                && r->Ok_0.m == m && transcript_log(*final(transcript)) == rangeproof_domain_log(
                transcript_log(*old(transcript)),
                n as u64,
                m as u64,
            ),
    {
        if !(n == 8 || n == 16 || n == 32 || n == 64) {
            return Err(MPCError::InvalidBitsize);
        }
        if gens.gens_capacity < n || gens.party_capacity < m {
            return Err(MPCError::InvalidGeneratorsLength);
        }
        if crate::inner_product_proof::exact_log2(m).is_none() {
            return Err(MPCError::InvalidAggregation);
        }
        assert(m * n <= gens.gens_capacity * gens.party_capacity) by (nonlinear_arith)
            requires
                m <= gens.party_capacity,
                n <= gens.gens_capacity,
        ;
        assert(is_pow2(m as nat));
        rangeproof_domain_sep(transcript, n as u64, m as u64);
        Ok(DealerAwaitingValueCommitments { gens, n, m })
    }
}

/// The dealer, waiting for the parties' value commitments.
pub struct DealerAwaitingValueCommitments<'a> {
    pub gens: &'a Generators,
    pub n: usize,
    pub m: usize,
}

impl<'a> DealerAwaitingValueCommitments<'a> {
    pub open spec fn wf(&self) -> bool {
        &&& self.gens.wf()
        &&& valid_bitsize(self.n)
        &&& self.n <= self.gens.gens_capacity
        &&& self.m <= self.gens.party_capacity
        &&& is_pow2(self.m as nat)
        &&& self.m * self.n <= usize::MAX
    }

    /// Appends each `V_j`, then the sums `A` and `S` of the parties' `A_j` and `S_j`, and
    /// draws `y`, then `z`. Fails with `WrongNumValueCommitments` where there is not one
    /// commitment per party, and with `MalformedProofShares` where an `A_j` or `S_j` is not a
    /// group element.
    pub fn receive_value_commitments(self, vcs: Vec<ValueCommitment>, transcript: &mut Transcript) -> (r:
        Result<(DealerAwaitingPolyCommitments<'a>, ValueChallenge), MPCError>)
        requires
            self.wf(),
        ensures
            vcs@.len() != self.m ==> r == Err::<
                (DealerAwaitingPolyCommitments<'a>, ValueChallenge),
                MPCError,
            >(MPCError::WrongNumValueCommitments),
            vcs@.len() == self.m ==> (r is Ok <==> all_decompress(
                vcs@.map_values(|c: ValueCommitment| c.A),
            ) && all_decompress(vcs@.map_values(|c: ValueCommitment| c.S))),
            vcs@.len() == self.m && r is Err ==> (match r {
                Err(MPCError::MalformedProofShares { bad_shares }) => bad_shares@.len() == 0,
                _ => false,
            }),
            r is Err ==> *final(transcript) == *old(transcript),
            r is Ok ==> ({
                let (d, ch) = r->Ok_0;
                let Vs = point_values(vcs@.map_values(|c: ValueCommitment| c.V));
                let As = point_values(vcs@.map_values(|c: ValueCommitment| c.A));
                let Ss = point_values(vcs@.map_values(|c: ValueCommitment| c.S));
                let log1 = with_message(
                    with_message(
                        with_points(transcript_log(*old(transcript)), "V".spec_bytes(), Vs),
                        "A".spec_bytes(),
                        msm_of(ones(self.m as nat), As),
                    ),
                    "S".spec_bytes(),
                    msm_of(ones(self.m as nat), Ss),
                );
                &&& vcs@.len() == self.m
                &&& d.wf()
                &&& d.gens == self.gens
                &&& d.n == self.n
                &&& d.m == self.m
                &&& d.value_commitments@ == vcs@
                &&& d.A@ == msm_of(ones(self.m as nat), As)
                &&& d.S@ == msm_of(ones(self.m as nat), Ss)
                &&& ch == d.value_challenge
                &&& ch.y@ == challenge_value(log1, "y".spec_bytes())
                &&& ch.z@ == challenge_value(
                    with_challenge(log1, "y".spec_bytes()),
                    "z".spec_bytes(),
                )
                &&& transcript_log(*final(transcript)) == with_challenge(
                    with_challenge(log1, "y".spec_bytes()),
                    "z".spec_bytes(),
                )
            }),
    {
        if vcs.len() != self.m {
            return Err(MPCError::WrongNumValueCommitments);
        }
        let mut As: Vec<CompressedPoint> = Vec::new();
        let mut Ss: Vec<CompressedPoint> = Vec::new();
        let mut i: usize = 0;
        while i < vcs.len()
            invariant
                i <= vcs@.len(),
                As@ == vcs@.map_values(|c: ValueCommitment| c.A).subrange(0, i as int),
                Ss@ == vcs@.map_values(|c: ValueCommitment| c.S).subrange(0, i as int),
            decreases vcs@.len() - i,
        {
            As.push(vcs[i].A);
            Ss.push(vcs[i].S);
            i = i + 1;
            assert(As@ =~= vcs@.map_values(|c: ValueCommitment| c.A).subrange(0, i as int));
            assert(Ss@ =~= vcs@.map_values(|c: ValueCommitment| c.S).subrange(0, i as int));
        }
        assert(As@ =~= vcs@.map_values(|c: ValueCommitment| c.A));
        assert(Ss@ =~= vcs@.map_values(|c: ValueCommitment| c.S));
        let A_sum = match Self::checked_sum(&As) {
            Some(p) => p,
            None => {
                return Err(MPCError::MalformedProofShares { bad_shares: Vec::new() });
            },
        };
        let S_sum = match Self::checked_sum(&Ss) {
            Some(p) => p,
            None => {
                return Err(MPCError::MalformedProofShares { bad_shares: Vec::new() });
            },
        };
        let ghost Vs = point_values(vcs@.map_values(|c: ValueCommitment| c.V));
        let ghost log0 = transcript_log(*transcript);
        let mut i: usize = 0;
        while i < vcs.len()
            invariant
                i <= vcs@.len(),
                Vs == point_values(vcs@.map_values(|c: ValueCommitment| c.V)),
                transcript_log(*transcript) == with_points(
                    log0,
                    "V".spec_bytes(),
                    Vs.subrange(0, i as int),
                ),
            decreases vcs@.len() - i,
        {
            append_point(transcript, "V".as_bytes(), &vcs[i].V);
            proof {
                let p = Vs.subrange(0, i + 1);
                assert(p.drop_last() =~= Vs.subrange(0, i as int));
                assert(p.last() == vcs@[i as int].V@);
            }
            i = i + 1;
        }
        assert(Vs.subrange(0, vcs@.len() as int) =~= Vs);
        append_point(transcript, "A".as_bytes(), &A_sum);
        append_point(transcript, "S".as_bytes(), &S_sum);
        let y = challenge_scalar(transcript, "y".as_bytes());
        let z = challenge_scalar(transcript, "z".as_bytes());
        let value_challenge = ValueChallenge { y, z };
        let d = DealerAwaitingPolyCommitments {
            gens: self.gens,
            n: self.n,
            m: self.m,
            value_commitments: vcs,
            A: A_sum,
            S: S_sum,
            value_challenge,
        };
        (Ok((d, value_challenge)))
    }

    /// The sum of points, or `None` where one is not a group element.
    fn checked_sum(ps: &Vec<CompressedPoint>) -> (r: Option<CompressedPoint>)
        ensures
            r is Some <==> all_decompress(ps@),
            r is Some ==> r->0@ == msm_of(ones(ps@.len()), point_values(ps@)) && decompresses(
                r->0@,
            ),
    {
        let one = Scalar::one();
        let mut sc: Vec<Scalar> = Vec::new();
        let mut i: usize = 0;
        while i < ps.len()
            invariant
                i <= ps@.len(),
                one@ == 1,
                sc@.len() == i,
                forall|k: int| 0 <= k < i ==> (#[trigger] sc@[k])@ == 1,
            decreases ps@.len() - i,
        {
            sc.push(one);
            i = i + 1;
        }
        assert(scalar_values(sc@) =~= ones(ps@.len()));
        multiscalar_mul(sc.as_slice(), ps.as_slice())
    }
}

/// The dealer, waiting for the parties' polynomial commitments.
pub struct DealerAwaitingPolyCommitments<'a> {
    pub gens: &'a Generators,
    pub n: usize,
    pub m: usize,
    pub value_commitments: Vec<ValueCommitment>,
    pub A: CompressedPoint,
    pub S: CompressedPoint,
    pub value_challenge: ValueChallenge,
}

impl<'a> DealerAwaitingPolyCommitments<'a> {
    pub open spec fn wf(&self) -> bool {
        &&& self.gens.wf()
        &&& valid_bitsize(self.n)
        &&& self.n <= self.gens.gens_capacity
        &&& self.m <= self.gens.party_capacity
        &&& is_pow2(self.m as nat)
        &&& self.m * self.n <= usize::MAX
        &&& self.value_commitments@.len() == self.m
    }

    /// Appends the sums `T_1` and `T_2` of the parties' commitments and draws `x`. Fails with
    /// `WrongNumPolyCommitments` where there is not one commitment per party, and with
    /// `MalformedProofShares` where a `T_1` or `T_2` is not a group element.
    pub fn receive_poly_commitments(self, pcs: Vec<PolyCommitment>, transcript: &mut Transcript) -> (r:
        Result<(DealerAwaitingProofShares<'a>, PolyChallenge), MPCError>)
        requires
            self.wf(),
        ensures
            pcs@.len() != self.m ==> r == Err::<(DealerAwaitingProofShares<'a>, PolyChallenge), MPCError>(
                MPCError::WrongNumPolyCommitments,
            ),
            pcs@.len() == self.m ==> (r is Ok <==> all_decompress(
                pcs@.map_values(|c: PolyCommitment| c.T_1),
            ) && all_decompress(pcs@.map_values(|c: PolyCommitment| c.T_2))),
            pcs@.len() == self.m && r is Err ==> (match r {
                Err(MPCError::MalformedProofShares { bad_shares }) => bad_shares@.len() == 0,
                _ => false,
            }),
            r is Err ==> *final(transcript) == *old(transcript),
            r is Ok ==> ({
                let (d, ch) = r->Ok_0;
                let T1s = point_values(pcs@.map_values(|c: PolyCommitment| c.T_1));
                let T2s = point_values(pcs@.map_values(|c: PolyCommitment| c.T_2));
                let log1 = with_message(
                    with_message(
                        transcript_log(*old(transcript)),
                        "T_1".spec_bytes(),
                        msm_of(ones(self.m as nat), T1s),
                    ),
                    "T_2".spec_bytes(),
                    msm_of(ones(self.m as nat), T2s),
                );
                &&& pcs@.len() == self.m
                &&& d.wf()
                &&& d.gens == self.gens
                &&& d.n == self.n
                &&& d.m == self.m
                &&& d.value_commitments == self.value_commitments
                &&& d.poly_commitments@ == pcs@
                &&& d.A == self.A
                &&& d.S == self.S
                &&& d.value_challenge == self.value_challenge
                &&& d.T_1@ == msm_of(ones(self.m as nat), T1s)
                &&& d.T_2@ == msm_of(ones(self.m as nat), T2s)
                &&& ch == d.poly_challenge
                &&& ch.x@ == challenge_value(log1, "x".spec_bytes())
                &&& transcript_log(*final(transcript)) == with_challenge(log1, "x".spec_bytes())
            }),
    {
        if pcs.len() != self.m {
            return Err(MPCError::WrongNumPolyCommitments);
        }
        let mut T1s: Vec<CompressedPoint> = Vec::new();
        let mut T2s: Vec<CompressedPoint> = Vec::new();
        let mut i: usize = 0;
        while i < pcs.len()
            invariant
                i <= pcs@.len(),
                T1s@ == pcs@.map_values(|c: PolyCommitment| c.T_1).subrange(0, i as int),
                T2s@ == pcs@.map_values(|c: PolyCommitment| c.T_2).subrange(0, i as int),
            decreases pcs@.len() - i,
        {
            T1s.push(pcs[i].T_1);
            T2s.push(pcs[i].T_2);
            i = i + 1;
            assert(T1s@ =~= pcs@.map_values(|c: PolyCommitment| c.T_1).subrange(0, i as int));
            assert(T2s@ =~= pcs@.map_values(|c: PolyCommitment| c.T_2).subrange(0, i as int));
        }
        assert(T1s@ =~= pcs@.map_values(|c: PolyCommitment| c.T_1));
        assert(T2s@ =~= pcs@.map_values(|c: PolyCommitment| c.T_2));
        let T_1 = match DealerAwaitingValueCommitments::checked_sum(&T1s) {
            Some(p) => p,
            None => {
                return Err(MPCError::MalformedProofShares { bad_shares: Vec::new() });
            },
        };
        let T_2 = match DealerAwaitingValueCommitments::checked_sum(&T2s) {
            Some(p) => p,
            None => {
                return Err(MPCError::MalformedProofShares { bad_shares: Vec::new() });
            },
        };
        append_point(transcript, "T_1".as_bytes(), &T_1);
        append_point(transcript, "T_2".as_bytes(), &T_2);
        let x = challenge_scalar(transcript, "x".as_bytes());
        let poly_challenge = PolyChallenge { x };
        let d = DealerAwaitingProofShares {
            gens: self.gens,
            n: self.n,
            m: self.m,
            value_commitments: self.value_commitments,
            poly_commitments: pcs,
            A: self.A,
            S: self.S,
            T_1,
            T_2,
            value_challenge: self.value_challenge,
            poly_challenge,
        };
        Ok((d, poly_challenge))
    }
}

/// The dealer, waiting for the parties' proof shares.
pub struct DealerAwaitingProofShares<'a> {
    pub gens: &'a Generators,
    pub n: usize,
    pub m: usize,
    pub value_commitments: Vec<ValueCommitment>,
    pub poly_commitments: Vec<PolyCommitment>,
    pub A: CompressedPoint,
    pub S: CompressedPoint,
    pub T_1: CompressedPoint,
    pub T_2: CompressedPoint,
    pub value_challenge: ValueChallenge,
    pub poly_challenge: PolyChallenge,
}

/// The field sum of a sequence.
pub open spec fn field_sum(s: Seq<int>) -> int
    decreases s.len(),
{
    if s.len() == 0 {
        0
    } else {
        fadd(field_sum(s.drop_last()), s.last())
    }
}

/// The concatenation of a sequence of sequences.
pub open spec fn concat_all(s: Seq<Seq<Scalar>>) -> Seq<Scalar>
    decreases s.len(),
{
    if s.len() == 0 {
        Seq::empty()
    } else {
        concat_all(s.drop_last()) + s.last()
    }
}

/// The coefficient of `H_i` in a party's share check, for the party's `r[i]`.
pub open spec fn audit_h_scalar(y: int, z: int, jn: nat, j: nat, r_i: int, i: int) -> int {
    fadd(
        z,
        fmul(
            fmul(finv(fpow(y, jn)), fpow(finv(y), i as nat)),
            fsub(fmul(fmul(fmul(z, z), fpow(z, j)), fpow(2, i as nat)), r_i),
        ),
    )
}

/// The share's `delta`: `(z - z^2) (sum_{i<n} y^i) y^(jn) - z^3 (sum_{i<n} 2^i) z^j`.
pub open spec fn audit_delta(y: int, z: int, n: nat, jn: nat, j: nat) -> int {
    fsub(
        fmul(fmul(fsub(z, fmul(z, z)), sum_of_powers_spec(y, n)), fpow(y, jn)),
        fmul(fmul(fmul(z, fmul(z, z)), sum_of_powers_spec(2, n)), fpow(z, j)),
    )
}

/// Whether party `j`'s share is consistent with its own commitments: `t_x = <l, r>`, and the
/// two single-party verification equations hold.
pub open spec fn audit_spec(
    gens: &Generators,
    n: nat,
    j: nat,
    y: int,
    z: int,
    x: int,
    vc: ValueCommitment,
    pc: PolyCommitment,
    share: ProofShare,
) -> bool {
    let l = scalar_values(share.l_vec@);
    let r = scalar_values(share.r_vec@);
    let p_scalars = seq![1int, x, fneg(share.e_blinding@)] + Seq::new(
        n,
        |i: int| fsub(fneg(z), l[i]),
    ) + Seq::new(n, |i: int| audit_h_scalar(y, z, j * n, j, r[i], i));
    let p_bases = seq![vc.A, vc.S, gens.pedersen_gens.B_blinding] + gens.g_vec()[j as int].subrange(
        0,
        n as int,
    ) + gens.h_vec()[j as int].subrange(0, n as int);
    let t_scalars = seq![
        fmul(fmul(z, z), fpow(z, j)),
        x,
        fmul(x, x),
        fsub(audit_delta(y, z, n, j * n, j), share.t_x@),
        fneg(share.t_x_blinding@),
    ];
    let t_bases = seq![vc.V, pc.T_1, pc.T_2, gens.pedersen_gens.B, gens.pedersen_gens.B_blinding];
    &&& l.len() == n
    &&& r.len() == n
    &&& share.t_x@ % crate::scalar::group_order() == inner_product_spec(l, r, n)
    &&& all_decompress(p_bases)
    &&& vartime_msm_of(p_scalars, point_values(p_bases)) == identity_encoding()
    &&& all_decompress(t_bases)
    &&& vartime_msm_of(t_scalars, point_values(t_bases)) == identity_encoding()
}

/// `a b` is a power of two where `a` and `b` are.
pub proof fn lemma_pow2_mul(a: nat, b: nat)
    requires
        is_pow2(a),
        is_pow2(b),
    ensures
        is_pow2(a * b),
    decreases a,
{
    if a > 1 {
        let h = a / 2;
        lemma_pow2_mul(h, b);
        assert(a * b == 2 * (h * b)) by (nonlinear_arith)
            requires
                a == 2 * h,
        ;
        assert((a * b) / 2 == h * b);
        assert(a * b > 1) by (nonlinear_arith)
            requires
                a > 1,
                b >= 1,
        ;
    } else {
        assert(a == 1);
        assert(a * b == b) by (nonlinear_arith)
            requires
                a == 1,
        ;
    }
}

/// Every supported bit size is a power of two.
pub proof fn lemma_bitsize_pow2(n: usize)
    requires
        valid_bitsize(n),
    ensures
        is_pow2(n as nat),
{
    assert(is_pow2(1));
    assert(is_pow2(2));
    assert(is_pow2(4));
    assert(is_pow2(8));
    assert(is_pow2(16));
    assert(is_pow2(32));
    assert(is_pow2(64));
}

/// The indices `i < k` whose share fails its check, in order.
pub open spec fn bad_prefix(d: DealerAwaitingProofShares, shares: Seq<ProofShare>, k: nat) -> Seq<usize>
    decreases k,
{
    if k == 0 {
        Seq::empty()
    } else {
        let i = (k - 1) as nat;
        bad_prefix(d, shares, i) + if d.share_ok(i, shares[i as int]) {
            Seq::<usize>::empty()
        } else {
            seq![i as usize]
        }
    }
}

/// The indices `i < k` whose share's vectors are not `n` long, in order.
pub open spec fn misfit_prefix(n: nat, shares: Seq<ProofShare>, k: nat) -> Seq<usize>
    decreases k,
{
    if k == 0 {
        Seq::empty()
    } else {
        let i = (k - 1) as nat;
        misfit_prefix(n, shares, i) + if shares[i as int].l_vec@.len() == n
            && shares[i as int].r_vec@.len() == n {
            Seq::<usize>::empty()
        } else {
            seq![i as usize]
        }
    }
}

impl<'a> DealerAwaitingProofShares<'a> {
    pub open spec fn wf(&self) -> bool {
        &&& self.gens.wf()
        &&& valid_bitsize(self.n)
        &&& self.n <= self.gens.gens_capacity
        &&& self.m <= self.gens.party_capacity
        &&& is_pow2(self.m as nat)
        &&& self.m * self.n <= usize::MAX
        &&& self.value_commitments@.len() == self.m
        &&& self.poly_commitments@.len() == self.m
        &&& decompresses(self.gens.pedersen_gens.B@)
    }

    /// Whether share `j` checks out against party `j`'s commitments.
    pub open spec fn share_ok(&self, j: nat, share: ProofShare) -> bool {
        audit_spec(
            self.gens,
            self.n as nat,
            j,
            self.value_challenge.y@,
            self.value_challenge.z@,
            self.poly_challenge.x@,
            self.value_commitments@[j as int],
            self.poly_commitments@[j as int],
            share,
        )
    }

    /// What the dealer sends and leaves in the transcript once it has the shares: the summed
    /// scalars, the challenge `w`, `Q = w B`, and the inner-product argument over the
    /// concatenated `l`, `r`, the bases `G` and the bases `y^-i H_i`.
    pub open spec fn assembled(
        &self,
        shares: Seq<ProofShare>,
        log0: Seq<TranscriptEntry>,
        proof: RangeProof,
        log_final: Seq<TranscriptEntry>,
    ) -> bool {
        let log1 = with_message(
            with_message(
                with_message(log0, "t_x".spec_bytes(), proof.t_x.encoding()),
                "t_x_blinding".spec_bytes(),
                proof.t_x_blinding.encoding(),
            ),
            "e_blinding".spec_bytes(),
            proof.e_blinding.encoding(),
        );
        let w = challenge_value(log1, "w".spec_bytes());
        let log2 = with_challenge(log1, "w".spec_bytes());
        let Q = msm_of(seq![w], seq![self.gens.pedersen_gens.B@]);
        let nm = self.n * self.m;
        let o = ipa_spec(
            innerproduct_domain_log(log2, nm as u64),
            Q,
            scalar_values(concat_all(shares.map_values(|s: ProofShare| s.l_vec@))),
            scalar_values(concat_all(shares.map_values(|s: ProofShare| s.r_vec@))),
            point_values(crate::generators::flatten_prefix(self.gens.g_vec(), self.n as nat, self.m as nat)),
            Seq::new(nm as nat, |i: int| 1int),
            point_values(crate::generators::flatten_prefix(self.gens.h_vec(), self.n as nat, self.m as nat)),
            Seq::new(nm as nat, |i: int| fpow(finv(self.value_challenge.y@), i as nat)),
        );
        &&& proof.A == self.A
        &&& proof.S == self.S
        &&& proof.T_1 == self.T_1
        &&& proof.T_2 == self.T_2
        &&& proof.t_x@ == field_sum(shares.map_values(|s: ProofShare| s.t_x@))
        &&& proof.t_x_blinding@ == field_sum(shares.map_values(|s: ProofShare| s.t_x_blinding@))
        &&& proof.e_blinding@ == field_sum(shares.map_values(|s: ProofShare| s.e_blinding@))
        &&& point_values(proof.ipp_proof.L_vec@) == o.0
        &&& point_values(proof.ipp_proof.R_vec@) == o.1
        &&& proof.ipp_proof.a@ == o.2
        &&& proof.ipp_proof.b@ == o.3
        &&& log_final == o.4
    }

    /// Checks party `j`'s share against the party's own commitments.
    pub fn audit_share(&self, j: usize, share: &ProofShare) -> (r: bool)
        requires
            self.wf(),
            j < self.m,
        ensures
            r == self.share_ok(j as nat, *share),
    {
        let n = self.n;
        let gens = self.gens;
        let vc = self.value_commitments[j];
        let pc = self.poly_commitments[j];
        let y = self.value_challenge.y;
        let z = self.value_challenge.z;
        let x = self.poly_challenge.x;
        if share.l_vec.len() != n || share.r_vec.len() != n {
            return false;
        }
        let ip = inner_product(share.l_vec.as_slice(), share.r_vec.as_slice());
        proof {
            vstd::arithmetic::div_mod::lemma_mod_twice(
                inner_product_spec(
                    scalar_values(share.l_vec@),
                    scalar_values(share.r_vec@),
                    (n - 1) as nat,
                ) + fmul(share.l_vec@[n - 1]@, share.r_vec@[n - 1]@),
                crate::scalar::group_order(),
            );
        }
        if !share.t_x.equals(&ip) {
            return false;
        }
        assert(j * n <= usize::MAX) by (nonlinear_arith)
            requires
                j < self.m,
                self.m * n <= usize::MAX,
        ;
        let jn: u64 = (j * n) as u64;
        let y_inv = y.invert();
        let y_jn_inv = scalar_exp_vartime(&y, jn).invert();
        let z_j = scalar_exp_vartime(&z, j as u64);
        let zz = z.mul(&z);
        let zz_zj = zz.mul(&z_j);
        let two = Scalar::from_u64(2);
        let ypow_inv = powers(&y_inv, n);
        let tpow = powers(&two, n);
        let minus_z = z.neg();
        let mut p_sc: Vec<Scalar> = Vec::new();
        p_sc.push(Scalar::one());
        p_sc.push(x);
        p_sc.push(share.e_blinding.neg());
        let mut i: usize = 0;
        while i < n
            invariant
                i <= n,
                share.l_vec@.len() == n,
                p_sc@.len() == 3 + i,
                p_sc@[0]@ == 1 && p_sc@[1]@ == x@ && p_sc@[2]@ == fneg(share.e_blinding@),
                forall|k: int|
                    0 <= k < i ==> (#[trigger] p_sc@[3 + k])@ == fsub(
                        minus_z@,
                        share.l_vec@[k]@,
                    ),
            decreases n - i,
        {
            p_sc.push(minus_z.sub(&share.l_vec[i]));
            i = i + 1;
        }
        let mut i: usize = 0;
        while i < n
            invariant
                i <= n,
                share.l_vec@.len() == n,
                share.r_vec@.len() == n,
                ypow_inv@.len() == n,
                tpow@.len() == n,
                forall|k: int| 0 <= k < n ==> (#[trigger] ypow_inv@[k])@ == fpow(y_inv@, k as nat),
                forall|k: int| 0 <= k < n ==> (#[trigger] tpow@[k])@ == fpow(2, k as nat),
                p_sc@.len() == 3 + n + i,
                p_sc@[0]@ == 1 && p_sc@[1]@ == x@ && p_sc@[2]@ == fneg(share.e_blinding@),
                forall|k: int|
                    0 <= k < n ==> (#[trigger] p_sc@[3 + k])@ == fsub(
                        minus_z@,
                        share.l_vec@[k]@,
                    ),
                forall|k: int|
                    0 <= k < i ==> (#[trigger] p_sc@[3 + n + k])@ == fadd(
                        z@,
                        fmul(
                            fmul(y_jn_inv@, ypow_inv@[k]@),
                            fsub(fmul(zz_zj@, tpow@[k]@), share.r_vec@[k]@),
                        ),
                    ),
            decreases n - i,
        {
            let c = zz_zj.mul(&tpow[i]).sub(&share.r_vec[i]);
            let f = y_jn_inv.mul(&ypow_inv[i]);
            p_sc.push(z.add(&f.mul(&c)));
            i = i + 1;
        }
        let G = gens.party_G(j, n);
        let H = gens.party_H(j, n);
        let mut p_pts: Vec<CompressedPoint> = Vec::new();
        p_pts.push(vc.A);
        p_pts.push(vc.S);
        p_pts.push(gens.pedersen_gens.B_blinding);
        extend(&mut p_pts, G.as_slice());
        extend(&mut p_pts, H.as_slice());
        let ghost l = scalar_values(share.l_vec@);
        let ghost rv = scalar_values(share.r_vec@);
        let ghost want = seq![1int, x@, fneg(share.e_blinding@)] + Seq::new(
            n as nat,
            |i: int| fsub(fneg(z@), l[i]),
        ) + Seq::new(n as nat, |i: int| audit_h_scalar(y@, z@, (j * n) as nat, j as nat, rv[i], i));
        assert(scalar_values(p_sc@) =~= want) by {
            assert forall|k: int| 0 <= k < 3 + 2 * n implies scalar_values(p_sc@)[k] == want[k] by {
                if 3 <= k < 3 + n {
                    let q = k - 3;
                    assert(p_sc@[3 + q]@ == fsub(minus_z@, share.l_vec@[q]@));
                } else if k >= 3 + n {
                    let q = k - 3 - n;
                    assert(p_sc@[3 + n + q]@ == fadd(
                        z@,
                        fmul(
                            fmul(y_jn_inv@, ypow_inv@[q]@),
                            fsub(fmul(zz_zj@, tpow@[q]@), share.r_vec@[q]@),
                        ),
                    ));
                }
            }
        }
        let ghost want_pts = seq![vc.A, vc.S, gens.pedersen_gens.B_blinding] + gens.g_vec()[j as int].subrange(
            0,
            n as int,
        ) + gens.h_vec()[j as int].subrange(0, n as int);
        assert(p_pts@ =~= want_pts);
        let p_ok = match vartime_multiscalar_mul(p_sc.as_slice(), p_pts.as_slice()) {
            Some(p) => p.is_identity(),
            None => false,
        };
        if !p_ok {
            return false;
        }
        let sum_y = sum_of_powers(&y, n);
        let sum_2 = sum_of_powers(&two, n);
        let y_jn = scalar_exp_vartime(&y, jn);
        let delta = z.sub(&zz).mul(&sum_y).mul(&y_jn).sub(&z.mul(&zz).mul(&sum_2).mul(&z_j));
        let mut t_sc: Vec<Scalar> = Vec::new();
        t_sc.push(zz_zj);
        t_sc.push(x);
        t_sc.push(x.mul(&x));
        t_sc.push(delta.sub(&share.t_x));
        t_sc.push(share.t_x_blinding.neg());
        let mut t_pts: Vec<CompressedPoint> = Vec::new();
        t_pts.push(vc.V);
        t_pts.push(pc.T_1);
        t_pts.push(pc.T_2);
        t_pts.push(gens.pedersen_gens.B);
        t_pts.push(gens.pedersen_gens.B_blinding);
        assert(scalar_values(t_sc@) =~= seq![
            fmul(fmul(z@, z@), fpow(z@, j as nat)),
            x@,
            fmul(x@, x@),
            fsub(audit_delta(y@, z@, n as nat, (j * n) as nat, j as nat), share.t_x@),
            fneg(share.t_x_blinding@),
        ]);
        assert(t_pts@ =~= seq![vc.V, pc.T_1, pc.T_2, gens.pedersen_gens.B, gens.pedersen_gens.B_blinding]);
        match vartime_multiscalar_mul(t_sc.as_slice(), t_pts.as_slice()) {
            Some(p) => p.is_identity(),
            None => false,
        }
    }

    /// Sums the shares' scalars, appends them, draws `w`, and runs the inner-product argument
    /// over `Q = w B`, the concatenated `l` and `r` vectors, the bases `G` and the bases
    /// `y^-i H_i`.
    fn assemble(&self, shares: &[ProofShare], transcript: &mut Transcript) -> (r: RangeProof)
        requires
            self.wf(),
            shares@.len() == self.m,
            forall|i: int|
                0 <= i < shares@.len() ==> (#[trigger] shares@[i]).l_vec@.len() == self.n
                    && shares@[i].r_vec@.len() == self.n,
        ensures
            self.assembled(shares@, transcript_log(*old(transcript)), r, transcript_log(*final(transcript))),
    {
        let n = self.n;
        let m = self.m;
        let mut t_x = Scalar::zero();
        let mut t_x_blinding = Scalar::zero();
        let mut e_blinding = Scalar::zero();
        let mut l_all: Vec<Scalar> = Vec::new();
        let mut r_all: Vec<Scalar> = Vec::new();
        let mut i: usize = 0;
        while i < m
            invariant
                i <= m,
                m == shares@.len(),
                m * n <= usize::MAX,
                forall|k: int|
                    0 <= k < shares@.len() ==> (#[trigger] shares@[k]).l_vec@.len() == n
                        && shares@[k].r_vec@.len() == n,
                t_x@ == field_sum(shares@.subrange(0, i as int).map_values(|s: ProofShare| s.t_x@)),
                t_x_blinding@ == field_sum(
                    shares@.subrange(0, i as int).map_values(|s: ProofShare| s.t_x_blinding@),
                ),
                e_blinding@ == field_sum(
                    shares@.subrange(0, i as int).map_values(|s: ProofShare| s.e_blinding@),
                ),
                l_all@ == concat_all(shares@.subrange(0, i as int).map_values(|s: ProofShare| s.l_vec@)),
                r_all@ == concat_all(shares@.subrange(0, i as int).map_values(|s: ProofShare| s.r_vec@)),
                l_all@.len() == n * i,
                r_all@.len() == n * i,
            decreases m - i,
        {
            let ghost pre = shares@.subrange(0, i as int);
            let ghost post = shares@.subrange(0, i + 1);
            let sh = &shares[i];
            t_x = t_x.add(&sh.t_x);
            t_x_blinding = t_x_blinding.add(&sh.t_x_blinding);
            e_blinding = e_blinding.add(&sh.e_blinding);
            extend(&mut l_all, sh.l_vec.as_slice());
            extend(&mut r_all, sh.r_vec.as_slice());
            proof {
                assert(post.drop_last() =~= pre);
                assert(post.map_values(|s: ProofShare| s.t_x@).drop_last() =~= pre.map_values(
                    |s: ProofShare| s.t_x@,
                ));
                assert(post.map_values(|s: ProofShare| s.t_x_blinding@).drop_last() =~= pre.map_values(
                    |s: ProofShare| s.t_x_blinding@,
                ));
                assert(post.map_values(|s: ProofShare| s.e_blinding@).drop_last() =~= pre.map_values(
                    |s: ProofShare| s.e_blinding@,
                ));
                assert(post.map_values(|s: ProofShare| s.l_vec@).drop_last() =~= pre.map_values(
                    |s: ProofShare| s.l_vec@,
                ));
                assert(post.map_values(|s: ProofShare| s.r_vec@).drop_last() =~= pre.map_values(
                    |s: ProofShare| s.r_vec@,
                ));
                assert(n * (i + 1) == n * i + n) by (nonlinear_arith);
                assert(n * (i + 1) <= m * n) by (nonlinear_arith)
                    requires
                        i < m,
                ;
            }
            i = i + 1;
        }
        assert(shares@.subrange(0, m as int) =~= shares@);
        append_scalar(transcript, "t_x".as_bytes(), &t_x);
        append_scalar(transcript, "t_x_blinding".as_bytes(), &t_x_blinding);
        append_scalar(transcript, "e_blinding".as_bytes(), &e_blinding);
        let w = challenge_scalar(transcript, "w".as_bytes());
        let B = self.gens.pedersen_gens.B;
        let ws = vec![w];
        let bs = vec![B];
        assert(scalar_values(ws@) =~= seq![w@]);
        assert(point_values(bs@) =~= seq![B@]);
        assert(all_decompress(bs@));
        let Q = multiscalar_mul(ws.as_slice(), bs.as_slice()).unwrap();
        let nm = l_all.len();
        assert(nm == n * m);
        let G = self.gens.G(n, m);
        let H = self.gens.H(n, m);
        let y_inv = self.value_challenge.y.invert();
        let ypow = powers(&y_inv, nm);
        assert(scalar_values(ypow@) =~= Seq::new(nm as nat, |i: int| fpow(y_inv@, i as nat)));
        proof {
            lemma_bitsize_pow2(n);
            lemma_pow2_mul(n as nat, m as nat);
        }
        let ipp_proof = InnerProductProof::create(transcript, &Q, ypow, G, H, l_all, r_all);
        RangeProof {
            A: self.A,
            S: self.S,
            T_1: self.T_1,
            T_2: self.T_2,
            t_x,
            t_x_blinding,
            e_blinding,
            ipp_proof,
        }
    }

    /// Checks each share against its party's commitments; fails with the indices of the shares
    /// that do not check out, else assembles the proof.
    pub fn receive_shares(self, shares: &[ProofShare], transcript: &mut Transcript) -> (r: Result<
        RangeProof,
        MPCError,
    >)
        requires
            self.wf(),
        ensures
            shares@.len() != self.m ==> r == Err::<RangeProof, MPCError>(
                MPCError::WrongNumProofShares,
            ),
            shares@.len() == self.m && bad_prefix(self, shares@, self.m as nat).len() > 0 ==> (
            match r {
                Err(MPCError::MalformedProofShares { bad_shares }) => bad_shares@ == bad_prefix(
                    self,
                    shares@,
                    self.m as nat,
                ),
                _ => false,
            }),
            r is Err ==> *final(transcript) == *old(transcript),
            shares@.len() == self.m && bad_prefix(self, shares@, self.m as nat).len() == 0 ==> r is Ok,
            r is Ok ==> self.assembled(
                shares@,
                transcript_log(*old(transcript)),
                r->Ok_0,
                transcript_log(*final(transcript)),
            ),
    {
        if shares.len() != self.m {
            return Err(MPCError::WrongNumProofShares);
        }
        let mut bad: Vec<usize> = Vec::new();
        let mut i: usize = 0;
        while i < shares.len()
            invariant
                i <= shares@.len(),
                shares@.len() == self.m,
                self.wf(),
                bad@ == bad_prefix(self, shares@, i as nat),
                bad@.len() == 0 ==> forall|k: int| 0 <= k < i ==> self.share_ok(k as nat, #[trigger] shares@[k]),
            decreases shares@.len() - i,
        {
            if !self.audit_share(i, &shares[i]) {
                bad.push(i);
            }
            proof {
                assert(bad_prefix(self, shares@, i as nat).len() <= bad_prefix(self, shares@, (i + 1) as nat).len());
            }
            i = i + 1;
        }
        if bad.len() > 0 {
            return Err(MPCError::MalformedProofShares { bad_shares: bad });
        }
        assert forall|k: int| 0 <= k < shares@.len() implies (#[trigger] shares@[k]).l_vec@.len() == self.n
            && shares@[k].r_vec@.len() == self.n by {
            assert(self.share_ok(k as nat, shares@[k]));
        }
        Ok(self.assemble(shares, transcript))
    }

    /// Assembles the proof without checking the shares: only for parties that run in one
    /// process with the dealer. Fails with the indices of shares whose vectors do not have
    /// length `n`.
    pub fn receive_trusted_shares(self, shares: &[ProofShare], transcript: &mut Transcript) -> (r:
        Result<RangeProof, MPCError>)
        requires
            self.wf(),
        ensures
            shares@.len() != self.m ==> r == Err::<RangeProof, MPCError>(
                MPCError::WrongNumProofShares,
            ),
            shares@.len() == self.m && misfit_prefix(self.n as nat, shares@, self.m as nat).len() > 0 ==> (
            match r {
                Err(MPCError::MalformedProofShares { bad_shares }) => bad_shares@ == misfit_prefix(
                    self.n as nat,
                    shares@,
                    self.m as nat,
                ),
                _ => false,
            }),
            r is Err ==> *final(transcript) == *old(transcript),
            shares@.len() == self.m && misfit_prefix(self.n as nat, shares@, self.m as nat).len() == 0
                ==> r is Ok,
            r is Ok ==> self.assembled(
                shares@,
                transcript_log(*old(transcript)),
                r->Ok_0,
                transcript_log(*final(transcript)),
            ),
    {
        if shares.len() != self.m {
            return Err(MPCError::WrongNumProofShares);
        }
        let mut bad: Vec<usize> = Vec::new();
        let mut i: usize = 0;
        while i < shares.len()
            invariant
                i <= shares@.len(),
                shares@.len() == self.m,
                bad@ == misfit_prefix(self.n as nat, shares@, i as nat),
                bad@.len() == 0 ==> forall|k: int|
                    0 <= k < i ==> (#[trigger] shares@[k]).l_vec@.len() == self.n
                        && shares@[k].r_vec@.len() == self.n,
            decreases shares@.len() - i,
        {
            if shares[i].l_vec.len() != self.n || shares[i].r_vec.len() != self.n {
                bad.push(i);
            }
            proof {
                assert(misfit_prefix(self.n as nat, shares@, i as nat).len() <= misfit_prefix(
                    self.n as nat,
                    shares@,
                    (i + 1) as nat,
                ).len());
            }
            i = i + 1;
        }
        if bad.len() > 0 {
            return Err(MPCError::MalformedProofShares { bad_shares: bad });
        }
        Ok(self.assemble(shares, transcript))
    }
}

} // verus!

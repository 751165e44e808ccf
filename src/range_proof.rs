//! Aggregated range proofs: proving, verifying, and the wire format.
use crate::errors::ProofError;
use crate::generators::{flatten_prefix, Generators};
use crate::inner_product_proof::{
    innerproduct_domain_log, ipa_challenges, is_pow2, log2, s_spec, InnerProductProof,
};
use crate::party::valid_bitsize;
use crate::point::{
    all_decompress, identity_encoding, point_values, vartime_msm_of, vartime_multiscalar_mul,
    CompressedPoint,
};
use crate::scalar::{fadd, finv, fmul, fneg, fpow, fsub, random_scalar, scalar_values, Scalar};
use crate::transcript::{
    append_point, append_scalar, challenge_scalar, challenge_value, rangeproof_domain_log,
    rangeproof_domain_sep, transcript_log, with_challenge, with_message, TranscriptEntry,
};
use crate::util::{extend, powers, sum_of_powers, sum_of_powers_spec};
use crate::dealer::{
    DealerAwaitingProofShares, DealerAwaitingValueCommitments, concat_all, field_sum, lemma_bitsize_pow2, lemma_pow2_mul, misfit_prefix, ones, with_points,
    Dealer,
};
use crate::messages::{PolyChallenge, ValueChallenge};
use crate::inner_product_proof::lemma_ipa_shape;
use crate::inner_product_proof::{ipa_spec, lemma_ipa_replay};
use crate::point::msm_of;
use crate::messages::{PolyCommitment, ProofShare, ValueCommitment};
use crate::party::{
    a_acc, party_bases, Party, PartyAwaitingPolyChallenge, PartyAwaitingValueChallenge, PartyDraws,
};
use crate::point::decompresses;
use merlin::Transcript;
use rand::rngs::StdRng;
use vstd::arithmetic::div_mod::{
    lemma_add_mod_noop, lemma_mod_twice, lemma_mul_mod_noop_right, lemma_sub_mod_noop,
};
use vstd::arithmetic::mul::lemma_mul_is_distributive_add;
use vstd::prelude::*;
use vstd::string::StringSliceAdditionalSpecFns;

verus! {

/// A proof that each of `m` committed values lies in `[0, 2^n)`. The commitments `V_j` travel
/// beside it.
#[derive(Clone, Debug)]
pub struct RangeProof {
    /// Commitment to the bits of the values.
    pub A: CompressedPoint,
    /// Commitment to the blinding vectors.
    pub S: CompressedPoint,
    /// Commitment to the coefficient `t_1` of `t(X)`.
    pub T_1: CompressedPoint,
    /// Commitment to the coefficient `t_2` of `t(X)`.
    pub T_2: CompressedPoint,
    /// The evaluation `t(x)`.
    pub t_x: Scalar,
    /// The blinding of the commitment to `t(x)`.
    pub t_x_blinding: Scalar,
    /// The blinding of `A + x S`.
    pub e_blinding: Scalar,
    /// The inner-product argument.
    pub ipp_proof: InnerProductProof,
}

/// `delta(y, z) = (z - z^2) sum_{i<nm} y^i - z^3 (sum_{i<n} 2^i) (sum_{j<m} z^j)`.
pub open spec fn delta_spec(n: nat, m: nat, y: int, z: int) -> int {
    fsub(
        fmul(fsub(z, fmul(z, z)), sum_of_powers_spec(y, n * m)),
        fmul(
            fmul(fmul(fmul(z, z), z), sum_of_powers_spec(2, n)),
            sum_of_powers_spec(z, m),
        ),
    )
}

/// `sum_{i<n} ((z - z^2) y^i - z^3 2^i)`, term by term.
pub open spec fn delta_sum(y: int, z: int, n: nat) -> int
    decreases n,
{
    if n == 0 {
        0
    } else {
        let i = (n - 1) as nat;
        fadd(
            delta_sum(y, z, i),
            fsub(fmul(fsub(z, fmul(z, z)), fpow(y, i)), fmul(fmul(fmul(z, z), z), fpow(2, i))),
        )
    }
}

/// The grouped form `(z - z^2) sum y^i - z^3 sum 2^i` equals the term-by-term sum.
proof fn lemma_delta_grouped(a: int, b: int, y: int, n: nat)
    requires
        0 <= a < crate::scalar::group_order(),
        0 <= b < crate::scalar::group_order(),
    ensures
        fsub(fmul(a, sum_of_powers_spec(y, n)), fmul(b, sum_of_powers_spec(2, n))) == (
        delta_grouped_sum(a, b, y, n)),
    decreases n,
{
    let L = crate::scalar::group_order();
    if n > 0 {
        let k = (n - 1) as nat;
        lemma_delta_grouped(a, b, y, k);
        let A = sum_of_powers_spec(y, k);
        let B = sum_of_powers_spec(2, k);
        let yk = fpow(y, k);
        let tk = fpow(2, k);
        let D = delta_grouped_sum(a, b, y, k);
        lemma_mul_mod_noop_right(a, A + yk, L);
        lemma_mul_mod_noop_right(b, B + tk, L);
        lemma_sub_mod_noop(a * (A + yk), b * (B + tk), L);
        lemma_mul_is_distributive_add(a, A, yk);
        lemma_mul_is_distributive_add(b, B, tk);
        assert(a * (A + yk) - b * (B + tk) == (a * A - b * B) + (a * yk - b * tk));
        lemma_sub_mod_noop(a * yk, b * tk, L);
        lemma_sub_mod_noop(a * A, b * B, L);
        lemma_add_mod_noop(D, a * yk - b * tk, L);
        lemma_mod_twice(a * yk - b * tk, L);
        lemma_add_mod_noop(a * A - b * B, a * yk - b * tk, L);
        lemma_mod_twice(a * A - b * B, L);
    }
}

/// `sum_{i<n} (a y^i - b 2^i)`, term by term.
pub open spec fn delta_grouped_sum(a: int, b: int, y: int, n: nat) -> int
    decreases n,
{
    if n == 0 {
        0
    } else {
        let i = (n - 1) as nat;
        fadd(delta_grouped_sum(a, b, y, i), fsub(fmul(a, fpow(y, i)), fmul(b, fpow(2, i))))
    }
}

/// For a single value, `delta(y, z)` is the sum over the bits of
/// `(z - z^2) y^i - z^3 2^i`.
pub proof fn lemma_delta_single_value(n: nat, y: int, z: int)
    ensures
        delta_spec(n, 1, y, z) == delta_sum(y, z, n),
{
    let L = crate::scalar::group_order();
    let a = fsub(z, fmul(z, z));
    let b = fmul(fmul(fmul(z, z), z), sum_of_powers_spec(2, n));
    let c = fmul(fmul(z, z), z);
    assert(n * 1 == n);
    assert(sum_of_powers_spec(z, 1) == 1) by {
        assert(sum_of_powers_spec(z, 0) == 0);
        assert(fpow(z, 0) == 1);
    }
    lemma_mod_twice(fmul(fmul(z, z), z) * sum_of_powers_spec(2, n), L);
    assert(fmul(b, 1) == b);
    lemma_delta_grouped(a, c, y, n);
    lemma_grouped_is_sum(y, z, n);
}

/// The term-by-term sums agree.
proof fn lemma_grouped_is_sum(y: int, z: int, n: nat)
    ensures
        delta_grouped_sum(fsub(z, fmul(z, z)), fmul(fmul(z, z), z), y, n) == delta_sum(y, z, n),
    decreases n,
{
    if n > 0 {
        lemma_grouped_is_sum(y, z, (n - 1) as nat);
    }
}

/// Computes `delta(y, z)` for `m` values of `n` bits.
pub fn delta(n: usize, m: usize, y: &Scalar, z: &Scalar) -> (r: Scalar)
    requires
        n * m <= usize::MAX,
    ensures
        r@ == delta_spec(n as nat, m as nat, y@, z@),
{
    let sum_y = sum_of_powers(y, n * m);
    let two = Scalar::from_u64(2);
    let sum_2 = sum_of_powers(&two, n);
    let sum_z = sum_of_powers(z, m);
    let zz = z.mul(z);
    let a = z.sub(&zz).mul(&sum_y);
    let b = zz.mul(z).mul(&sum_2).mul(&sum_z);
    a.sub(&b)
}

/// `z^j 2^i` for `j < m`, `i < n`, party after party.
pub open spec fn z_and_2(z: int, n: nat, m: nat) -> Seq<int>
    decreases m,
{
    if m == 0 {
        Seq::empty()
    } else {
        z_and_2(z, n, (m - 1) as nat) + Seq::new(
            n,
            |i: int| fmul(fpow(2, i as nat), fpow(z, (m - 1) as nat)),
        )
    }
}

/// The challenges that a verifier draws, in order: `y`, `z`, `x`, `w`, and the log after `w`.
#[verifier::opaque]
pub open spec fn verifier_challenges(
    proof: RangeProof,
    Vs: Seq<Seq<u8>>,
    log0: Seq<TranscriptEntry>,
    n: nat,
) -> (int, int, int, int, Seq<TranscriptEntry>) {
    let m = Vs.len();
    let log1 = with_message(
        with_message(
            with_points(rangeproof_domain_log(log0, n as u64, m as u64), "V".spec_bytes(), Vs),
            "A".spec_bytes(),
            proof.A@,
        ),
        "S".spec_bytes(),
        proof.S@,
    );
    let y = challenge_value(log1, "y".spec_bytes());
    let log2 = with_challenge(log1, "y".spec_bytes());
    let z = challenge_value(log2, "z".spec_bytes());
    let log3 = with_message(
        with_message(with_challenge(log2, "z".spec_bytes()), "T_1".spec_bytes(), proof.T_1@),
        "T_2".spec_bytes(),
        proof.T_2@,
    );
    let x = challenge_value(log3, "x".spec_bytes());
    let log4 = with_message(
        with_message(
            with_message(
                with_challenge(log3, "x".spec_bytes()),
                "t_x".spec_bytes(),
                proof.t_x.encoding(),
            ),
            "t_x_blinding".spec_bytes(),
            proof.t_x_blinding.encoding(),
        ),
        "e_blinding".spec_bytes(),
        proof.e_blinding.encoding(),
    );
    let w = challenge_value(log4, "w".spec_bytes());
    (y, z, x, w, with_challenge(log4, "w".spec_bytes()))
}

/// Whether the inner-product argument has one pair of points per halving of `n m` values.
pub open spec fn ipp_shape_ok(proof: RangeProof, nm: nat) -> bool {
    &&& is_pow2(nm)
    &&& log2(nm) == proof.ipp_proof.L_vec@.len()
    &&& proof.ipp_proof.R_vec@.len() == proof.ipp_proof.L_vec@.len()
    &&& proof.ipp_proof.L_vec@.len() < 32
}

/// The scalars of the verification equation, batched with `c`, in the order of
/// [`verification_bases`]: `A`, `S`, `T_1`, `T_2`, the `L_j`, the `R_j`, `B_blinding`, `B`,
/// the `G_i`, the `H_i` and the `V_j`.
#[verifier::opaque]
pub open spec fn verification_scalars_spec(
    proof: RangeProof,
    n: nat,
    m: nat,
    y: int,
    z: int,
    x: int,
    w: int,
    c: int,
    us: Seq<int>,
) -> Seq<int> {
    let nm = n * m;
    let a = proof.ipp_proof.a@;
    let b = proof.ipp_proof.b@;
    let zz = fmul(z, z);
    let zt = z_and_2(z, n, m);
    let y_inv = finv(y);
    seq![1int, x, fmul(c, x), fmul(fmul(c, x), x)] + Seq::new(
        us.len(),
        |j: int| fmul(us[j], us[j]),
    ) + Seq::new(us.len(), |j: int| fmul(finv(us[j]), finv(us[j]))) + seq![
        fsub(fneg(proof.e_blinding@), fmul(c, proof.t_x_blinding@)),
        fadd(
            fmul(w, fsub(proof.t_x@, fmul(a, b))),
            fmul(c, fsub(delta_spec(n, m, y, z), proof.t_x@)),
        ),
    ] + Seq::new(nm, |i: int| fsub(fneg(z), fmul(a, s_spec(us, i as usize)))) + Seq::new(
        nm,
        |i: int|
            fadd(
                z,
                fmul(
                    fpow(y_inv, i as nat),
                    fsub(fmul(zz, zt[i]), fmul(b, s_spec(us, (nm - 1 - i) as usize))),
                ),
            ),
    ) + Seq::new(m, |j: int| fmul(fmul(c, zz), fpow(z, j as nat)))
}

/// The bases of the verification equation.
#[verifier::opaque]
pub open spec fn verification_bases(
    proof: RangeProof,
    Vs: Seq<Seq<u8>>,
    gens: &Generators,
    n: nat,
) -> Seq<Seq<u8>> {
    let m = Vs.len();
    seq![proof.A@, proof.S@, proof.T_1@, proof.T_2@] + point_values(proof.ipp_proof.L_vec@)
        + point_values(proof.ipp_proof.R_vec@) + seq![
        gens.pedersen_gens.B_blinding@,
        gens.pedersen_gens.B@,
    ] + point_values(flatten_prefix(gens.g_vec(), n, m)) + point_values(
        flatten_prefix(gens.h_vec(), n, m),
    ) + Vs
}

/// What verification with the batching scalar `c` returns.
pub open spec fn verify_outcome(
    proof: RangeProof,
    Vs: Seq<Seq<u8>>,
    gens: &Generators,
    log0: Seq<TranscriptEntry>,
    n: usize,
    c: int,
) -> Result<(), ProofError> {
    let m = Vs.len();
    if !valid_bitsize(n) {
        Err(ProofError::InvalidBitsize)
    } else if gens.gens_capacity < n || gens.party_capacity < m {
        Err(ProofError::InvalidGeneratorsLength)
    } else if !ipp_shape_ok(proof, (n * m) as nat) {
        Err(ProofError::VerificationError)
    } else {
        let (y, z, x, w, log) = verifier_challenges(proof, Vs, log0, n as nat);
        let (us, _) = ipa_challenges(
            innerproduct_domain_log(log, (n * m) as u64),
            point_values(proof.ipp_proof.L_vec@),
            point_values(proof.ipp_proof.R_vec@),
        );
        let bases = verification_bases(proof, Vs, gens, n as nat);
        if all_decompress_seq(bases) && vartime_msm_of(
            verification_scalars_spec(proof, n as nat, m, y, z, x, w, c, us),
            bases,
        ) == identity_encoding() {
            Ok(())
        } else {
            Err(ProofError::VerificationError)
        }
    }
}

/// What verification leaves in the transcript: nothing where the bit size, the generators or
/// the proof's shape are wrong, else the log of the verifier's replay.
pub open spec fn verify_leaves(
    proof: RangeProof,
    Vs: Seq<Seq<u8>>,
    gens: &Generators,
    n: usize,
    before: Transcript,
    after: Transcript,
) -> bool {
    if valid_bitsize(n) && gens.gens_capacity >= n && gens.party_capacity >= Vs.len()
        && ipp_shape_ok(proof, (n * Vs.len()) as nat) {
        transcript_log(after) == RangeProof::verifier_log(proof, Vs, transcript_log(before), n)
    } else {
        after == before
    }
}

/// The commitment `A` of party `j` for the value `v` of `n` bits and the blinding `a_blinding`.
pub open spec fn party_A(gens: &Generators, v: u64, a_blinding: int, j: int, n: usize) -> Seq<u8> {
    a_acc(
        v,
        point_values(gens.g_vec()[j].subrange(0, n as int)),
        point_values(gens.h_vec()[j].subrange(0, n as int)),
        msm_of(seq![a_blinding], seq![gens.pedersen_gens.B_blinding@]),
        n as nat,
    )
}

/// The commitment `S` of party `j` for the drawn blindings `d`.
pub open spec fn party_S(gens: &Generators, d: PartyDraws, j: int, n: usize) -> Seq<u8> {
    msm_of(
        seq![d.s_blinding@] + scalar_values(d.s_L@) + scalar_values(d.s_R@),
        party_bases(
            gens.pedersen_gens.B_blinding@,
            point_values(gens.g_vec()[j].subrange(0, n as int)),
            point_values(gens.h_vec()[j].subrange(0, n as int)),
        ),
    )
}

/// Whether the parameters of a proof of `values` under `blindings` with `n` bits are valid.
pub open spec fn prove_params_ok(gens: &Generators, values: Seq<u64>, blindings: Seq<Scalar>, n: usize) -> bool {
    &&& values.len() == blindings.len()
    &&& valid_bitsize(n)
    &&& gens.gens_capacity >= n
    &&& gens.party_capacity >= values.len()
    &&& is_pow2(values.len() as nat)
}

/// What proving `values` under `blindings` returns and leaves in the transcript, whatever the
/// parties drew: the parameter errors, in order, with the transcript untouched; otherwise a
/// proof, or `MaliciousDealer` only where the challenge `x` drawn from the transcript is zero.
/// A proof has one `L_j`, `R_j` per halving of the `n m` values and canonical scalars, and
/// leaves the transcript exactly where a verifier's replay of it ends.
pub open spec fn prove_outcome(
    gens: &Generators,
    values: Seq<u64>,
    blindings: Seq<Scalar>,
    n: usize,
    before: Transcript,
    after: Transcript,
    r: Result<RangeProof, ProofError>,
) -> bool {
    let m = values.len();
    &&& m != blindings.len() ==> r == Err::<RangeProof, ProofError>(
        ProofError::WrongNumBlindingFactors,
    )
    &&& m == blindings.len() && !valid_bitsize(n) ==> r == Err::<RangeProof, ProofError>(
        ProofError::InvalidBitsize,
    )
    &&& m == blindings.len() && valid_bitsize(n) && (gens.gens_capacity < n || gens.party_capacity
        < m) ==> r == Err::<RangeProof, ProofError>(ProofError::InvalidGeneratorsLength)
    &&& m == blindings.len() && valid_bitsize(n) && gens.gens_capacity >= n && gens.party_capacity
        >= m && !is_pow2(m as nat) ==> r == Err::<RangeProof, ProofError>(
        ProofError::ProvingError(crate::errors::MPCError::InvalidAggregation),
    )
    &&& !prove_params_ok(gens, values, blindings, n) ==> after == before
    &&& prove_params_ok(gens, values, blindings, n) ==> (r is Ok || r == Err::<
        RangeProof,
        ProofError,
    >(ProofError::ProvingError(crate::errors::MPCError::MaliciousDealer)))
    &&& r == Err::<RangeProof, ProofError>(
        ProofError::ProvingError(crate::errors::MPCError::MaliciousDealer),
    ) ==> exists|log: Seq<TranscriptEntry>|
        transcript_log(after) == #[trigger] with_challenge(log, "x".spec_bytes())
            && challenge_value(log, "x".spec_bytes()) % crate::scalar::group_order() == 0
    &&& r is Ok ==> proof_wf(r->Ok_0) && r->Ok_0.ipp_proof.L_vec@.len() == log2((n * m) as nat)
        && transcript_log(after) == RangeProof::verifier_log(
        r->Ok_0,
        RangeProof::commitments_spec(gens, values, blindings),
        transcript_log(before),
        n,
    )
}

/// The prover draws `y`, `z`, `x` and `w` from the same log as a verifier that replays its
/// proof.
proof fn lemma_prover_challenges(
    proof: RangeProof,
    Vs: Seq<Seq<u8>>,
    log_a: Seq<TranscriptEntry>,
    n: usize,
    log_b: Seq<TranscriptEntry>,
    A: CompressedPoint,
    S: CompressedPoint,
    log_c: Seq<TranscriptEntry>,
    log2: Seq<TranscriptEntry>,
)
    requires
        log_b == with_challenge(
            with_challenge(
                with_message(
                    with_message(
                        with_points(
                            rangeproof_domain_log(log_a, n as u64, Vs.len() as u64),
                            "V".spec_bytes(),
                            Vs,
                        ),
                        "A".spec_bytes(),
                        A@,
                    ),
                    "S".spec_bytes(),
                    S@,
                ),
                "y".spec_bytes(),
            ),
            "z".spec_bytes(),
        ),
        log_c == with_challenge(
            with_message(
                with_message(log_b, "T_1".spec_bytes(), proof.T_1@),
                "T_2".spec_bytes(),
                proof.T_2@,
            ),
            "x".spec_bytes(),
        ),
        proof.A == A,
        proof.S == S,
        log2 == with_challenge(
            with_message(
                with_message(
                    with_message(log_c, "t_x".spec_bytes(), proof.t_x.encoding()),
                    "t_x_blinding".spec_bytes(),
                    proof.t_x_blinding.encoding(),
                ),
                "e_blinding".spec_bytes(),
                proof.e_blinding.encoding(),
            ),
            "w".spec_bytes(),
        ),
    ensures
        verifier_challenges(proof, Vs, log_a, n as nat).4 == log2,
{
    reveal(verifier_challenges);
}

/// The proof that the dealer assembles has one `L_j`, `R_j` per halving of the `n m` values and
/// canonical scalars, and leaves the transcript where replaying its points ends.
proof fn lemma_assembled_shape(
    d: DealerAwaitingProofShares,
    shares: Seq<ProofShare>,
    log_c: Seq<TranscriptEntry>,
    proof: RangeProof,
    log_f: Seq<TranscriptEntry>,
    log_w: Seq<TranscriptEntry>,
)
    requires
        d.wf(),
        d.assembled(shares, log_c, proof, log_f),
        shares.len() == d.m,
        forall|k: int| 0 <= k < shares.len() ==> (#[trigger] shares[k]).l_vec@.len() == d.n
            && shares[k].r_vec@.len() == d.n,
        log_w == with_challenge(
            with_message(
                with_message(
                    with_message(log_c, "t_x".spec_bytes(), proof.t_x.encoding()),
                    "t_x_blinding".spec_bytes(),
                    proof.t_x_blinding.encoding(),
                ),
                "e_blinding".spec_bytes(),
                proof.e_blinding.encoding(),
            ),
            "w".spec_bytes(),
        ),
    ensures
        proof_wf(proof),
        proof.ipp_proof.L_vec@.len() == log2((d.n * d.m) as nat),
        log_f == ipa_challenges(
            innerproduct_domain_log(log_w, (d.n * d.m) as u64),
            point_values(proof.ipp_proof.L_vec@),
            point_values(proof.ipp_proof.R_vec@),
        ).1,
{
    let n = d.n;
    let m = d.m;
    let nm = (n * m) as nat;
    let log1 = with_message(
        with_message(
            with_message(log_c, "t_x".spec_bytes(), proof.t_x.encoding()),
            "t_x_blinding".spec_bytes(),
            proof.t_x_blinding.encoding(),
        ),
        "e_blinding".spec_bytes(),
        proof.e_blinding.encoding(),
    );
    let w = challenge_value(log1, "w".spec_bytes());
    let Q = msm_of(seq![w], seq![d.gens.pedersen_gens.B@]);
    let la = scalar_values(concat_all(shares.map_values(|s: ProofShare| s.l_vec@)));
    let lb = scalar_values(concat_all(shares.map_values(|s: ProofShare| s.r_vec@)));
    let G = point_values(flatten_prefix(d.gens.g_vec(), n as nat, m as nat));
    let Gf = Seq::new(nm, |i: int| 1int);
    let H = point_values(flatten_prefix(d.gens.h_vec(), n as nat, m as nat));
    let Hf = Seq::new(nm, |i: int| fpow(finv(d.value_challenge.y@), i as nat));
    lemma_ipa_replay(innerproduct_domain_log(log_w, nm as u64), Q, la, lb, G, Gf, H, Hf);
    lemma_bitsize_pow2(n);
    lemma_pow2_mul(n as nat, m as nat);
    lemma_concat_len(shares.map_values(|s: ProofShare| s.l_vec@), n as nat);
    lemma_concat_len(shares.map_values(|s: ProofShare| s.r_vec@), n as nat);
    assert(n * m >= 2) by (nonlinear_arith)
        requires
            n >= 8,
            m >= 1,
    ;
    lemma_ipa_shape(innerproduct_domain_log(log_w, nm as u64), Q, la, lb, G, Gf, H, Hf);
    lemma_field_sum_reduced(shares.map_values(|s: ProofShare| s.t_x@));
    lemma_field_sum_reduced(shares.map_values(|s: ProofShare| s.t_x_blinding@));
    lemma_field_sum_reduced(shares.map_values(|s: ProofShare| s.e_blinding@));
}

/// Runs the aggregation protocol once the dealer has written the domain separator: the parties
/// commit with their drawn blindings, the dealer draws the challenges, and the shares are
/// assembled.
#[verifier::rlimit(100)]
fn run_protocol<'a>(
    dealer: DealerAwaitingValueCommitments<'a>,
    generators: &'a Generators,
    transcript: &mut Transcript,
    values: &[u64],
    blindings: &[Scalar],
    draws: &[PartyDraws],
    n: usize,
    Ghost(log_a): Ghost<Seq<TranscriptEntry>>,
) -> (r: Result<RangeProof, ProofError>)
    requires
        dealer.wf(),
        dealer.gens == generators,
        dealer.n == n,
        dealer.m == values@.len(),
        generators.wf(),
        values@.len() == blindings@.len(),
        draws@.len() == values@.len(),
        forall|j: int| 0 <= j < draws@.len() ==> (#[trigger] draws@[j]).fits(n),
        transcript_log(*old(transcript)) == rangeproof_domain_log(
            log_a,
            n as u64,
            values@.len() as u64,
        ),
    ensures
        r is Err ==> r == Err::<RangeProof, ProofError>(
            ProofError::ProvingError(crate::errors::MPCError::MaliciousDealer),
        ) && exists|log: Seq<TranscriptEntry>|
            transcript_log(*final(transcript)) == #[trigger] with_challenge(log, "x".spec_bytes())
                && challenge_value(log, "x".spec_bytes()) % crate::scalar::group_order() == 0,
        r is Ok ==> proof_wf(r->Ok_0) && r->Ok_0.ipp_proof.L_vec@.len() == log2(
            (n * values@.len()) as nat,
        ) && transcript_log(*final(transcript)) == RangeProof::verifier_log(
            r->Ok_0,
            RangeProof::commitments_spec(generators, values@, blindings@),
            log_a,
            n,
        ),
        r is Ok ==> r->Ok_0.A@ == msm_of(
            ones(values@.len() as nat),
            Seq::new(
                values@.len() as nat,
                |j: int| party_A(generators, values@[j], draws@[j].a_blinding@, j, n),
            ),
        ),
        r is Ok ==> r->Ok_0.S@ == msm_of(
            ones(values@.len() as nat),
            Seq::new(values@.len() as nat, |j: int| party_S(generators, draws@[j], j, n)),
        ),
{
    let m = values.len();
        assert(m * n <= generators.gens_capacity * generators.party_capacity) by (nonlinear_arith)
            requires
                m <= generators.party_capacity,
                n <= generators.gens_capacity,
        ;
        let (parties, vcs) = commit_all(generators, values, blindings, draws, n);
        let ghost log_dom = transcript_log(*transcript);
        let (dealer, value_challenge) = match dealer.receive_value_commitments(vcs, transcript) {
            Ok(t) => t,
            Err(e) => {
                return Err(ProofError::ProvingError(e));
            },
        };
        let (waiting, pcs) = challenge_all(parties, &value_challenge, draws, n);
        let ghost log_b = transcript_log(*transcript);
        let ghost dA = dealer.A;
        let ghost dS = dealer.S;
        let (dealer, poly_challenge) = match dealer.receive_poly_commitments(pcs, transcript) {
            Ok(t) => t,
            Err(e) => {
                return Err(ProofError::ProvingError(e));
            },
        };
        let ghost lw = with_message(
            with_message(log_b, "T_1".spec_bytes(), dealer.T_1@),
            "T_2".spec_bytes(),
            dealer.T_2@,
        );
        let shares = match share_all(waiting, &poly_challenge, n) {
            Ok(sh) => sh,
            Err(e) => {
                assert(transcript_log(*transcript) == with_challenge(lw, "x".spec_bytes()));
                assert(challenge_value(lw, "x".spec_bytes()) % crate::scalar::group_order() == 0);
                return Err(ProofError::ProvingError(e));
            },
        };
        proof {
            assert forall|k: nat| k <= m implies misfit_prefix(n as nat, shares@, k).len() == 0 by {
                lemma_no_misfits(n as nat, shares@, k);
            }
        }
        let ghost log_c = transcript_log(*transcript);
        let ghost d3 = dealer;
        match dealer.receive_trusted_shares(shares.as_slice(), transcript) {
            Ok(proof) => {
                proof {
                    let Vs = RangeProof::commitments_spec(generators, values@, blindings@);
                    let log1 = with_message(
                        with_message(
                            with_message(log_c, "t_x".spec_bytes(), proof.t_x.encoding()),
                            "t_x_blinding".spec_bytes(),
                            proof.t_x_blinding.encoding(),
                        ),
                        "e_blinding".spec_bytes(),
                        proof.e_blinding.encoding(),
                    );
                    let log2 = with_challenge(log1, "w".spec_bytes());
                    lemma_prover_challenges(proof, Vs, log_a, n, log_b, dA, dS, log_c, log2);
                    lemma_assembled_shape(d3, shares@, log_c, proof, transcript_log(*transcript), log2);
                }
                Ok(proof)
            },
            Err(e) => Err(ProofError::ProvingError(e)),
        }
    }

/// The length of a concatenation of sequences of length `n` each.
proof fn lemma_concat_len(s: Seq<Seq<Scalar>>, n: nat)
    requires
        forall|i: int| 0 <= i < s.len() ==> (#[trigger] s[i]).len() == n,
    ensures
        concat_all(s).len() == n * s.len(),
    decreases s.len(),
{
    if s.len() > 0 {
        lemma_concat_len(s.drop_last(), n);
        assert(n * s.len() == n * (s.len() - 1) + n) by (nonlinear_arith)
            requires
                s.len() > 0,
        ;
    }
}

/// A field sum is a reduced field element.
proof fn lemma_field_sum_reduced(s: Seq<int>)
    ensures
        0 <= field_sum(s) < crate::scalar::group_order(),
{
}

/// Each party takes its position and commits to its value's bits with its drawn blindings.
fn commit_all<'a>(
    generators: &'a Generators,
    values: &[u64],
    blindings: &[Scalar],
    draws: &[PartyDraws],
    n: usize,
) -> (r: (Vec<PartyAwaitingValueChallenge<'a>>, Vec<ValueCommitment>))
    requires
        generators.wf(),
        valid_bitsize(n),
        n <= generators.gens_capacity,
        values@.len() <= generators.party_capacity,
        values@.len() * n <= usize::MAX,
        blindings@.len() == values@.len(),
        draws@.len() == values@.len(),
        forall|k: int| 0 <= k < draws@.len() ==> (#[trigger] draws@[k]).fits(n),
    ensures
        ({
            let (parties, vcs) = r;
            let m = values@.len();
            &&& parties@.len() == m
            &&& vcs@.len() == m
            &&& forall|k: int|
                0 <= k < m ==> (#[trigger] parties@[k]).wf() && parties@[k].n() == n
                    && parties@[k].j() == k
            &&& forall|k: int|
                0 <= k < m ==> decompresses((#[trigger] vcs@[k]).A@) && decompresses(vcs@[k].S@)
            &&& forall|k: int|
                0 <= k < m ==> (#[trigger] vcs@[k]).A@ == party_A(
                    generators,
                    values@[k],
                    draws@[k].a_blinding@,
                    k,
                    n,
                ) && vcs@[k].S@ == party_S(generators, draws@[k], k, n)
            &&& forall|k: int|
                0 <= k < m ==> (#[trigger] vcs@[k]).V@ == RangeProof::commitments_spec(
                    generators,
                    values@,
                    blindings@,
                )[k]
            &&& all_decompress(vcs@.map_values(|c: ValueCommitment| c.A))
            &&& all_decompress(vcs@.map_values(|c: ValueCommitment| c.S))
            &&& point_values(vcs@.map_values(|c: ValueCommitment| c.A)) == Seq::new(
                m,
                |j: int| party_A(generators, values@[j], draws@[j].a_blinding@, j, n),
            )
            &&& point_values(vcs@.map_values(|c: ValueCommitment| c.S)) == Seq::new(
                m,
                |j: int| party_S(generators, draws@[j], j, n),
            )
            &&& point_values(vcs@.map_values(|c: ValueCommitment| c.V))
                == RangeProof::commitments_spec(generators, values@, blindings@)
        }),
{
    let m = values.len();
        let mut parties: Vec<PartyAwaitingValueChallenge> = Vec::new();
        let mut vcs: Vec<ValueCommitment> = Vec::new();
        let mut j: usize = 0;
        while j < m
            invariant
                j <= m,
                m == values@.len(),
                m == blindings@.len(),
                generators.wf(),
                valid_bitsize(n),
                n <= generators.gens_capacity,
                m <= generators.party_capacity,
                m * n <= usize::MAX,
                parties@.len() == j,
                vcs@.len() == j,
                forall|k: int|
                    0 <= k < j ==> (#[trigger] parties@[k]).wf() && parties@[k].n() == n
                        && parties@[k].j() == k,
                forall|k: int|
                    0 <= k < j ==> decompresses((#[trigger] vcs@[k]).A@) && decompresses(vcs@[k].S@),
                draws@.len() == m,
                forall|k: int| 0 <= k < draws@.len() ==> (#[trigger] draws@[k]).fits(n),
                forall|k: int|
                    0 <= k < j ==> (#[trigger] vcs@[k]).A@ == party_A(
                        generators,
                        values@[k],
                        draws@[k].a_blinding@,
                        k,
                        n,
                    ) && vcs@[k].S@ == party_S(generators, draws@[k], k, n),
                forall|k: int|
                    0 <= k < j ==> (#[trigger] vcs@[k]).V@ == RangeProof::commitments_spec(
                        generators,
                        values@,
                        blindings@,
                    )[k],
            decreases m - j,
        {
            let p = match Party::new(values[j], blindings[j], n, generators) {
                Ok(p) => p,
                Err(e) => {
                    assert(false);
                    return (parties, vcs);
                },
            };
            assert(j * n <= u64::MAX) by (nonlinear_arith)
                requires
                    j < m,
                    m * n <= usize::MAX,
                    usize::MAX <= u64::MAX,
            ;
            let d = &draws[j];
            let sL = crate::util::copy_range(d.s_L.as_slice(), 0, d.s_L.len());
            let sR = crate::util::copy_range(d.s_R.as_slice(), 0, d.s_R.len());
            assert(sL@ =~= d.s_L@);
            assert(sR@ =~= d.s_R@);
            let (p2, vc) = p.assign_position_with(j, d.a_blinding, d.s_blinding, sL, sR);
            parties.push(p2);
            vcs.push(vc);
            j = j + 1;
        }
        proof {
            let ps = vcs@.map_values(|c: ValueCommitment| c.A);
            assert forall|k: int| 0 <= k < ps.len() implies decompresses((#[trigger] ps[k])@) by {
                assert(decompresses(vcs@[k].A@));
            }
            assert(all_decompress(ps));
        }
        proof {
            let ps = vcs@.map_values(|c: ValueCommitment| c.S);
            assert forall|k: int| 0 <= k < ps.len() implies decompresses((#[trigger] ps[k])@) by {
                assert(decompresses(vcs@[k].S@));
            }
            assert(all_decompress(ps));
        }
    assert(point_values(vcs@.map_values(|c: ValueCommitment| c.A)) =~= Seq::new(
        m as nat,
        |j: int| party_A(generators, values@[j], draws@[j].a_blinding@, j, n),
    ));
    assert(point_values(vcs@.map_values(|c: ValueCommitment| c.S)) =~= Seq::new(
        m as nat,
        |j: int| party_S(generators, draws@[j], j, n),
    ));
    assert(point_values(vcs@.map_values(|c: ValueCommitment| c.V)) =~= RangeProof::commitments_spec(
        generators,
        values@,
        blindings@,
    ));
    (parties, vcs)
}

/// Each party applies the challenges `y`, `z` with its drawn blindings of `T_1`, `T_2`.
fn challenge_all<'a>(
    parties: Vec<PartyAwaitingValueChallenge<'a>>,
    value_challenge: &ValueChallenge,
    draws: &[PartyDraws],
    n: usize,
) -> (r: (Vec<PartyAwaitingPolyChallenge>, Vec<PolyCommitment>))
    requires
        draws@.len() == parties@.len(),
        forall|k: int| 0 <= k < parties@.len() ==> (#[trigger] parties@[k]).wf() && parties@[k].n() == n,
    ensures
        ({
            let (waiting, pcs) = r;
            &&& waiting@.len() == parties@.len()
            &&& pcs@.len() == parties@.len()
            &&& forall|k: int|
                0 <= k < waiting@.len() ==> (#[trigger] waiting@[k]).wf()
                    && waiting@[k].l_poly().0.len() == n && waiting@[k].r_poly().0.len() == n
            &&& all_decompress(pcs@.map_values(|c: PolyCommitment| c.T_1))
            &&& all_decompress(pcs@.map_values(|c: PolyCommitment| c.T_2))
        }),
{
    let m = parties.len();
    let mut parties = parties;
        let mut waiting: Vec<PartyAwaitingPolyChallenge> = Vec::new();
        let mut pcs: Vec<PolyCommitment> = Vec::new();
        while parties.len() > 0
            invariant
                waiting@.len() + parties@.len() == m,
                draws@.len() == m,
                pcs@.len() == waiting@.len(),
                forall|k: int|
                    0 <= k < parties@.len() ==> (#[trigger] parties@[k]).wf() && parties@[k].n() == n,
                forall|k: int|
                    0 <= k < waiting@.len() ==> (#[trigger] waiting@[k]).wf()
                        && waiting@[k].l_poly().0.len() == n && waiting@[k].r_poly().0.len() == n,
                forall|k: int|
                    0 <= k < pcs@.len() ==> decompresses((#[trigger] pcs@[k]).T_1@) && decompresses(
                        pcs@[k].T_2@,
                    ),
            decreases parties@.len(),
        {
            let p = parties.remove(0);
            assert(p.wf());
            let d = &draws[waiting.len()];
            let (p2, pc) = p.apply_challenge_with(&value_challenge, d.t_1_blinding, d.t_2_blinding);
            waiting.push(p2);
            pcs.push(pc);
        }
        proof {
            let ps = pcs@.map_values(|c: PolyCommitment| c.T_1);
            assert forall|k: int| 0 <= k < ps.len() implies decompresses((#[trigger] ps[k])@) by {
                assert(decompresses(pcs@[k].T_1@));
            }
            assert(all_decompress(ps));
        }
        proof {
            let ps = pcs@.map_values(|c: PolyCommitment| c.T_2);
            assert forall|k: int| 0 <= k < ps.len() implies decompresses((#[trigger] ps[k])@) by {
                assert(decompresses(pcs@[k].T_2@));
            }
            assert(all_decompress(ps));
        }
    (waiting, pcs)
}

/// Each party evaluates at the challenge `x`; fails with `MaliciousDealer` only where `x` is
/// zero.
fn share_all(waiting: Vec<PartyAwaitingPolyChallenge>, poly_challenge: &PolyChallenge, n: usize) -> (r:
    Result<Vec<ProofShare>, crate::errors::MPCError>)
    requires
        forall|k: int|
            0 <= k < waiting@.len() ==> (#[trigger] waiting@[k]).wf() && waiting@[k].l_poly().0.len()
                == n && waiting@[k].r_poly().0.len() == n,
    ensures
        r is Err ==> r == Err::<Vec<ProofShare>, crate::errors::MPCError>(
            crate::errors::MPCError::MaliciousDealer,
        ) && poly_challenge.x@ % crate::scalar::group_order() == 0,
        r is Ok ==> r->Ok_0@.len() == waiting@.len() && forall|k: int|
            0 <= k < r->Ok_0@.len() ==> (#[trigger] r->Ok_0@[k]).l_vec@.len() == n
                && r->Ok_0@[k].r_vec@.len() == n,
{
    let m = waiting.len();
    let mut waiting = waiting;
        let mut shares: Vec<ProofShare> = Vec::new();
        while waiting.len() > 0
            invariant
                shares@.len() + waiting@.len() == m,
                forall|k: int|
                    0 <= k < waiting@.len() ==> (#[trigger] waiting@[k]).wf()
                        && waiting@[k].l_poly().0.len() == n && waiting@[k].r_poly().0.len() == n,
                forall|k: int|
                    0 <= k < shares@.len() ==> (#[trigger] shares@[k]).l_vec@.len() == n
                        && shares@[k].r_vec@.len() == n,
            decreases waiting@.len(),
        {
            let p = waiting.remove(0);
            assert(p.wf());
            match p.apply_challenge(&poly_challenge) {
                Ok(share) => {
                    shares.push(share);
                },
                Err(e) => {
                    return Err(e);
                },
            }
        }
    Ok(shares)
}

/// Whether every encoding of a sequence is a group element.
pub open spec fn all_decompress_seq(p: Seq<Seq<u8>>) -> bool {
    forall|i: int| 0 <= i < p.len() ==> crate::point::decompresses(#[trigger] p[i])
}

/// The vector `z^j 2^i` for `j < m`, `i < n`, party after party.
fn z_and_2_vec(z: &Scalar, n: usize, m: usize) -> (r: Vec<Scalar>)
    requires
        n * m <= usize::MAX,
    ensures
        scalar_values(r@) == z_and_2(z@, n as nat, m as nat),
        r@.len() == n * m,
{
    let two = Scalar::from_u64(2);
    let tpow = powers(&two, n);
    let mut out: Vec<Scalar> = Vec::new();
    let mut zj = Scalar::one();
    let mut j: usize = 0;
    while j < m
        invariant
            j <= m,
            n * m <= usize::MAX,
            tpow@.len() == n,
            forall|k: int| 0 <= k < n ==> (#[trigger] tpow@[k])@ == fpow(2, k as nat),
            zj@ == fpow(z@, j as nat),
            scalar_values(out@) == z_and_2(z@, n as nat, j as nat),
            out@.len() == n * j,
        decreases m - j,
    {
        let ghost before = out@;
        let mut i: usize = 0;
        while i < n
            invariant
                i <= n,
                j < m,
                tpow@.len() == n,
                forall|k: int| 0 <= k < n ==> (#[trigger] tpow@[k])@ == fpow(2, k as nat),
                zj@ == fpow(z@, j as nat),
                out@.len() == before.len() + i,
                out@.subrange(0, before.len() as int) == before,
                forall|k: int|
                    0 <= k < i ==> (#[trigger] out@[before.len() + k])@ == fmul(
                        fpow(2, k as nat),
                        fpow(z@, j as nat),
                    ),
            decreases n - i,
        {
            out.push(tpow[i].mul(&zj));
            i = i + 1;
            assert(out@.subrange(0, before.len() as int) =~= before);
        }
        proof {
            let piece = Seq::new(n as nat, |i: int| fmul(fpow(2, i as nat), fpow(z@, j as nat)));
            assert forall|k: int| 0 <= k < out@.len() implies scalar_values(out@)[k] == (
            scalar_values(before) + piece)[k] by {
                if k >= before.len() {
                    let q = k - before.len();
                    assert(out@[before.len() + q]@ == piece[q]);
                } else {
                    assert(out@[k] == out@.subrange(0, before.len() as int)[k]);
                }
            }
            assert(scalar_values(out@) =~= scalar_values(before) + piece);
            assert(n * (j + 1) == n * j + n) by (nonlinear_arith);
            assert(n * (j + 1) <= n * m) by (nonlinear_arith)
                requires
                    j < m,
            ;
        }
        zj = zj.mul(z);
        j = j + 1;
    }
    out
}

/// `-z - a s_i` for each `i`.
fn g_coeffs(minus_z: &Scalar, a: &Scalar, s: &[Scalar]) -> (r: Vec<Scalar>)
    ensures
        r@.len() == s@.len(),
        forall|k: int| 0 <= k < s@.len() ==> (#[trigger] r@[k])@ == fsub(minus_z@, fmul(a@, s@[k]@)),
{
    let mut g: Vec<Scalar> = Vec::new();
    let mut i: usize = 0;
    while i < s.len()
        invariant
            i <= s@.len(),
            g@.len() == i,
            forall|k: int| 0 <= k < i ==> (#[trigger] g@[k])@ == fsub(minus_z@, fmul(a@, s@[k]@)),
        decreases s@.len() - i,
    {
        g.push(minus_z.sub(&a.mul(&s[i])));
        i = i + 1;
    }
    g
}

/// `z + y^-i (z^2 zt_i - b s_(len - 1 - i))` for each `i`.
fn h_coeffs(z: &Scalar, zz: &Scalar, b: &Scalar, y_inv: &Scalar, zt: &[Scalar], s: &[Scalar]) -> (r:
    Vec<Scalar>)
    requires
        zt@.len() == s@.len(),
    ensures
        r@.len() == s@.len(),
        forall|k: int|
            0 <= k < s@.len() ==> (#[trigger] r@[k])@ == fadd(
                z@,
                fmul(
                    fpow(y_inv@, k as nat),
                    fsub(fmul(zz@, zt@[k]@), fmul(b@, s@[s@.len() - 1 - k]@)),
                ),
            ),
{
    let nm = s.len();
    let ypow = powers(y_inv, nm);
    let mut h: Vec<Scalar> = Vec::new();
    let mut i: usize = 0;
    while i < nm
        invariant
            i <= nm,
            nm == s@.len(),
            zt@.len() == nm,
            ypow@.len() == nm,
            forall|k: int| 0 <= k < nm ==> (#[trigger] ypow@[k])@ == fpow(y_inv@, k as nat),
            h@.len() == i,
            forall|k: int|
                0 <= k < i ==> (#[trigger] h@[k])@ == fadd(
                    z@,
                    fmul(
                        fpow(y_inv@, k as nat),
                        fsub(fmul(zz@, zt@[k]@), fmul(b@, s@[nm - 1 - k]@)),
                    ),
                ),
        decreases nm - i,
    {
        let t = zz.mul(&zt[i]).sub(&b.mul(&s[nm - 1 - i]));
        h.push(z.add(&ypow[i].mul(&t)));
        i = i + 1;
    }
    h
}

/// `c z^2 z^j` for each `j < m`.
fn v_coeffs(czz: &Scalar, z: &Scalar, m: usize) -> (r: Vec<Scalar>)
    ensures
        r@.len() == m,
        forall|k: int| 0 <= k < m ==> (#[trigger] r@[k])@ == fmul(czz@, fpow(z@, k as nat)),
{
    let zpow = powers(z, m);
    let mut v: Vec<Scalar> = Vec::new();
    let mut j: usize = 0;
    while j < m
        invariant
            j <= m,
            zpow@.len() == m,
            forall|k: int| 0 <= k < m ==> (#[trigger] zpow@[k])@ == fpow(z@, k as nat),
            v@.len() == j,
            forall|k: int| 0 <= k < j ==> (#[trigger] v@[k])@ == fmul(czz@, fpow(z@, k as nat)),
        decreases m - j,
    {
        v.push(czz.mul(&zpow[j]));
        j = j + 1;
    }
    v
}

/// The scalars of the verification equation, given the challenges, the inner-product
/// challenges' squares `u_sq`, their inverses' squares `u_inv_sq`, and the vector `s`.
fn mega_scalars(
    proof: &RangeProof,
    n: usize,
    m: usize,
    y: &Scalar,
    z: &Scalar,
    x: &Scalar,
    w: &Scalar,
    c: &Scalar,
    u_sq: &Vec<Scalar>,
    u_inv_sq: &Vec<Scalar>,
    s: &Vec<Scalar>,
    Ghost(us): Ghost<Seq<int>>,
) -> (r: Vec<Scalar>)
    requires
        n * m <= usize::MAX,
        u_sq@.len() == us.len(),
        u_inv_sq@.len() == us.len(),
        s@.len() == n * m,
        forall|j: int| 0 <= j < us.len() ==> (#[trigger] u_sq@[j])@ == fmul(us[j], us[j]),
        forall|j: int|
            0 <= j < us.len() ==> (#[trigger] u_inv_sq@[j])@ == fmul(finv(us[j]), finv(us[j])),
        forall|i: int| 0 <= i < n * m ==> (#[trigger] s@[i])@ == s_spec(us, i as usize),
    ensures
        r@.len() == 6 + 2 * us.len() + 2 * n * m + m,
        scalar_values(r@) == verification_scalars_spec(
            *proof,
            n as nat,
            m as nat,
            y@,
            z@,
            x@,
            w@,
            c@,
            us,
        ),
{
    reveal(verification_scalars_spec);
    let nm = n * m;
    let a = proof.ipp_proof.a;
    let b = proof.ipp_proof.b;
    let zz = z.mul(z);
    let minus_z = z.neg();
    let cx = c.mul(x);
    let mut sc: Vec<Scalar> = Vec::new();
    sc.push(Scalar::one());
    sc.push(*x);
    sc.push(cx);
    sc.push(cx.mul(x));
    assert(scalar_values(sc@) =~= seq![1int, x@, fmul(c@, x@), fmul(fmul(c@, x@), x@)]);
    let ghost h0 = scalar_values(sc@);
    extend(&mut sc, u_sq.as_slice());
    assert(scalar_values(sc@) =~= h0 + Seq::new(us.len(), |j: int| fmul(us[j], us[j])));
    let ghost h1 = scalar_values(sc@);
    extend(&mut sc, u_inv_sq.as_slice());
    assert(scalar_values(sc@) =~= h1 + Seq::new(
        us.len(),
        |j: int| fmul(finv(us[j]), finv(us[j])),
    ));
    let ghost h2 = scalar_values(sc@);
    sc.push(proof.e_blinding.neg().sub(&c.mul(&proof.t_x_blinding)));
    let d = delta(n, m, y, z);
    let basepoint_scalar = w.mul(&proof.t_x.sub(&a.mul(&b))).add(&c.mul(&d.sub(&proof.t_x)));
    sc.push(basepoint_scalar);
    assert(scalar_values(sc@) =~= h2 + seq![
        fsub(fneg(proof.e_blinding@), fmul(c@, proof.t_x_blinding@)),
        fadd(
            fmul(w@, fsub(proof.t_x@, fmul(a@, b@))),
            fmul(c@, fsub(delta_spec(n as nat, m as nat, y@, z@), proof.t_x@)),
        ),
    ]);
    let g = g_coeffs(&minus_z, &a, s.as_slice());
    let zt = z_and_2_vec(z, n, m);
    let y_inv = y.invert();
    let h = h_coeffs(z, &zz, &b, &y_inv, zt.as_slice(), s.as_slice());
    let czz = c.mul(&zz);
    let v = v_coeffs(&czz, z, m);
    let ghost head = scalar_values(sc@);
    extend(&mut sc, g.as_slice());
    extend(&mut sc, h.as_slice());
    extend(&mut sc, v.as_slice());
    proof {
        let nmn = nm as nat;
        assert(head =~= seq![1int, x@, fmul(c@, x@), fmul(fmul(c@, x@), x@)] + Seq::new(
            us.len(),
            |j: int| fmul(us[j], us[j]),
        ) + Seq::new(us.len(), |j: int| fmul(finv(us[j]), finv(us[j]))) + seq![
            fsub(fneg(proof.e_blinding@), fmul(c@, proof.t_x_blinding@)),
            fadd(
                fmul(w@, fsub(proof.t_x@, fmul(a@, b@))),
                fmul(c@, fsub(delta_spec(n as nat, m as nat, y@, z@), proof.t_x@)),
            ),
        ]);
        assert(scalar_values(g@) =~= Seq::new(
            nmn,
            |i: int| fsub(fneg(z@), fmul(a@, s_spec(us, i as usize))),
        ));
        assert(scalar_values(h@) =~= Seq::new(
            nmn,
            |i: int|
                fadd(
                    z@,
                    fmul(
                        fpow(finv(y@), i as nat),
                        fsub(
                            fmul(fmul(z@, z@), z_and_2(z@, n as nat, m as nat)[i]),
                            fmul(b@, s_spec(us, (nmn - 1 - i) as usize)),
                        ),
                    ),
                ),
        )) by {
            assert forall|i: int| 0 <= i < nm implies scalar_values(zt@)[i] == zt@[i]@ by {}
        }
        assert(scalar_values(v@) =~= Seq::new(
            m as nat,
            |j: int| fmul(fmul(c@, fmul(z@, z@)), fpow(z@, j as nat)),
        ));
        assert(scalar_values(sc@) =~= head + scalar_values(g@) + scalar_values(h@) + scalar_values(v@));
        assert(nm + nm == 2 * n * m) by (nonlinear_arith)
            requires
                nm == n * m,
        ;
    }
    sc
}

/// The bases of the verification equation.
fn mega_bases(proof: &RangeProof, value_commitments: &[CompressedPoint], gens: &Generators, n: usize) -> (r:
    Vec<CompressedPoint>)
    requires
        gens.wf(),
        n <= gens.gens_capacity,
        value_commitments@.len() <= gens.party_capacity,
        proof.ipp_proof.R_vec@.len() == proof.ipp_proof.L_vec@.len(),
    ensures
        r@.len() == 6 + 2 * proof.ipp_proof.L_vec@.len() + 2 * n * value_commitments@.len()
            + value_commitments@.len(),
        point_values(r@) == verification_bases(
            *proof,
            point_values(value_commitments@),
            gens,
            n as nat,
        ),
{
    reveal(verification_bases);
    let m = value_commitments.len();
    let mut pts: Vec<CompressedPoint> = Vec::new();
    pts.push(proof.A);
    pts.push(proof.S);
    pts.push(proof.T_1);
    pts.push(proof.T_2);
    extend(&mut pts, proof.ipp_proof.L_vec.as_slice());
    extend(&mut pts, proof.ipp_proof.R_vec.as_slice());
    pts.push(gens.pedersen_gens.B_blinding);
    pts.push(gens.pedersen_gens.B);
    let G = gens.G(n, m);
    let H = gens.H(n, m);
    extend(&mut pts, G.as_slice());
    extend(&mut pts, H.as_slice());
    extend(&mut pts, value_commitments);
    assert(n * m + n * m == 2 * n * m) by (nonlinear_arith);
    assert(point_values(pts@) =~= verification_bases(
        *proof,
        point_values(value_commitments@),
        gens,
        n as nat,
    ));
    pts
}

impl RangeProof {
    /// Replays the proof into the transcript and draws `y`, `z`, `x`, `w`.
    fn replay(&self, value_commitments: &[CompressedPoint], transcript: &mut Transcript, n: usize) -> (r:
        (Scalar, Scalar, Scalar, Scalar))
        ensures
            ({
                let ch = verifier_challenges(
                    *self,
                    point_values(value_commitments@),
                    transcript_log(*old(transcript)),
                    n as nat,
                );
                &&& r.0@ == ch.0
                &&& r.1@ == ch.1
                &&& r.2@ == ch.2
                &&& r.3@ == ch.3
                &&& transcript_log(*final(transcript)) == ch.4
            }),
    {
        reveal(verifier_challenges);
        let m = value_commitments.len();
        let ghost Vs = point_values(value_commitments@);
        rangeproof_domain_sep(transcript, n as u64, m as u64);
        let ghost log1 = transcript_log(*transcript);
        let mut i: usize = 0;
        while i < m
            invariant
                i <= m,
                m == value_commitments@.len(),
                Vs == point_values(value_commitments@),
                transcript_log(*transcript) == with_points(log1, "V".spec_bytes(), Vs.subrange(0, i as int)),
            decreases m - i,
        {
            append_point(transcript, "V".as_bytes(), &value_commitments[i]);
            proof {
                let p = Vs.subrange(0, i + 1);
                assert(p.drop_last() =~= Vs.subrange(0, i as int));
                assert(p.last() == value_commitments@[i as int]@);
            }
            i = i + 1;
        }
        assert(Vs.subrange(0, m as int) =~= Vs);
        append_point(transcript, "A".as_bytes(), &self.A);
        append_point(transcript, "S".as_bytes(), &self.S);
        let y = challenge_scalar(transcript, "y".as_bytes());
        let z = challenge_scalar(transcript, "z".as_bytes());
        append_point(transcript, "T_1".as_bytes(), &self.T_1);
        append_point(transcript, "T_2".as_bytes(), &self.T_2);
        let x = challenge_scalar(transcript, "x".as_bytes());
        append_scalar(transcript, "t_x".as_bytes(), &self.t_x);
        append_scalar(transcript, "t_x_blinding".as_bytes(), &self.t_x_blinding);
        append_scalar(transcript, "e_blinding".as_bytes(), &self.e_blinding);
        let w = challenge_scalar(transcript, "w".as_bytes());
        (y, z, x, w)
    }

    /// Verifies the proof for the value commitments `V_j`, with the batching scalar `c` that
    /// joins the range equation and the inner-product equation into one multiscalar product.
    #[verifier::rlimit(60)]
    pub fn verify_with_challenge(
        &self,
        value_commitments: &[CompressedPoint],
        gens: &Generators,
        transcript: &mut Transcript,
        c: &Scalar,
        n: usize,
    ) -> (r: Result<(), ProofError>)
        requires
            gens.wf(),
        ensures
            r == verify_outcome(
                *self,
                point_values(value_commitments@),
                gens,
                transcript_log(*old(transcript)),
                n,
                c@,
            ),
            !(valid_bitsize(n) && gens.gens_capacity >= n && gens.party_capacity
                >= value_commitments@.len() && ipp_shape_ok(
                *self,
                (n * value_commitments@.len()) as nat,
            )) ==> *final(transcript) == *old(transcript),
            valid_bitsize(n) && gens.gens_capacity >= n && gens.party_capacity
                >= value_commitments@.len() && ipp_shape_ok(
                *self,
                (n * value_commitments@.len()) as nat,
            ) ==> transcript_log(*final(transcript)) == Self::verifier_log(
                *self,
                point_values(value_commitments@),
                transcript_log(*old(transcript)),
                n,
            ),
    {
        let m = value_commitments.len();
        let ghost Vs = point_values(value_commitments@);
        let ghost log0 = transcript_log(*transcript);
        if !(n == 8 || n == 16 || n == 32 || n == 64) {
            return Err(ProofError::InvalidBitsize);
        }
        if gens.gens_capacity < n || gens.party_capacity < m {
            return Err(ProofError::InvalidGeneratorsLength);
        }
        assert(n * m <= gens.gens_capacity * gens.party_capacity) by (nonlinear_arith)
            requires
                m <= gens.party_capacity,
                n <= gens.gens_capacity,
        ;
        let nm = n * m;
        let lg = self.ipp_proof.L_vec.len();
        match crate::inner_product_proof::exact_log2(nm) {
            None => {
                return Err(ProofError::VerificationError);
            },
            Some(k) => {
                if k != lg || self.ipp_proof.R_vec.len() != lg || lg >= 32 {
                    return Err(ProofError::VerificationError);
                }
            },
        }
        let (y, z, x, w) = self.replay(value_commitments, transcript, n);
        let ghost ch = verifier_challenges(*self, Vs, log0, n as nat);
        let (u_sq, u_inv_sq, s) = match self.ipp_proof.verification_scalars(nm, transcript) {
            Ok(t) => t,
            Err(e) => {
                return Err(e);
            },
        };
        let ghost us = ipa_challenges(
            innerproduct_domain_log(ch.4, nm as u64),
            point_values(self.ipp_proof.L_vec@),
            point_values(self.ipp_proof.R_vec@),
        ).0;
        let sc = mega_scalars(self, n, m, &y, &z, &x, &w, c, &u_sq, &u_inv_sq, &s, Ghost(us));
        let pts = mega_bases(self, value_commitments, gens, n);
        let ghost bases = verification_bases(*self, Vs, gens, n as nat);
        let out = vartime_multiscalar_mul(sc.as_slice(), pts.as_slice());
        proof {
            if all_decompress(pts@) {
                assert forall|i: int| 0 <= i < bases.len() implies crate::point::decompresses(
                    #[trigger] bases[i],
                ) by {
                    assert(bases[i] == pts@[i]@);
                }
            } else {
                let i = choose|i: int| 0 <= i < pts@.len() && !crate::point::decompresses(
                    #[trigger] pts@[i]@,
                );
                assert(bases[i] == pts@[i]@);
            }
        }
        match out {
            Some(p) => {
                if p.is_identity() {
                    Ok(())
                } else {
                    Err(ProofError::VerificationError)
                }
            },
            None => Err(ProofError::VerificationError),
        }
    }

    /// Verifies the proof for the value commitments `V_j`, drawing the batching scalar from
    /// `rng`. Fails with `InvalidBitsize`, `InvalidGeneratorsLength` or `VerificationError`.
    pub fn verify(
        &self,
        value_commitments: &[CompressedPoint],
        gens: &Generators,
        transcript: &mut Transcript,
        rng: &mut StdRng,
        n: usize,
    ) -> (r: Result<(), ProofError>)
        requires
            gens.wf(),
        ensures
            exists|c: int|
                0 <= c < crate::scalar::group_order() && r == verify_outcome(
                    *self,
                    point_values(value_commitments@),
                    gens,
                    transcript_log(*old(transcript)),
                    n,
                    c,
                ),
            !valid_bitsize(n) ==> r == Err::<(), ProofError>(ProofError::InvalidBitsize),
            valid_bitsize(n) && (gens.gens_capacity < n || gens.party_capacity
                < value_commitments@.len()) ==> r == Err::<(), ProofError>(
                ProofError::InvalidGeneratorsLength,
            ),
            verify_leaves(
                *self,
                point_values(value_commitments@),
                gens,
                n,
                *old(transcript),
                *final(transcript),
            ),
            !(valid_bitsize(n) && gens.gens_capacity >= n && gens.party_capacity
                >= value_commitments@.len()) ==> *final(rng) == *old(rng),
    {
        let m = value_commitments.len();
        let ghost Vs = point_values(value_commitments@);
        if !(n == 8 || n == 16 || n == 32 || n == 64) {
            assert(verify_outcome(*self, Vs, gens, transcript_log(*transcript), n, 0) == Err::<
                (),
                ProofError,
            >(ProofError::InvalidBitsize));
            return Err(ProofError::InvalidBitsize);
        }
        if gens.gens_capacity < n || gens.party_capacity < m {
            assert(verify_outcome(*self, Vs, gens, transcript_log(*transcript), n, 0) == Err::<
                (),
                ProofError,
            >(ProofError::InvalidGeneratorsLength));
            return Err(ProofError::InvalidGeneratorsLength);
        }
        let c = random_scalar(rng);
        let ghost log0 = transcript_log(*transcript);
        let r = self.verify_with_challenge(value_commitments, gens, transcript, &c, n);
        assert(0 <= c@ < crate::scalar::group_order() && r == verify_outcome(
            *self,
            point_values(value_commitments@),
            gens,
            log0,
            n,
            c@,
        ));
        r
    }

    /// Verifies a proof for one value commitment `V`.
    pub fn verify_single(
        &self,
        V: &CompressedPoint,
        gens: &Generators,
        transcript: &mut Transcript,
        rng: &mut StdRng,
        n: usize,
    ) -> (r: Result<(), ProofError>)
        requires
            gens.wf(),
        ensures
            exists|c: int|
                0 <= c < crate::scalar::group_order() && r == verify_outcome(
                    *self,
                    seq![V@],
                    gens,
                    transcript_log(*old(transcript)),
                    n,
                    c,
                ),
            !valid_bitsize(n) ==> r == Err::<(), ProofError>(ProofError::InvalidBitsize),
            valid_bitsize(n) && (gens.gens_capacity < n || gens.party_capacity < 1) ==> r == Err::<
                (),
                ProofError,
            >(ProofError::InvalidGeneratorsLength),
            verify_leaves(*self, seq![V@], gens, n, *old(transcript), *final(transcript)),
            !(valid_bitsize(n) && gens.gens_capacity >= n && gens.party_capacity >= 1)
                ==> *final(rng) == *old(rng),
    {
        let vs = vec![*V];
        assert(point_values(vs@) =~= seq![V@]);
        self.verify(vs.as_slice(), gens, transcript, rng, n)
    }

    /// The Pedersen commitments to `values` under `blindings`.
    pub open spec fn commitments_spec(gens: &Generators, values: Seq<u64>, blindings: Seq<Scalar>) -> Seq<
        Seq<u8>,
    > {
        Seq::new(
            values.len(),
            |j: int|
                crate::generators::commit_spec(
                    gens.pedersen_gens.B@,
                    gens.pedersen_gens.B_blinding@,
                    values[j] as int,
                    blindings[j]@,
                ),
        )
    }

    /// The log that a verifier's transcript ends with after it replays `proof` for the
    /// commitments `Vs`, from the log `log0`.
    pub open spec fn verifier_log(
        proof: RangeProof,
        Vs: Seq<Seq<u8>>,
        log0: Seq<TranscriptEntry>,
        n: usize,
    ) -> Seq<TranscriptEntry> {
        ipa_challenges(
            innerproduct_domain_log(
                verifier_challenges(proof, Vs, log0, n as nat).4,
                (n * Vs.len()) as u64,
            ),
            point_values(proof.ipp_proof.L_vec@),
            point_values(proof.ipp_proof.R_vec@),
        ).1
    }

    /// Proves that each of `values` lies in `[0, 2^n)`, under the matching `blindings`, by
    /// running the aggregation protocol with one party per value. Fails where the lengths
    /// differ, `n` is not a supported bit size, the generators are too few, or the number of
    /// values is not a power of two; the protocol itself fails only where the challenge `x`
    /// drawn from the transcript is zero.
    #[verifier::rlimit(100)]
    pub fn prove_multiple_with(
        generators: &Generators,
        transcript: &mut Transcript,
        values: &[u64],
        blindings: &[Scalar],
        draws: &[PartyDraws],
        n: usize,
    ) -> (r: Result<RangeProof, ProofError>)
        requires
            generators.wf(),
            draws@.len() == values@.len(),
            forall|j: int| 0 <= j < draws@.len() ==> (#[trigger] draws@[j]).fits(n),
        ensures
            prove_outcome(generators, values@, blindings@, n, *old(transcript), *final(transcript), r),
            r is Ok ==> r->Ok_0.A@ == msm_of(
                ones(values@.len() as nat),
                Seq::new(
                    values@.len() as nat,
                    |j: int| party_A(generators, values@[j], draws@[j].a_blinding@, j, n),
                ),
            ),
            r is Ok ==> r->Ok_0.S@ == msm_of(
                ones(values@.len() as nat),
                Seq::new(values@.len() as nat, |j: int| party_S(generators, draws@[j], j, n)),
            ),
    {
        let ghost log_a = transcript_log(*transcript);
        if values.len() != blindings.len() {
            return Err(ProofError::WrongNumBlindingFactors);
        }
        if !(n == 8 || n == 16 || n == 32 || n == 64) {
            return Err(ProofError::InvalidBitsize);
        }
        if generators.gens_capacity < n {
            return Err(ProofError::InvalidGeneratorsLength);
        }
        if generators.party_capacity < values.len() {
            return Err(ProofError::InvalidGeneratorsLength);
        }
        let m = values.len();
        let dealer = match Dealer::new(generators, n, m, transcript) {
            Ok(d) => d,
            Err(e) => {
                return Err(ProofError::ProvingError(e));
            },
        };
        run_protocol(dealer, generators, transcript, values, blindings, draws, n, Ghost(log_a))
    }

    /// Proves that each of `values` lies in `[0, 2^n)`, under the matching `blindings`: checks
    /// the parameters, draws each party's blindings from `rng`, and runs the aggregation
    /// protocol with them.
    pub fn prove_multiple(
        generators: &Generators,
        transcript: &mut Transcript,
        rng: &mut StdRng,
        values: &[u64],
        blindings: &[Scalar],
        n: usize,
    ) -> (r: Result<RangeProof, ProofError>)
        requires
            generators.wf(),
        ensures
            prove_outcome(generators, values@, blindings@, n, *old(transcript), *final(transcript), r),
            !prove_params_ok(generators, values@, blindings@, n) ==> *final(rng) == *old(rng),
    {
        if values.len() != blindings.len() {
            return Err(ProofError::WrongNumBlindingFactors);
        }
        if !(n == 8 || n == 16 || n == 32 || n == 64) {
            return Err(ProofError::InvalidBitsize);
        }
        if generators.gens_capacity < n || generators.party_capacity < values.len() {
            return Err(ProofError::InvalidGeneratorsLength);
        }
        if crate::inner_product_proof::exact_log2(values.len()).is_none() {
            return Err(ProofError::ProvingError(crate::errors::MPCError::InvalidAggregation));
        }
        let mut draws: Vec<PartyDraws> = Vec::new();
        let mut j: usize = 0;
        while j < values.len()
            invariant
                j <= values@.len(),
                draws@.len() == j,
                forall|k: int| 0 <= k < j ==> (#[trigger] draws@[k]).fits(n),
            decreases values@.len() - j,
        {
            draws.push(PartyDraws::draw(n, rng));
            j = j + 1;
        }
        RangeProof::prove_multiple_with(generators, transcript, values, blindings, draws.as_slice(), n)
    }

    /// Proves that `v` lies in `[0, 2^n)` under the blinding `v_blinding`.
    pub fn prove_single(
        generators: &Generators,
        transcript: &mut Transcript,
        rng: &mut StdRng,
        v: u64,
        v_blinding: &Scalar,
        n: usize,
    ) -> (r: Result<RangeProof, ProofError>)
        requires
            generators.wf(),
        ensures
            prove_outcome(
                generators,
                seq![v],
                seq![*v_blinding],
                n,
                *old(transcript),
                *final(transcript),
                r,
            ),
            r is Ok ==> r->Ok_0.ipp_proof.L_vec@.len() == log2(n as nat),
            !prove_params_ok(generators, seq![v], seq![*v_blinding], n) ==> *final(rng) == *old(
                rng,
            ),
    {
        let values = vec![v];
        let blindings = vec![*v_blinding];
        assert(is_pow2(1));
        assert(values@ =~= seq![v]);
        assert(blindings@ =~= seq![*v_blinding]);
        assert(n * 1 == n);
        RangeProof::prove_multiple(generators, transcript, rng, values.as_slice(), blindings.as_slice(), n)
    }
}

/// A sequence of shares whose vectors all have length `n` has no misfits.
proof fn lemma_no_misfits(n: nat, shares: Seq<ProofShare>, k: nat)
    requires
        k <= shares.len(),
        forall|i: int| 0 <= i < shares.len() ==> (#[trigger] shares[i]).l_vec@.len() == n
            && shares[i].r_vec@.len() == n,
    ensures
        misfit_prefix(n, shares, k).len() == 0,
    decreases k,
{
    if k > 0 {
        lemma_no_misfits(n, shares, (k - 1) as nat);
        assert(shares[k - 1].l_vec@.len() == n);
    }
}

/// The concatenation of a sequence of byte strings.
pub open spec fn flatten(s: Seq<Seq<u8>>) -> Seq<u8>
    decreases s.len(),
{
    if s.len() == 0 {
        Seq::empty()
    } else {
        flatten(s.drop_last()) + s.last()
    }
}

/// `L_0, R_0, L_1, R_1, ...`.
pub open spec fn interleave(Ls: Seq<Seq<u8>>, Rs: Seq<Seq<u8>>) -> Seq<Seq<u8>>
    decreases Ls.len(),
{
    if Ls.len() == 0 {
        Seq::empty()
    } else {
        interleave(Ls.drop_last(), Rs.drop_last()) + seq![Ls.last(), Rs.last()]
    }
}

/// The wire format: `A`, `S`, `T_1`, `T_2`, `t_x`, `t_x_blinding`, `e_blinding`, the pairs
/// `L_j`, `R_j`, then `a` and `b`, 32 bytes each.
pub open spec fn proof_encoding(p: RangeProof) -> Seq<u8> {
    p.A@ + p.S@ + p.T_1@ + p.T_2@ + p.t_x.encoding() + p.t_x_blinding.encoding()
        + p.e_blinding.encoding() + flatten(
        interleave(point_values(p.ipp_proof.L_vec@), point_values(p.ipp_proof.R_vec@)),
    ) + p.ipp_proof.a.encoding() + p.ipp_proof.b.encoding()
}

/// The `i`-th 32-byte element of `b`.
pub open spec fn chunk(b: Seq<u8>, i: int) -> Seq<u8> {
    b.subrange(32 * i, 32 * i + 32)
}

/// Whether the element at `i` is a canonical scalar encoding.
pub open spec fn canonical_at(b: Seq<u8>, i: int) -> bool {
    crate::scalar::le_value(chunk(b, i)) < crate::scalar::group_order()
}

/// Whether bytes parse into a proof: whole 32-byte elements, at least seven of them before an
/// inner-product section of `2k + 2` elements, and canonical scalars.
pub open spec fn format_ok(b: Seq<u8>) -> bool {
    let k = b.len() / 32;
    &&& b.len() % 32 == 0
    &&& k >= 9
    &&& (k - 9) % 2 == 0
    &&& canonical_at(b, 4)
    &&& canonical_at(b, 5)
    &&& canonical_at(b, 6)
    &&& canonical_at(b, k - 2)
    &&& canonical_at(b, k - 1)
}

/// Whether `p` is what the bytes `b` parse into: each field read from its 32-byte element.
pub open spec fn decodes_to(b: Seq<u8>, p: RangeProof) -> bool {
    let k = b.len() / 32;
    &&& p.A@ == chunk(b, 0)
    &&& p.S@ == chunk(b, 1)
    &&& p.T_1@ == chunk(b, 2)
    &&& p.T_2@ == chunk(b, 3)
    &&& p.t_x.encoding() == chunk(b, 4)
    &&& p.t_x_blinding.encoding() == chunk(b, 5)
    &&& p.e_blinding.encoding() == chunk(b, 6)
    &&& p.ipp_proof.L_vec@.len() == (k - 9) / 2
    &&& p.ipp_proof.R_vec@.len() == (k - 9) / 2
    &&& forall|i: int|
        0 <= i < (k - 9) / 2 ==> (#[trigger] p.ipp_proof.L_vec@[i])@ == chunk(b, 7 + 2 * i)
    &&& forall|i: int|
        0 <= i < (k - 9) / 2 ==> (#[trigger] p.ipp_proof.R_vec@[i])@ == chunk(b, 8 + 2 * i)
    &&& p.ipp_proof.a.encoding() == chunk(b, k - 2)
    &&& p.ipp_proof.b.encoding() == chunk(b, k - 1)
}

/// Whether a proof can be written out and read back: one `R_j` per `L_j`, and canonical
/// scalars.
pub open spec fn proof_wf(p: RangeProof) -> bool {
    &&& p.ipp_proof.R_vec@.len() == p.ipp_proof.L_vec@.len()
    &&& p.t_x@ < crate::scalar::group_order()
    &&& p.t_x_blinding@ < crate::scalar::group_order()
    &&& p.e_blinding@ < crate::scalar::group_order()
    &&& p.ipp_proof.a@ < crate::scalar::group_order()
    &&& p.ipp_proof.b@ < crate::scalar::group_order()
}

/// The concatenation of 32-byte strings is 32 bytes per string.
proof fn lemma_flatten_len(s: Seq<Seq<u8>>)
    requires
        forall|i: int| 0 <= i < s.len() ==> (#[trigger] s[i]).len() == 32,
    ensures
        flatten(s).len() == 32 * s.len(),
    decreases s.len(),
{
    if s.len() > 0 {
        lemma_flatten_len(s.drop_last());
    }
}

/// The `i`-th 32-byte element of a concatenation of 32-byte strings is the `i`-th string.
proof fn lemma_flatten_chunk(s: Seq<Seq<u8>>, i: int)
    requires
        forall|j: int| 0 <= j < s.len() ==> (#[trigger] s[j]).len() == 32,
        0 <= i < s.len(),
    ensures
        chunk(flatten(s), i) == s[i],
    decreases s.len(),
{
    let init = s.drop_last();
    lemma_flatten_len(init);
    if i < s.len() - 1 {
        lemma_flatten_chunk(init, i);
        assert(chunk(flatten(s), i) =~= chunk(flatten(init), i));
    } else {
        assert(chunk(flatten(s), i) =~= s.last());
    }
}

/// `interleave(Ls, Rs)` holds `L_j` at `2j` and `R_j` at `2j + 1`.
proof fn lemma_interleave(Ls: Seq<Seq<u8>>, Rs: Seq<Seq<u8>>)
    requires
        Rs.len() == Ls.len(),
    ensures
        interleave(Ls, Rs).len() == 2 * Ls.len(),
        forall|j: int|
            0 <= j < Ls.len() ==> interleave(Ls, Rs)[2 * j] == Ls[j] && interleave(Ls, Rs)[2 * j + 1]
                == Rs[j],
    decreases Ls.len(),
{
    if Ls.len() > 0 {
        let l0 = Ls.drop_last();
        let r0 = Rs.drop_last();
        lemma_interleave(l0, r0);
        let prev = interleave(l0, r0);
        let il = interleave(Ls, Rs);
        assert(il == prev + seq![Ls.last(), Rs.last()]);
        assert forall|j: int| 0 <= j < Ls.len() implies il[2 * j] == Ls[j] && il[2 * j + 1]
            == Rs[j] by {
            if j < Ls.len() - 1 {
                assert(il[2 * j] == prev[2 * j]);
                assert(il[2 * j + 1] == prev[2 * j + 1]);
                assert(l0[j] == Ls[j]);
                assert(r0[j] == Rs[j]);
            }
        }
    }
}

/// Writing a proof out and reading it back gives the proof again: its wire format parses, into
/// a proof with the same points and the same scalar encodings, and is `32 (9 + 2 k)` bytes long
/// for `k` rounds of the inner-product argument.
pub proof fn lemma_round_trip(p: RangeProof)
    requires
        proof_wf(p),
    ensures
        format_ok(proof_encoding(p)),
        decodes_to(proof_encoding(p), p),
        proof_encoding(p).len() == 32 * (9 + 2 * p.ipp_proof.L_vec@.len()),
{
    let Ls = point_values(p.ipp_proof.L_vec@);
    let Rs = point_values(p.ipp_proof.R_vec@);
    let k = p.ipp_proof.L_vec@.len();
    let il = interleave(Ls, Rs);
    lemma_interleave(Ls, Rs);
    assert forall|j: int| 0 <= j < il.len() implies (#[trigger] il[j]).len() == 32 by {
        if j % 2 == 0 {
            assert(il[2 * (j / 2)] == Ls[j / 2]);
        } else {
            assert(il[2 * (j / 2) + 1] == Rs[j / 2]);
        }
    }
    lemma_flatten_len(il);
    p.t_x.lemma_encoding();
    p.t_x_blinding.lemma_encoding();
    p.e_blinding.lemma_encoding();
    p.ipp_proof.a.lemma_encoding();
    p.ipp_proof.b.lemma_encoding();
    let e = proof_encoding(p);
    let head = p.A@ + p.S@ + p.T_1@ + p.T_2@ + p.t_x.encoding() + p.t_x_blinding.encoding()
        + p.e_blinding.encoding();
    let body = flatten(il);
    assert(e == head + body + p.ipp_proof.a.encoding() + p.ipp_proof.b.encoding());
    assert(e.len() == 32 * (9 + 2 * k));
    let n = e.len() / 32;
    assert(n == 9 + 2 * k);
    assert(chunk(e, 0) =~= p.A@);
    assert(chunk(e, 1) =~= p.S@);
    assert(chunk(e, 2) =~= p.T_1@);
    assert(chunk(e, 3) =~= p.T_2@);
    assert(chunk(e, 4) =~= p.t_x.encoding());
    assert(chunk(e, 5) =~= p.t_x_blinding.encoding());
    assert(chunk(e, 6) =~= p.e_blinding.encoding());
    assert(chunk(e, n - 2) =~= p.ipp_proof.a.encoding());
    assert(chunk(e, n - 1) =~= p.ipp_proof.b.encoding());
    assert forall|i: int| 0 <= i < (n - 9) / 2 implies p.ipp_proof.L_vec@[i]@ == chunk(
        e,
        7 + 2 * i,
    ) && p.ipp_proof.R_vec@[i]@ == chunk(e, 8 + 2 * i) by {
        lemma_flatten_chunk(il, 2 * i);
        lemma_flatten_chunk(il, 2 * i + 1);
        assert(chunk(e, 7 + 2 * i) =~= chunk(body, 2 * i));
        assert(chunk(e, 8 + 2 * i) =~= chunk(body, 2 * i + 1));
        assert(il[2 * i] == Ls[i]);
        assert(il[2 * i + 1] == Rs[i]);
    }
}

/// Whether two proofs hold the same points and the same scalar encodings.
pub open spec fn same_fields(p: RangeProof, q: RangeProof) -> bool {
    &&& p.A@ == q.A@
    &&& p.S@ == q.S@
    &&& p.T_1@ == q.T_1@
    &&& p.T_2@ == q.T_2@
    &&& p.t_x.encoding() == q.t_x.encoding()
    &&& p.t_x_blinding.encoding() == q.t_x_blinding.encoding()
    &&& p.e_blinding.encoding() == q.e_blinding.encoding()
    &&& point_values(p.ipp_proof.L_vec@) == point_values(q.ipp_proof.L_vec@)
    &&& point_values(p.ipp_proof.R_vec@) == point_values(q.ipp_proof.R_vec@)
    &&& p.ipp_proof.a.encoding() == q.ipp_proof.a.encoding()
    &&& p.ipp_proof.b.encoding() == q.ipp_proof.b.encoding()
}

/// Two proofs that the same bytes parse into hold the same fields.
pub proof fn lemma_decodes_alike(b: Seq<u8>, p: RangeProof, q: RangeProof)
    requires
        decodes_to(b, p),
        decodes_to(b, q),
    ensures
        same_fields(p, q),
{
    assert(point_values(p.ipp_proof.L_vec@) =~= point_values(q.ipp_proof.L_vec@));
    assert(point_values(p.ipp_proof.R_vec@) =~= point_values(q.ipp_proof.R_vec@));
}

/// Two proofs with the same points and scalar encodings verify alike, and leave the verifier's
/// transcript alike; with [`lemma_round_trip`], a proof read back from its wire format verifies
/// exactly as the proof that was written.
pub proof fn lemma_same_fields_verify_alike(
    p: RangeProof,
    q: RangeProof,
    Vs: Seq<Seq<u8>>,
    gens: &Generators,
    log0: Seq<TranscriptEntry>,
    n: usize,
    c: int,
)
    requires
        same_fields(p, q),
    ensures
        verify_outcome(p, Vs, gens, log0, n, c) == verify_outcome(q, Vs, gens, log0, n, c),
        RangeProof::verifier_log(p, Vs, log0, n) == RangeProof::verifier_log(q, Vs, log0, n),
{
    reveal(verifier_challenges);
    reveal(verification_scalars_spec);
    reveal(verification_bases);
    p.t_x.lemma_encoding();
    q.t_x.lemma_encoding();
    p.t_x_blinding.lemma_encoding();
    q.t_x_blinding.lemma_encoding();
    p.e_blinding.lemma_encoding();
    q.e_blinding.lemma_encoding();
    p.ipp_proof.a.lemma_encoding();
    q.ipp_proof.a.lemma_encoding();
    p.ipp_proof.b.lemma_encoding();
    q.ipp_proof.b.lemma_encoding();
    assert(p.ipp_proof.L_vec@.len() == point_values(p.ipp_proof.L_vec@).len());
    assert(q.ipp_proof.L_vec@.len() == point_values(q.ipp_proof.L_vec@).len());
    assert(p.ipp_proof.R_vec@.len() == point_values(p.ipp_proof.R_vec@).len());
    assert(q.ipp_proof.R_vec@.len() == point_values(q.ipp_proof.R_vec@).len());
    assert(verifier_challenges(p, Vs, log0, n as nat) == verifier_challenges(q, Vs, log0, n as nat));
}

/// Reads 32 bytes at `off`.
fn read32(b: &[u8], off: usize) -> (r: [u8; 32])
    requires
        off + 32 <= b.len(),
    ensures
        r@ == b@.subrange(off as int, off + 32),
{
    let mut r = [0u8; 32];
    let mut i: usize = 0;
    while i < 32
        invariant
            i <= 32,
            off + 32 <= b.len(),
            forall|k: int| 0 <= k < i ==> r@[k] == b@[off + k],
        decreases 32 - i,
    {
        r[i] = b[off + i];
        i = i + 1;
    }
    assert(r@ =~= b@.subrange(off as int, off + 32));
    r
}

impl RangeProof {
    /// The wire format of the proof: `32 (9 + 2 k)` bytes for `k` rounds of the inner-product
    /// argument.
    pub fn to_bytes(&self) -> (r: Vec<u8>)
        requires
            self.ipp_proof.R_vec@.len() == self.ipp_proof.L_vec@.len(),
        ensures
            r@ == proof_encoding(*self),
            r@.len() == 32 * (9 + 2 * self.ipp_proof.L_vec@.len()),
    {
        let mut buf: Vec<u8> = Vec::new();
        extend(&mut buf, &self.A.bytes);
        extend(&mut buf, &self.S.bytes);
        extend(&mut buf, &self.T_1.bytes);
        extend(&mut buf, &self.T_2.bytes);
        let tx = self.t_x.to_bytes();
        let txb = self.t_x_blinding.to_bytes();
        let eb = self.e_blinding.to_bytes();
        extend(&mut buf, &tx);
        extend(&mut buf, &txb);
        extend(&mut buf, &eb);
        let ghost head = buf@;
        let ghost Ls = point_values(self.ipp_proof.L_vec@);
        let ghost Rs = point_values(self.ipp_proof.R_vec@);
        let k = self.ipp_proof.L_vec.len();
        let mut i: usize = 0;
        while i < k
            invariant
                i <= k,
                k == self.ipp_proof.L_vec@.len(),
                k == self.ipp_proof.R_vec@.len(),
                Ls == point_values(self.ipp_proof.L_vec@),
                Rs == point_values(self.ipp_proof.R_vec@),
                head.len() == 224,
                buf@ == head + flatten(interleave(Ls.subrange(0, i as int), Rs.subrange(0, i as int))),
                buf@.len() == 224 + 64 * i,
            decreases k - i,
        {
            extend(&mut buf, &self.ipp_proof.L_vec[i].bytes);
            extend(&mut buf, &self.ipp_proof.R_vec[i].bytes);
            proof {
                let l1 = Ls.subrange(0, i + 1);
                let r1 = Rs.subrange(0, i + 1);
                assert(l1.drop_last() =~= Ls.subrange(0, i as int));
                assert(r1.drop_last() =~= Rs.subrange(0, i as int));
                let il = interleave(l1, r1);
                let prev = interleave(Ls.subrange(0, i as int), Rs.subrange(0, i as int));
                assert(il == prev + seq![Ls[i as int], Rs[i as int]]);
                assert(il.drop_last().drop_last() =~= prev);
                assert(il.drop_last() =~= prev + seq![Ls[i as int]]);
                let pl = prev + seq![Ls[i as int]];
                assert(pl.drop_last() =~= prev);
                assert(flatten(pl) == flatten(prev) + Ls[i as int]);
                assert(flatten(il) =~= flatten(prev) + Ls[i as int] + Rs[i as int]);
            }
            i = i + 1;
        }
        assert(Ls.subrange(0, k as int) =~= Ls);
        assert(Rs.subrange(0, k as int) =~= Rs);
        let a = self.ipp_proof.a.to_bytes();
        let b = self.ipp_proof.b.to_bytes();
        extend(&mut buf, &a);
        extend(&mut buf, &b);
        assert(buf@ =~= proof_encoding(*self));
        buf
    }

    /// Parses the wire format; fails with `FormatError` where the bytes are not whole 32-byte
    /// elements, are fewer than nine of them or leave an odd number for the inner-product
    /// pairs, or where a scalar is not canonical.
    pub fn from_bytes(slice: &[u8]) -> (r: Result<RangeProof, ProofError>)
        ensures
            r is Ok <==> format_ok(slice@),
            r is Err ==> r->Err_0 == ProofError::FormatError,
            r is Ok ==> decodes_to(slice@, r->Ok_0),
    {
        let len = slice.len();
        if len % 32 != 0 || len < 9 * 32 || ((len / 32) - 9) % 2 != 0 {
            return Err(ProofError::FormatError);
        }
        let k = len / 32;
        let A = CompressedPoint { bytes: read32(slice, 0) };
        let S = CompressedPoint { bytes: read32(slice, 32) };
        let T_1 = CompressedPoint { bytes: read32(slice, 64) };
        let T_2 = CompressedPoint { bytes: read32(slice, 96) };
        let t_x = match Scalar::from_bytes(read32(slice, 128)) {
            Some(s) => s,
            None => {
                return Err(ProofError::FormatError);
            },
        };
        let t_x_blinding = match Scalar::from_bytes(read32(slice, 160)) {
            Some(s) => s,
            None => {
                return Err(ProofError::FormatError);
            },
        };
        let e_blinding = match Scalar::from_bytes(read32(slice, 192)) {
            Some(s) => s,
            None => {
                return Err(ProofError::FormatError);
            },
        };
        let a = match Scalar::from_bytes(read32(slice, (k - 2) * 32)) {
            Some(s) => s,
            None => {
                return Err(ProofError::FormatError);
            },
        };
        let b = match Scalar::from_bytes(read32(slice, (k - 1) * 32)) {
            Some(s) => s,
            None => {
                return Err(ProofError::FormatError);
            },
        };
        let lg = (k - 9) / 2;
        let mut L_vec: Vec<CompressedPoint> = Vec::new();
        let mut R_vec: Vec<CompressedPoint> = Vec::new();
        let mut i: usize = 0;
        while i < lg
            invariant
                i <= lg,
                lg == (k - 9) / 2,
                k == slice@.len() / 32,
                len == slice@.len(),
                slice@.len() % 32 == 0,
                k >= 9,
                L_vec@.len() == i,
                R_vec@.len() == i,
                forall|q: int| 0 <= q < i ==> (#[trigger] L_vec@[q])@ == chunk(slice@, 7 + 2 * q),
                forall|q: int| 0 <= q < i ==> (#[trigger] R_vec@[q])@ == chunk(slice@, 8 + 2 * q),
            decreases lg - i,
        {
            assert((8 + 2 * i) * 32 + 32 <= slice@.len()) by (nonlinear_arith)
                requires
                    i < lg,
                    lg == (k - 9) / 2,
                    k == slice@.len() / 32,
                    slice@.len() % 32 == 0,
                    k >= 9,
            ;
            let lo = (7 + 2 * i) * 32;
            let ro = (8 + 2 * i) * 32;
            assert(lo == 32 * (7 + 2 * i) && ro == 32 * (8 + 2 * i));
            let Lp = CompressedPoint { bytes: read32(slice, lo) };
            let Rp = CompressedPoint { bytes: read32(slice, ro) };
            assert(Lp@ == chunk(slice@, 7 + 2 * i));
            assert(Rp@ == chunk(slice@, 8 + 2 * i));
            L_vec.push(Lp);
            R_vec.push(Rp);
            i = i + 1;
        }
        Ok(RangeProof {
            A,
            S,
            T_1,
            T_2,
            t_x,
            t_x_blinding,
            e_blinding,
            ipp_proof: InnerProductProof { L_vec, R_vec, a, b },
        })
    }
}

} // verus!

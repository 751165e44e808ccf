//! The inner-product argument: a proof of knowledge of two vectors whose inner product is
//! committed, with one pair of points per halving of the vectors.
use crate::errors::ProofError;
use crate::point::{
    add_of, add_points, all_decompress, decompresses, mul_of, mul_point, point_values,
    vartime_msm_of, vartime_multiscalar_mul, CompressedPoint,
};
use crate::scalar::{finv, fmul, scalar_values, Scalar};
use crate::transcript::{
    append_message, append_point, append_u64, challenge_scalar, challenge_value, transcript_log,
    u64_le_bytes, with_challenge, with_message, TranscriptEntry,
};
use crate::util::{
    copy_range, extend, fold_scalars, fold_spec, inner_product, inner_product_spec, repeat, scale,
    scale_spec,
};
use merlin::Transcript;
use vstd::prelude::*;
use vstd::string::StringSliceAdditionalSpecFns;

verus! {

/// Whether `n` is a power of two.
pub open spec fn is_pow2(n: nat) -> bool
    decreases n,
{
    if n <= 1 {
        n == 1
    } else {
        n % 2 == 0 && is_pow2(n / 2)
    }
}

/// The number of halvings that bring `n` down to one.
pub open spec fn log2(n: nat) -> nat
    decreases n,
{
    if n <= 1 {
        0
    } else {
        1 + log2(n / 2)
    }
}

/// `Some(log2(n))` where `n` is a power of two, else `None`.
pub fn exact_log2(n: usize) -> (r: Option<usize>)
    ensures
        r is Some <==> is_pow2(n as nat),
        r is Some ==> r->0 == log2(n as nat),
{
    let mut m = n;
    let mut k: usize = 0;
    while m > 1 && m % 2 == 0
        invariant
            m <= n,
            k + m <= n,
            is_pow2(n as nat) == is_pow2(m as nat),
            log2(n as nat) == k + log2(m as nat),
        decreases m,
    {
        m = m / 2;
        k = k + 1;
    }
    if m == 1 {
        Some(k)
    } else {
        None
    }
}

/// The challenges `u_j` that a verifier draws when it replays the points `L_j`, `R_j`, and the
/// log after the last one.
pub open spec fn ipa_challenges(
    log: Seq<TranscriptEntry>,
    Ls: Seq<Seq<u8>>,
    Rs: Seq<Seq<u8>>,
) -> (Seq<int>, Seq<TranscriptEntry>)
    decreases Ls.len(),
{
    if Ls.len() == 0 {
        (Seq::empty(), log)
    } else {
        let log1 = round_log(log, Ls[0], Rs[0]);
        let rest = ipa_challenges(
            with_challenge(log1, "u".spec_bytes()),
            Ls.drop_first(),
            Rs.drop_first(),
        );
        (seq![challenge_value(log1, "u".spec_bytes())] + rest.0, rest.1)
    }
}

/// On `2^k` values the prover sends `k` points `L_j` and as many `R_j`, and its final scalars are
/// reduced field elements.
pub proof fn lemma_ipa_shape(
    log: Seq<TranscriptEntry>,
    Q: Seq<u8>,
    a: Seq<int>,
    b: Seq<int>,
    G: Seq<Seq<u8>>,
    Gf: Seq<int>,
    H: Seq<Seq<u8>>,
    Hf: Seq<int>,
)
    requires
        is_pow2(a.len()),
        b.len() == a.len(),
    ensures
        ({
            let o = ipa_spec(log, Q, a, b, G, Gf, H, Hf);
            &&& o.0.len() == log2(a.len())
            &&& o.1.len() == log2(a.len())
            &&& a.len() >= 2 ==> 0 <= o.2 < crate::scalar::group_order() && 0 <= o.3
                < crate::scalar::group_order()
        }),
    decreases a.len(),
{
    if a.len() > 1 {
        let h = a.len() / 2;
        let a_lo = a.subrange(0, h as int);
        let a_hi = a.subrange(h as int, 2 * h as int);
        let b_lo = b.subrange(0, h as int);
        let b_hi = b.subrange(h as int, 2 * h as int);
        let G_lo = G.subrange(0, h as int);
        let G_hi = G.subrange(h as int, 2 * h as int);
        let H_lo = H.subrange(0, h as int);
        let H_hi = H.subrange(h as int, 2 * h as int);
        let gf_lo = Gf.subrange(0, h as int);
        let gf_hi = Gf.subrange(h as int, 2 * h as int);
        let f_lo = Hf.subrange(0, h as int);
        let f_hi = Hf.subrange(h as int, 2 * h as int);
        let L = vartime_msm_of(
            scale_spec(a_lo, gf_hi) + scale_spec(b_hi, f_lo) + seq![inner_product_spec(a_lo, b_hi, h)],
            G_hi + H_lo + seq![Q],
        );
        let R = vartime_msm_of(
            scale_spec(a_hi, gf_lo) + scale_spec(b_lo, f_hi) + seq![inner_product_spec(a_hi, b_lo, h)],
            G_lo + H_hi + seq![Q],
        );
        let log1 = round_log(log, L, R);
        let u = challenge_value(log1, "u".spec_bytes());
        let ui = finv(u);
        let gf_new = Seq::new(h as nat, |i: int| fmul(ui, gf_lo[i]));
        let hf_new = Seq::new(h as nat, |i: int| fmul(u, f_lo[i]));
        let log2_ = with_challenge(log1, "u".spec_bytes());
        let a2 = fold_spec(a_lo, a_hi, u, ui);
        let b2 = fold_spec(b_lo, b_hi, ui, u);
        let G2 = fold_points_spec(G_lo, G_hi, fold_coeffs_spec(u, gf_hi, gf_new));
        let H2 = fold_points_spec(H_lo, H_hi, fold_coeffs_spec(ui, f_hi, hf_new));
        assert(a2.len() == h && b2.len() == h);
        lemma_ipa_shape(log2_, Q, a2, b2, G2, gf_new, H2, hf_new);
        if h < 2 {
            assert(h == 1);
        }
    }
}

/// Replaying the points that the prover sends reproduces the prover's transcript.
pub proof fn lemma_ipa_replay(
    log: Seq<TranscriptEntry>,
    Q: Seq<u8>,
    a: Seq<int>,
    b: Seq<int>,
    G: Seq<Seq<u8>>,
    Gf: Seq<int>,
    H: Seq<Seq<u8>>,
    Hf: Seq<int>,
)
    ensures
        ({
            let o = ipa_spec(log, Q, a, b, G, Gf, H, Hf);
            ipa_challenges(log, o.0, o.1).1 == o.4
        }),
    decreases a.len(),
{
    if a.len() > 1 {
        let h = a.len() / 2;
        let a_lo = a.subrange(0, h as int);
        let a_hi = a.subrange(h as int, 2 * h as int);
        let b_lo = b.subrange(0, h as int);
        let b_hi = b.subrange(h as int, 2 * h as int);
        let G_lo = G.subrange(0, h as int);
        let G_hi = G.subrange(h as int, 2 * h as int);
        let H_lo = H.subrange(0, h as int);
        let H_hi = H.subrange(h as int, 2 * h as int);
        let gf_lo = Gf.subrange(0, h as int);
        let gf_hi = Gf.subrange(h as int, 2 * h as int);
        let f_lo = Hf.subrange(0, h as int);
        let f_hi = Hf.subrange(h as int, 2 * h as int);
        let L = vartime_msm_of(
            scale_spec(a_lo, gf_hi) + scale_spec(b_hi, f_lo) + seq![inner_product_spec(a_lo, b_hi, h)],
            G_hi + H_lo + seq![Q],
        );
        let R = vartime_msm_of(
            scale_spec(a_hi, gf_lo) + scale_spec(b_lo, f_hi) + seq![inner_product_spec(a_hi, b_lo, h)],
            G_lo + H_hi + seq![Q],
        );
        let log1 = round_log(log, L, R);
        let u = challenge_value(log1, "u".spec_bytes());
        let ui = finv(u);
        let gf_new = Seq::new(h as nat, |i: int| fmul(ui, gf_lo[i]));
        let hf_new = Seq::new(h as nat, |i: int| fmul(u, f_lo[i]));
        let log2 = with_challenge(log1, "u".spec_bytes());
        let a2 = fold_spec(a_lo, a_hi, u, ui);
        let b2 = fold_spec(b_lo, b_hi, ui, u);
        let G2 = fold_points_spec(G_lo, G_hi, fold_coeffs_spec(u, gf_hi, gf_new));
        let H2 = fold_points_spec(H_lo, H_hi, fold_coeffs_spec(ui, f_hi, hf_new));
        lemma_ipa_replay(log2, Q, a2, b2, G2, gf_new, H2, hf_new);
        let rest = ipa_spec(log2, Q, a2, b2, G2, gf_new, H2, hf_new);
        let o = ipa_spec(log, Q, a, b, G, Gf, H, Hf);
        assert(o.0 == seq![L] + rest.0);
        assert(o.1 == seq![R] + rest.1);
        assert(o.0.drop_first() =~= rest.0);
        assert(o.1.drop_first() =~= rest.1);
    }
}

/// Whether bit `b` of `i` is set.
pub open spec fn bit_set(i: usize, b: nat) -> bool {
    ((i >> (b as usize)) & 1usize) == 1usize
}

/// The product of the first `upto` factors of `s_i`: `u_j` where bit `k - 1 - j` of `i` is
/// set, `u_j^-1` where it is clear.
pub open spec fn s_prod(us: Seq<int>, i: usize, k: nat, upto: nat) -> int
    decreases upto,
{
    if upto == 0 {
        1
    } else {
        let j = (upto - 1) as nat;
        let f = if bit_set(i, (k - 1 - j) as nat) {
            us[j as int]
        } else {
            finv(us[j as int])
        };
        fmul(s_prod(us, i, k, j), f)
    }
}

/// The coefficient `s_i` of the verification equation, for challenges `us`.
pub open spec fn s_spec(us: Seq<int>, i: usize) -> int {
    s_prod(us, i, us.len(), us.len())
}

/// The log after the domain separator of an inner-product argument on vectors of length `n`.
pub open spec fn innerproduct_domain_log(log: Seq<TranscriptEntry>, n: u64) -> Seq<TranscriptEntry> {
    with_message(
        with_message(log, "dom-sep".spec_bytes(), "ipp v1".spec_bytes()),
        "n".spec_bytes(),
        u64_le_bytes(n),
    )
}

/// Starts an inner-product argument on vectors of length `n`.
pub fn innerproduct_domain_sep(t: &mut Transcript, n: u64)
    ensures
        transcript_log(*final(t)) == innerproduct_domain_log(transcript_log(*old(t)), n),
{
    proof {
        reveal_strlit("ipp v1");
        vstd::string::is_ascii_spec_bytes("ipp v1");
    }
    append_message(t, "dom-sep".as_bytes(), "ipp v1".as_bytes());
    append_u64(t, "n".as_bytes(), n);
}

/// The points `lo[i] + cs[i] hi[i]` for each `i`.
pub open spec fn fold_points_spec(lo: Seq<Seq<u8>>, hi: Seq<Seq<u8>>, cs: Seq<int>) -> Seq<Seq<u8>> {
    Seq::new(lo.len(), |i: int| add_of(lo[i], mul_of(hi[i], cs[i])))
}

/// The coefficients `x f_hi[i] / f_new[i]` that fold the high half onto the low half once the
/// low half's factor has become `f_new[i]`.
pub open spec fn fold_coeffs_spec(x: int, f_hi: Seq<int>, f_new: Seq<int>) -> Seq<int> {
    Seq::new(f_hi.len(), |i: int| fmul(fmul(x, f_hi[i]), finv(f_new[i])))
}

/// The log after one round: `L`, `R` and the challenge `u`.
pub open spec fn round_log(log: Seq<TranscriptEntry>, L: Seq<u8>, R: Seq<u8>) -> Seq<TranscriptEntry> {
    with_message(with_message(log, "L".spec_bytes(), L), "R".spec_bytes(), R)
}

/// What the prover sends and leaves in the transcript when it proves `a`, `b` over the bases
/// `Gf[i] G[i]` and `Hf[i] H[i]`: the points `L_j` and `R_j` of each round, the final scalars
/// `a` and `b`, and the transcript's log. A round folds the bases `u^-1 G_lo + u G_hi` and
/// `u H_lo + u^-1 H_hi` as a new factor times `lo + c hi`.
pub open spec fn ipa_spec(
    log: Seq<TranscriptEntry>,
    Q: Seq<u8>,
    a: Seq<int>,
    b: Seq<int>,
    G: Seq<Seq<u8>>,
    Gf: Seq<int>,
    H: Seq<Seq<u8>>,
    Hf: Seq<int>,
) -> (Seq<Seq<u8>>, Seq<Seq<u8>>, int, int, Seq<TranscriptEntry>)
    decreases a.len(),
{
    if a.len() <= 1 {
        (Seq::empty(), Seq::empty(), a[0], b[0], log)
    } else {
        let h = a.len() / 2;
        let a_lo = a.subrange(0, h as int);
        let a_hi = a.subrange(h as int, 2 * h as int);
        let b_lo = b.subrange(0, h as int);
        let b_hi = b.subrange(h as int, 2 * h as int);
        let G_lo = G.subrange(0, h as int);
        let G_hi = G.subrange(h as int, 2 * h as int);
        let H_lo = H.subrange(0, h as int);
        let H_hi = H.subrange(h as int, 2 * h as int);
        let gf_lo = Gf.subrange(0, h as int);
        let gf_hi = Gf.subrange(h as int, 2 * h as int);
        let f_lo = Hf.subrange(0, h as int);
        let f_hi = Hf.subrange(h as int, 2 * h as int);
        let L = vartime_msm_of(
            scale_spec(a_lo, gf_hi) + scale_spec(b_hi, f_lo) + seq![inner_product_spec(a_lo, b_hi, h)],
            G_hi + H_lo + seq![Q],
        );
        let R = vartime_msm_of(
            scale_spec(a_hi, gf_lo) + scale_spec(b_lo, f_hi) + seq![inner_product_spec(a_hi, b_lo, h)],
            G_lo + H_hi + seq![Q],
        );
        let log1 = round_log(log, L, R);
        let u = challenge_value(log1, "u".spec_bytes());
        let ui = finv(u);
        let gf_new = Seq::new(h as nat, |i: int| fmul(ui, gf_lo[i]));
        let hf_new = Seq::new(h as nat, |i: int| fmul(u, f_lo[i]));
        let rest = ipa_spec(
            with_challenge(log1, "u".spec_bytes()),
            Q,
            fold_spec(a_lo, a_hi, u, ui),
            fold_spec(b_lo, b_hi, ui, u),
            fold_points_spec(G_lo, G_hi, fold_coeffs_spec(u, gf_hi, gf_new)),
            gf_new,
            fold_points_spec(H_lo, H_hi, fold_coeffs_spec(ui, f_hi, hf_new)),
            hf_new,
        );
        (seq![L] + rest.0, seq![R] + rest.1, rest.2, rest.3, rest.4)
    }
}

/// The points `lo[i] + cs[i] hi[i]` for each `i`.
pub fn fold_points(lo: &[CompressedPoint], hi: &[CompressedPoint], cs: &[Scalar]) -> (r: Vec<
    CompressedPoint,
>)
    requires
        lo@.len() == hi@.len(),
        cs@.len() == lo@.len(),
        all_decompress(lo@),
        all_decompress(hi@),
    ensures
        r@.len() == lo@.len(),
        point_values(r@) == fold_points_spec(point_values(lo@), point_values(hi@), scalar_values(cs@)),
        all_decompress(r@),
{
    let mut out: Vec<CompressedPoint> = Vec::new();
    let mut i: usize = 0;
    while i < lo.len()
        invariant
            0 <= i <= lo@.len(),
            lo@.len() == hi@.len(),
            cs@.len() == lo@.len(),
            all_decompress(lo@),
            all_decompress(hi@),
            out@.len() == i,
            forall|k: int|
                0 <= k < i ==> (#[trigger] out@[k])@ == add_of(lo@[k]@, mul_of(hi@[k]@, cs@[k]@))
                    && decompresses(out@[k]@),
        decreases lo@.len() - i,
    {
        assert(decompresses(lo@[i as int]@) && decompresses(hi@[i as int]@));
        let m = mul_point(&hi[i], &cs[i]).unwrap();
        out.push(add_points(&lo[i], &m).unwrap());
        i = i + 1;
    }
    assert(point_values(out@) =~= fold_points_spec(
        point_values(lo@),
        point_values(hi@),
        scalar_values(cs@),
    ));
    out
}

/// The coefficients `x f_hi[i] / f_new[i]`.
pub fn fold_coeffs(x: &Scalar, f_hi: &[Scalar], f_new: &[Scalar]) -> (r: Vec<Scalar>)
    requires
        f_hi@.len() == f_new@.len(),
    ensures
        r@.len() == f_hi@.len(),
        scalar_values(r@) == fold_coeffs_spec(x@, scalar_values(f_hi@), scalar_values(f_new@)),
{
    let mut out: Vec<Scalar> = Vec::new();
    let mut i: usize = 0;
    while i < f_hi.len()
        invariant
            0 <= i <= f_hi@.len(),
            f_hi@.len() == f_new@.len(),
            out@.len() == i,
            forall|k: int|
                0 <= k < i ==> (#[trigger] out@[k])@ == fmul(fmul(x@, f_hi@[k]@), finv(f_new@[k]@)),
        decreases f_hi@.len() - i,
    {
        let inv = f_new[i].invert();
        out.push(x.mul(&f_hi[i]).mul(&inv));
        i = i + 1;
    }
    assert(scalar_values(out@) =~= fold_coeffs_spec(
        x@,
        scalar_values(f_hi@),
        scalar_values(f_new@),
    ));
    out
}

/// A proof of knowledge of `a`, `b` with `P = <a, G> + <b, H> + <a, b> Q`.
#[derive(Clone, Debug)]
pub struct InnerProductProof {
    pub L_vec: Vec<CompressedPoint>,
    pub R_vec: Vec<CompressedPoint>,
    pub a: Scalar,
    pub b: Scalar,
}

impl InnerProductProof {
    /// Proves knowledge of `a_vec`, `b_vec` over the bases `G_vec`, `H_factors[i] H_vec[i]`
    /// and `Q`, whose common length is a power of two; each round halves the vectors.
    pub fn create(
        transcript: &mut Transcript,
        Q: &CompressedPoint,
        H_factors: Vec<Scalar>,
        G_vec: Vec<CompressedPoint>,
        H_vec: Vec<CompressedPoint>,
        a_vec: Vec<Scalar>,
        b_vec: Vec<Scalar>,
    ) -> (r: InnerProductProof)
        requires
            is_pow2(a_vec@.len()),
            a_vec@.len() <= u64::MAX,
            H_factors@.len() == a_vec@.len(),
            b_vec@.len() == a_vec@.len(),
            G_vec@.len() == a_vec@.len(),
            H_vec@.len() == a_vec@.len(),
            all_decompress(G_vec@),
            all_decompress(H_vec@),
            decompresses(Q@),
        ensures
            ({
                let o = ipa_spec(
                    innerproduct_domain_log(transcript_log(*old(transcript)), a_vec@.len() as u64),
                    Q@,
                    scalar_values(a_vec@),
                    scalar_values(b_vec@),
                    point_values(G_vec@),
                    Seq::new(a_vec@.len(), |i: int| 1int),
                    point_values(H_vec@),
                    scalar_values(H_factors@),
                );
                &&& point_values(r.L_vec@) == o.0
                &&& point_values(r.R_vec@) == o.1
                &&& r.a@ == o.2
                &&& r.b@ == o.3
                &&& transcript_log(*final(transcript)) == o.4
            }),
    {
        let ghost orig = ipa_spec(
            innerproduct_domain_log(transcript_log(*transcript), a_vec@.len() as u64),
            Q@,
            scalar_values(a_vec@),
            scalar_values(b_vec@),
            point_values(G_vec@),
            Seq::new(a_vec@.len(), |i: int| 1int),
            point_values(H_vec@),
            scalar_values(H_factors@),
        );
        innerproduct_domain_sep(transcript, a_vec.len() as u64);
        let one = Scalar::one();
        let mut gf = repeat(&one, a_vec.len());
        let mut hf = H_factors;
        let mut a = a_vec;
        let mut b = b_vec;
        let mut G = G_vec;
        let mut H = H_vec;
        let mut L_vec: Vec<CompressedPoint> = Vec::new();
        let mut R_vec: Vec<CompressedPoint> = Vec::new();
        let mut n = a.len();
        while n > 1
            invariant
                n == a@.len(),
                is_pow2(n as nat),
                b@.len() == n,
                G@.len() == n,
                H@.len() == n,
                gf@.len() == n,
                hf@.len() == n,
                all_decompress(G@),
                all_decompress(H@),
                decompresses(Q@),
                ({
                    let o = ipa_spec(
                        transcript_log(*transcript),
                        Q@,
                        scalar_values(a@),
                        scalar_values(b@),
                        point_values(G@),
                        scalar_values(gf@),
                        point_values(H@),
                        scalar_values(hf@),
                    );
                    &&& orig.0 == point_values(L_vec@) + o.0
                    &&& orig.1 == point_values(R_vec@) + o.1
                    &&& orig.2 == o.2
                    &&& orig.3 == o.3
                    &&& orig.4 == o.4
                }),
            decreases n,
        {
            let ghost log0 = transcript_log(*transcript);
            let ghost sa = scalar_values(a@);
            let ghost sb = scalar_values(b@);
            let ghost pG = point_values(G@);
            let ghost pH = point_values(H@);
            let ghost pf = scalar_values(hf@);
            let ghost pg = scalar_values(gf@);
            let h = n / 2;
            let a_lo = copy_range(a.as_slice(), 0, h);
            let a_hi = copy_range(a.as_slice(), h, n);
            let b_lo = copy_range(b.as_slice(), 0, h);
            let b_hi = copy_range(b.as_slice(), h, n);
            let G_lo = copy_range(G.as_slice(), 0, h);
            let G_hi = copy_range(G.as_slice(), h, n);
            let H_lo = copy_range(H.as_slice(), 0, h);
            let H_hi = copy_range(H.as_slice(), h, n);
            let f_lo = copy_range(hf.as_slice(), 0, h);
            let f_hi = copy_range(hf.as_slice(), h, n);
            let g_lo = copy_range(gf.as_slice(), 0, h);
            let g_hi = copy_range(gf.as_slice(), h, n);
            assert(scalar_values(g_lo@) =~= pg.subrange(0, h as int));
            assert(scalar_values(g_hi@) =~= pg.subrange(h as int, 2 * h as int));
            assert(2 * h == n);
            assert(scalar_values(f_lo@) =~= pf.subrange(0, h as int));
            assert(scalar_values(f_hi@) =~= pf.subrange(h as int, 2 * h as int));
            assert(scalar_values(a_lo@) =~= sa.subrange(0, h as int));
            assert(scalar_values(a_hi@) =~= sa.subrange(h as int, 2 * h as int));
            assert(scalar_values(b_lo@) =~= sb.subrange(0, h as int));
            assert(scalar_values(b_hi@) =~= sb.subrange(h as int, 2 * h as int));
            assert(point_values(G_lo@) =~= pG.subrange(0, h as int));
            assert(point_values(G_hi@) =~= pG.subrange(h as int, 2 * h as int));
            assert(point_values(H_lo@) =~= pH.subrange(0, h as int));
            assert(point_values(H_hi@) =~= pH.subrange(h as int, 2 * h as int));
            assert(all_decompress(G_lo@) && all_decompress(G_hi@));
            assert(all_decompress(H_lo@) && all_decompress(H_hi@));

            let c_L = inner_product(a_lo.as_slice(), b_hi.as_slice());
            let c_R = inner_product(a_hi.as_slice(), b_lo.as_slice());

            let b_hi_f = scale(b_hi.as_slice(), f_lo.as_slice());
            let b_lo_f = scale(b_lo.as_slice(), f_hi.as_slice());
            let a_lo_f = scale(a_lo.as_slice(), g_hi.as_slice());
            let a_hi_f = scale(a_hi.as_slice(), g_lo.as_slice());
            let mut ls: Vec<Scalar> = Vec::new();
            extend(&mut ls, a_lo_f.as_slice());
            extend(&mut ls, b_hi_f.as_slice());
            ls.push(c_L);
            let mut lp: Vec<CompressedPoint> = Vec::new();
            extend(&mut lp, G_hi.as_slice());
            extend(&mut lp, H_lo.as_slice());
            lp.push(*Q);
            assert(scalar_values(ls@) =~= scalar_values(a_lo_f@) + scalar_values(b_hi_f@) + seq![c_L@]);
            assert(point_values(lp@) =~= point_values(G_hi@) + point_values(H_lo@) + seq![Q@]);
            assert(all_decompress(lp@));
            let L = vartime_multiscalar_mul(ls.as_slice(), lp.as_slice()).unwrap();

            let mut rs: Vec<Scalar> = Vec::new();
            extend(&mut rs, a_hi_f.as_slice());
            extend(&mut rs, b_lo_f.as_slice());
            rs.push(c_R);
            let mut rp: Vec<CompressedPoint> = Vec::new();
            extend(&mut rp, G_lo.as_slice());
            extend(&mut rp, H_hi.as_slice());
            rp.push(*Q);
            assert(scalar_values(rs@) =~= scalar_values(a_hi_f@) + scalar_values(b_lo_f@) + seq![c_R@]);
            assert(point_values(rp@) =~= point_values(G_lo@) + point_values(H_hi@) + seq![Q@]);
            assert(all_decompress(rp@));
            let R = vartime_multiscalar_mul(rs.as_slice(), rp.as_slice()).unwrap();

            append_point(transcript, "L".as_bytes(), &L);
            append_point(transcript, "R".as_bytes(), &R);
            let u = challenge_scalar(transcript, "u".as_bytes());
            let u_inv = u.invert();

            a = fold_scalars(a_lo.as_slice(), a_hi.as_slice(), &u, &u_inv);
            b = fold_scalars(b_lo.as_slice(), b_hi.as_slice(), &u_inv, &u);
            let uis = repeat(&u_inv, h);
            let us = repeat(&u, h);
            let gf_new = scale(uis.as_slice(), g_lo.as_slice());
            let hf_new = scale(us.as_slice(), f_lo.as_slice());
            let gc = fold_coeffs(&u, g_hi.as_slice(), gf_new.as_slice());
            let hc = fold_coeffs(&u_inv, f_hi.as_slice(), hf_new.as_slice());
            assert(scalar_values(gf_new@) =~= Seq::new(
                h as nat,
                |i: int| fmul(u_inv@, pg.subrange(0, h as int)[i]),
            ));
            assert(scalar_values(hf_new@) =~= Seq::new(
                h as nat,
                |i: int| fmul(u@, pf.subrange(0, h as int)[i]),
            ));
            G = fold_points(G_lo.as_slice(), G_hi.as_slice(), gc.as_slice());
            H = fold_points(H_lo.as_slice(), H_hi.as_slice(), hc.as_slice());
            gf = gf_new;
            hf = hf_new;

            L_vec.push(L);
            R_vec.push(R);
            assert(point_values(L_vec@) =~= point_values(L_vec@.drop_last()) + seq![L@]);
            assert(point_values(R_vec@) =~= point_values(R_vec@.drop_last()) + seq![R@]);
            n = h;
            proof {
                let o = ipa_spec(log0, Q@, sa, sb, pG, pg, pH, pf);
                let rest = ipa_spec(
                    transcript_log(*transcript),
                    Q@,
                    scalar_values(a@),
                    scalar_values(b@),
                    point_values(G@),
                    scalar_values(gf@),
                    point_values(H@),
                    scalar_values(hf@),
                );
                assert(o.0 == seq![L@] + rest.0);
                assert(orig.0 =~= point_values(L_vec@) + rest.0);
                assert(orig.1 =~= point_values(R_vec@) + rest.1);
            }
        }
        let a_fin = a[0];
        let b_fin = b[0];
        InnerProductProof { L_vec, R_vec, a: a_fin, b: b_fin }
    }

    /// Replays the proof's points into the transcript and computes the scalars of the
    /// verification equation for vectors of length `n`: `u_j^2`, `u_j^-2` and `s_i`. Fails
    /// where `n` is not `2^k` for the proof's number `k` of rounds.
    pub fn verification_scalars(&self, n: usize, transcript: &mut Transcript) -> (r: Result<
        (Vec<Scalar>, Vec<Scalar>, Vec<Scalar>),
        ProofError,
    >)
        ensures
            r is Err <==> !(is_pow2(n as nat) && log2(n as nat) == self.L_vec@.len()
                && self.R_vec@.len() == self.L_vec@.len() && self.L_vec@.len() < 32),
            r is Err ==> r->Err_0 == ProofError::VerificationError && *final(transcript) == *old(
                transcript,
            ),
            r is Ok ==> ({
                let (us, log) = ipa_challenges(
                    innerproduct_domain_log(transcript_log(*old(transcript)), n as u64),
                    point_values(self.L_vec@),
                    point_values(self.R_vec@),
                );
                let (u_sq, u_inv_sq, s) = r->Ok_0;
                &&& transcript_log(*final(transcript)) == log
                &&& us.len() == self.L_vec@.len()
                &&& u_sq@.len() == us.len()
                &&& u_inv_sq@.len() == us.len()
                &&& s@.len() == n
                &&& forall|j: int| 0 <= j < us.len() ==> (#[trigger] u_sq@[j])@ == fmul(us[j], us[j])
                &&& forall|j: int|
                    0 <= j < us.len() ==> (#[trigger] u_inv_sq@[j])@ == fmul(
                        finv(us[j]),
                        finv(us[j]),
                    )
                &&& forall|i: int| 0 <= i < n ==> (#[trigger] s@[i])@ == s_spec(us, i as usize)
            }),
    {
        let lg_n = self.L_vec.len();
        match exact_log2(n) {
            None => {
                return Err(ProofError::VerificationError);
            },
            Some(k) => {
                if k != lg_n || self.R_vec.len() != lg_n || lg_n >= 32 {
                    return Err(ProofError::VerificationError);
                }
            },
        }
        let ghost Ls = point_values(self.L_vec@);
        let ghost Rs = point_values(self.R_vec@);
        let ghost log0 = innerproduct_domain_log(transcript_log(*transcript), n as u64);
        innerproduct_domain_sep(transcript, n as u64);
        let mut us: Vec<Scalar> = Vec::new();
        assert(Ls.subrange(0, lg_n as int) =~= Ls);
        assert(Rs.subrange(0, lg_n as int) =~= Rs);
        assert(scalar_values(us@) + ipa_challenges(log0, Ls, Rs).0 =~= ipa_challenges(log0, Ls, Rs).0);
        let mut i: usize = 0;
        while i < lg_n
            invariant
                0 <= i <= lg_n,
                lg_n == self.L_vec@.len(),
                lg_n == self.R_vec@.len(),
                Ls == point_values(self.L_vec@),
                Rs == point_values(self.R_vec@),
                us@.len() == i,
                ({
                    let whole = ipa_challenges(log0, Ls, Rs);
                    let rest = ipa_challenges(
                        transcript_log(*transcript),
                        Ls.subrange(i as int, lg_n as int),
                        Rs.subrange(i as int, lg_n as int),
                    );
                    &&& whole.0 == scalar_values(us@) + rest.0
                    &&& whole.1 == rest.1
                }),
            decreases lg_n - i,
        {
            let ghost log_i = transcript_log(*transcript);
            append_point(transcript, "L".as_bytes(), &self.L_vec[i]);
            append_point(transcript, "R".as_bytes(), &self.R_vec[i]);
            let u = challenge_scalar(transcript, "u".as_bytes());
            proof {
                let tl = Ls.subrange(i as int, lg_n as int);
                let tr = Rs.subrange(i as int, lg_n as int);
                assert(tl.drop_first() =~= Ls.subrange(i + 1, lg_n as int));
                assert(tr.drop_first() =~= Rs.subrange(i + 1, lg_n as int));
                assert(tl[0] == self.L_vec@[i as int]@);
                assert(tr[0] == self.R_vec@[i as int]@);
            }
            us.push(u);
            i = i + 1;
            assert(scalar_values(us@) =~= scalar_values(us@.drop_last()) + seq![u@]);
        }
        proof {
            assert(Ls.subrange(lg_n as int, lg_n as int).len() == 0);
            assert(scalar_values(us@) =~= scalar_values(us@) + Seq::<int>::empty());
        }
        let ghost uvals = scalar_values(us@);
        let mut u_inv: Vec<Scalar> = Vec::new();
        let mut u_sq: Vec<Scalar> = Vec::new();
        let mut u_inv_sq: Vec<Scalar> = Vec::new();
        let mut j: usize = 0;
        while j < lg_n
            invariant
                0 <= j <= lg_n,
                us@.len() == lg_n,
                uvals == scalar_values(us@),
                u_inv@.len() == j,
                u_sq@.len() == j,
                u_inv_sq@.len() == j,
                forall|q: int| 0 <= q < j ==> (#[trigger] u_sq@[q])@ == fmul(uvals[q], uvals[q]),
                forall|q: int|
                    0 <= q < j ==> (#[trigger] u_inv_sq@[q])@ == fmul(finv(uvals[q]), finv(uvals[q])),
                forall|q: int| 0 <= q < j ==> (#[trigger] u_inv@[q])@ == finv(uvals[q]),
            decreases lg_n - j,
        {
            let ui = us[j].invert();
            u_sq.push(us[j].mul(&us[j]));
            u_inv_sq.push(ui.mul(&ui));
            u_inv.push(ui);
            j = j + 1;
        }
        let mut s: Vec<Scalar> = Vec::new();
        let mut i: usize = 0;
        while i < n
            invariant
                0 <= i <= n,
                lg_n < 32,
                us@.len() == lg_n,
                u_inv@.len() == lg_n,
                uvals == scalar_values(us@),
                forall|q: int| 0 <= q < lg_n ==> (#[trigger] u_inv@[q])@ == finv(uvals[q]),
                s@.len() == i,
                forall|q: int| 0 <= q < i ==> (#[trigger] s@[q])@ == s_spec(uvals, q as usize),
            decreases n - i,
        {
            let mut prod = Scalar::one();
            let mut j: usize = 0;
            while j < lg_n
                invariant
                    0 <= j <= lg_n,
                    lg_n < 32,
                    us@.len() == lg_n,
                    u_inv@.len() == lg_n,
                    uvals == scalar_values(us@),
                    forall|q: int| 0 <= q < lg_n ==> (#[trigger] u_inv@[q])@ == finv(uvals[q]),
                    prod@ == s_prod(uvals, i, lg_n as nat, j as nat),
                decreases lg_n - j,
            {
                let b: usize = lg_n - 1 - j;
                if (i >> b) & 1 == 1 {
                    prod = prod.mul(&us[j]);
                } else {
                    prod = prod.mul(&u_inv[j]);
                }
                j = j + 1;
            }
            s.push(prod);
            i = i + 1;
        }
        Ok((u_sq, u_inv_sq, s))
    }
}

} // verus!

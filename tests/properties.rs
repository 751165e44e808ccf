use bulletproofs::dealer::Dealer;
use bulletproofs::errors::{MPCError, ProofError};
use bulletproofs::generators::{Generators, PedersenGens};
use bulletproofs::party::{Party, PartyDraws};
use bulletproofs::point::{hash_to_point, select_point, CompressedPoint};
use bulletproofs::range_proof::{delta, RangeProof};
use bulletproofs::scalar::Scalar;
use bulletproofs::util::{inner_product, powers, sum_of_powers, Poly2, VecPoly1};
use merlin::Transcript;
use rand::rngs::StdRng;
use rand::{Rng, SeedableRng};

type DalekScalar = curve25519_dalek::scalar::Scalar;

fn random_scalar(rng: &mut StdRng) -> Scalar {
    Scalar::from_bytes(DalekScalar::random(rng).to_bytes()).unwrap()
}

fn s(v: u64) -> Scalar {
    Scalar::from_u64(v)
}

/// Proves `values` with `n` bits and returns the proof with its commitments.
fn prove(
    generators: &Generators,
    label: &'static [u8],
    rng: &mut StdRng,
    values: &[u64],
    blindings: &[Scalar],
    n: usize,
) -> (RangeProof, Vec<CompressedPoint>) {
    let mut transcript = Transcript::new(label);
    let proof =
        RangeProof::prove_multiple(generators, &mut transcript, rng, values, blindings, n).unwrap();
    let pg = generators.pedersen_gens;
    let commitments = values
        .iter()
        .zip(blindings.iter())
        .map(|(&v, b)| pg.commit(&Scalar::from_u64(v), b))
        .collect();
    (proof, commitments)
}

fn verify(
    generators: &Generators,
    label: &'static [u8],
    proof: &RangeProof,
    commitments: &[CompressedPoint],
    n: usize,
) -> Result<(), ProofError> {
    let mut rng = StdRng::seed_from_u64(99);
    let mut transcript = Transcript::new(label);
    proof.verify(commitments, generators, &mut transcript, &mut rng, n)
}

#[test]
fn single_value_one_proof_is_608_bytes() {
    let generators = Generators::new(PedersenGens::default(), 32, 1);
    let mut rng = StdRng::seed_from_u64(1);
    let (proof, vc) = prove(&generators, b"L", &mut rng, &[1], &[Scalar::one()], 32);
    let bytes = proof.to_bytes();
    assert_eq!(bytes.len(), 608);
    let back = RangeProof::from_bytes(&bytes).unwrap();
    assert_eq!(back.to_bytes(), bytes);
    assert_eq!(verify(&generators, b"L", &back, &vc, 32), Ok(()));
}

#[test]
fn extreme_values_verify() {
    let generators = Generators::new(PedersenGens::default(), 32, 2);
    let mut rng = StdRng::seed_from_u64(2);
    let blindings = vec![random_scalar(&mut rng), random_scalar(&mut rng)];
    let (proof, vc) = prove(&generators, b"L", &mut rng, &[0, (1u64 << 32) - 1], &blindings, 32);
    assert_eq!(verify(&generators, b"L", &proof, &vc, 32), Ok(()));
}

#[test]
fn four_values_of_64_bits_is_800_bytes() {
    let generators = Generators::new(PedersenGens::default(), 64, 4);
    let mut rng = StdRng::seed_from_u64(3);
    let values: Vec<u64> = (0..4).map(|_| rng.gen::<u64>()).collect();
    let blindings: Vec<Scalar> = (0..4).map(|_| random_scalar(&mut rng)).collect();
    let (proof, vc) = prove(&generators, b"L", &mut rng, &values, &blindings, 64);
    assert_eq!(proof.to_bytes().len(), 800);
    assert_eq!(verify(&generators, b"L", &proof, &vc, 64), Ok(()));
}

#[test]
fn tampered_t_x_fails() {
    let generators = Generators::new(PedersenGens::default(), 8, 1);
    let mut rng = StdRng::seed_from_u64(4);
    let (proof, vc) = prove(&generators, b"L", &mut rng, &[200], &[s(5)], 8);
    let mut bytes = proof.to_bytes();
    bytes[4 * 32] ^= 1;
    let tampered = RangeProof::from_bytes(&bytes).unwrap();
    assert_eq!(
        verify(&generators, b"L", &tampered, &vc, 8),
        Err(ProofError::VerificationError)
    );
}

#[test]
fn same_inputs_same_proof() {
    let generators = Generators::new(PedersenGens::default(), 16, 2);
    let mut rng1 = StdRng::seed_from_u64(5);
    let mut rng2 = StdRng::seed_from_u64(5);
    let (p1, _) = prove(&generators, b"D", &mut rng1, &[3, 9], &[s(1), s(2)], 16);
    let (p2, _) = prove(&generators, b"D", &mut rng2, &[3, 9], &[s(1), s(2)], 16);
    assert_eq!(p1.to_bytes(), p2.to_bytes());
}

#[test]
fn out_of_range_value_fails() {
    let generators = Generators::new(PedersenGens::default(), 32, 1);
    let mut rng = StdRng::seed_from_u64(6);
    let (proof, vc) = prove(&generators, b"L", &mut rng, &[u64::MAX], &[s(3)], 32);
    assert_eq!(
        verify(&generators, b"L", &proof, &vc, 32),
        Err(ProofError::VerificationError)
    );
}

#[test]
fn other_label_fails() {
    let generators = Generators::new(PedersenGens::default(), 8, 1);
    let mut rng = StdRng::seed_from_u64(7);
    let (proof, vc) = prove(&generators, b"one", &mut rng, &[7], &[s(3)], 8);
    assert_eq!(verify(&generators, b"one", &proof, &vc, 8), Ok(()));
    assert_eq!(
        verify(&generators, b"two", &proof, &vc, 8),
        Err(ProofError::VerificationError)
    );
}

#[test]
fn prove_errors() {
    let generators = Generators::new(PedersenGens::default(), 16, 4);
    let mut rng = StdRng::seed_from_u64(8);
    let mut t = Transcript::new(b"E");
    let r = RangeProof::prove_multiple(&generators, &mut t, &mut rng, &[1, 2], &[s(1)], 16);
    assert_eq!(r.err(), Some(ProofError::WrongNumBlindingFactors));
    let r = RangeProof::prove_multiple(&generators, &mut t, &mut rng, &[1], &[s(1)], 12);
    assert_eq!(r.err(), Some(ProofError::InvalidBitsize));
    let r = RangeProof::prove_multiple(&generators, &mut t, &mut rng, &[1], &[s(1)], 32);
    assert_eq!(r.err(), Some(ProofError::InvalidGeneratorsLength));
    let r = RangeProof::prove_multiple(
        &generators,
        &mut t,
        &mut rng,
        &[1; 5],
        &[s(1), s(1), s(1), s(1), s(1)],
        16,
    );
    assert_eq!(r.err(), Some(ProofError::InvalidGeneratorsLength));
    let r = RangeProof::prove_multiple(&generators, &mut t, &mut rng, &[1, 2, 3], &[s(1), s(2), s(3)], 16);
    assert_eq!(
        r.err(),
        Some(ProofError::ProvingError(MPCError::InvalidAggregation))
    );
    let r = RangeProof::prove_single(&generators, &mut t, &mut rng, 1, &s(1), 64);
    assert_eq!(r.err(), Some(ProofError::InvalidGeneratorsLength));
}

#[test]
fn verify_errors() {
    let generators = Generators::new(PedersenGens::default(), 8, 1);
    let mut rng = StdRng::seed_from_u64(9);
    let (proof, vc) = prove(&generators, b"L", &mut rng, &[7], &[s(3)], 8);
    assert_eq!(verify(&generators, b"L", &proof, &vc, 9), Err(ProofError::InvalidBitsize));
    assert_eq!(
        verify(&generators, b"L", &proof, &vc, 16),
        Err(ProofError::InvalidGeneratorsLength)
    );
    let two = vec![vc[0], vc[0]];
    assert_eq!(
        verify(&generators, b"L", &proof, &two, 8),
        Err(ProofError::InvalidGeneratorsLength)
    );
    let other = generators.pedersen_gens.commit(&s(8), &s(3));
    assert_eq!(
        verify(&generators, b"L", &proof, &[other], 8),
        Err(ProofError::VerificationError)
    );
}

#[test]
fn from_bytes_errors() {
    let generators = Generators::new(PedersenGens::default(), 8, 1);
    let mut rng = StdRng::seed_from_u64(10);
    let (proof, _) = prove(&generators, b"L", &mut rng, &[7], &[s(3)], 8);
    let bytes = proof.to_bytes();
    assert_eq!(bytes.len(), 32 * (9 + 2 * 3));
    assert_eq!(RangeProof::from_bytes(&bytes[..bytes.len() - 1]).err(), Some(ProofError::FormatError));
    assert_eq!(RangeProof::from_bytes(&bytes[..8 * 32]).err(), Some(ProofError::FormatError));
    assert_eq!(RangeProof::from_bytes(&bytes[..10 * 32]).err(), Some(ProofError::FormatError));
    let mut short = bytes[..7 * 32].to_vec();
    short.extend_from_slice(&bytes[bytes.len() - 64..]);
    let parsed = RangeProof::from_bytes(&short).unwrap();
    assert_eq!(parsed.ipp_proof.L_vec.len(), 0);
    assert_eq!(parsed.to_bytes(), short);
    let mut bad = bytes.clone();
    for b in bad[5 * 32..6 * 32].iter_mut() {
        *b = 0xff;
    }
    assert_eq!(RangeProof::from_bytes(&bad).err(), Some(ProofError::FormatError));
}

#[test]
fn mpc_errors() {
    let generators = Generators::new(PedersenGens::default(), 8, 2);
    let mut t = Transcript::new(b"M");
    assert!(matches!(Party::new(1, s(1), 7, &generators), Err(MPCError::InvalidBitsize)));
    assert!(matches!(Party::new(1, s(1), 16, &generators), Err(MPCError::InvalidGeneratorsLength)));
    assert!(matches!(Dealer::new(&generators, 8, 4, &mut t), Err(MPCError::InvalidGeneratorsLength)));
    let mut rng = StdRng::seed_from_u64(11);
    let dealer = Dealer::new(&generators, 8, 2, &mut t).unwrap();
    let p0 = Party::new(1, s(1), 8, &generators).unwrap();
    let (p0, vc0) = p0.assign_position(0, &mut rng);
    assert!(matches!(
        Dealer::new(&generators, 8, 2, &mut t)
            .unwrap()
            .receive_value_commitments(vec![vc0], &mut t),
        Err(MPCError::WrongNumValueCommitments)
    ));
    let p1 = Party::new(2, s(2), 8, &generators).unwrap();
    let (p1, vc1) = p1.assign_position(1, &mut rng);
    let (dealer, vch) = dealer.receive_value_commitments(vec![vc0, vc1], &mut t).unwrap();
    let (p0, pc0) = p0.apply_challenge(&vch, &mut rng);
    let (p1, pc1) = p1.apply_challenge(&vch, &mut rng);
    let (dealer, pch) = dealer.receive_poly_commitments(vec![pc0, pc1], &mut t).unwrap();
    let s0 = p0.apply_challenge(&pch).unwrap();
    let s1 = p1.apply_challenge(&pch).unwrap();
    assert!(dealer.audit_share(0, &s0));
    assert!(dealer.audit_share(1, &s1));
    assert!(!dealer.audit_share(0, &s1));
    assert!(matches!(
        dealer.receive_shares(&[s0.clone()], &mut t),
        Err(MPCError::WrongNumProofShares)
    ));
}

#[test]
fn honest_shares_assemble_into_a_valid_proof() {
    let generators = Generators::new(PedersenGens::default(), 8, 2);
    let mut t = Transcript::new(b"H");
    let mut rng = StdRng::seed_from_u64(12);
    let dealer = Dealer::new(&generators, 8, 2, &mut t).unwrap();
    let p0 = Party::new(10, s(4), 8, &generators).unwrap();
    let p1 = Party::new(250, s(6), 8, &generators).unwrap();
    let (p0, vc0) = p0.assign_position(0, &mut rng);
    let (p1, vc1) = p1.assign_position(1, &mut rng);
    let (dealer, vch) = dealer.receive_value_commitments(vec![vc0, vc1], &mut t).unwrap();
    let (p0, pc0) = p0.apply_challenge(&vch, &mut rng);
    let (p1, pc1) = p1.apply_challenge(&vch, &mut rng);
    let (dealer, pch) = dealer.receive_poly_commitments(vec![pc0, pc1], &mut t).unwrap();
    let s0 = p0.apply_challenge(&pch).unwrap();
    let s1 = p1.apply_challenge(&pch).unwrap();
    let proof = dealer.receive_shares(&[s0, s1], &mut t).unwrap();
    assert_eq!(verify(&generators, b"H", &proof, &[vc0.V, vc1.V], 8), Ok(()));
}

#[test]
fn delta_of_two_values() {
    // n = 8, m = 2, y = 1, z = 2: (2 - 4) * 16 - 8 * 255 * 3.
    let d = delta(8, 2, &s(1), &s(2));
    let want = DalekScalar::ZERO - DalekScalar::from(32u64) - DalekScalar::from(8u64 * 255 * 3);
    assert_eq!(d.to_bytes(), want.to_bytes());
}

#[test]
fn field_helpers() {
    let p = powers(&s(2), 5);
    let want: Vec<[u8; 32]> = [1u64, 2, 4, 8, 16].iter().map(|&v| s(v).to_bytes()).collect();
    let got: Vec<[u8; 32]> = p.iter().map(|x| x.to_bytes()).collect();
    assert_eq!(got, want);
    assert_eq!(sum_of_powers(&s(2), 4).to_bytes(), s(15).to_bytes());
    assert_eq!(
        inner_product(&[s(1), s(2), s(3)], &[s(4), s(5), s(6)]).to_bytes(),
        s(32).to_bytes()
    );
    assert_eq!(Poly2(s(1), s(2), s(3)).eval(&s(2)).to_bytes(), s(17).to_bytes());
    let l = VecPoly1(vec![s(1), s(2)], vec![s(3), s(4)]);
    let r = VecPoly1(vec![s(5), s(6)], vec![s(7), s(8)]);
    let t = l.inner_product(&r);
    // <l0, r0> = 17, <l1, r1> = 53, <l0 + l1, r0 + r1> - 17 - 53 = 4*12 + 6*14 - 70 = 62.
    assert_eq!(t.0.to_bytes(), s(17).to_bytes());
    assert_eq!(t.1.to_bytes(), s(62).to_bytes());
    assert_eq!(t.2.to_bytes(), s(53).to_bytes());
    let e = l.eval(&s(10));
    assert_eq!(e[0].to_bytes(), s(31).to_bytes());
    assert_eq!(e[1].to_bytes(), s(42).to_bytes());
    assert!(Scalar::zero() == s(0));
    assert!(Scalar::one() != s(2));
}

#[test]
fn scalar_encoding() {
    let l_bytes = DalekScalar::ZERO - DalekScalar::ONE;
    let mut ell = l_bytes.to_bytes();
    assert!(Scalar::from_bytes(ell).is_some());
    ell[0] += 1;
    assert!(Scalar::from_bytes(ell).is_none());
    assert!(Scalar::from_bytes([0xff; 32]).is_none());
    assert_eq!(s(258).to_bytes()[..2], [2, 1]);
}

#[test]
fn points_and_generators() {
    let pg = PedersenGens::default();
    let c1 = pg.commit(&s(1), &s(0));
    assert_eq!(c1, pg.B);
    let c2 = pg.commit(&s(0), &s(1));
    assert_eq!(c2, pg.B_blinding);
    assert_eq!(pg.B_blinding, hash_to_point(&pg.B.bytes));
    assert!(CompressedPoint::identity().is_identity());
    assert!(!pg.B.is_identity());
    assert_eq!(pg.commit(&s(0), &s(0)), CompressedPoint::identity());
    assert_eq!(select_point(&pg.B, &pg.B_blinding, 1), Some(pg.B_blinding));
    assert_eq!(select_point(&pg.B, &pg.B_blinding, 0), Some(pg.B));
    assert_eq!(select_point(&pg.B, &CompressedPoint { bytes: [0xff; 32] }, 0), None);
    let small = Generators::new(pg, 4, 1);
    let big = Generators::new(pg, 8, 3);
    assert_eq!(small.G_vec[0][..4], big.G_vec[0][..4]);
    assert_eq!(small.H_vec[0][..4], big.H_vec[0][..4]);
    assert_ne!(big.G_vec[0][0], big.H_vec[0][0]);
    assert_ne!(big.G_vec[0][0], big.G_vec[1][0]);
    assert_eq!(big.G(4, 2).len(), 8);
    assert_eq!(big.G(4, 2)[4], big.G_vec[1][0]);
}

#[test]
fn same_draws_same_proof() {
    let generators = Generators::new(PedersenGens::default(), 8, 2);
    let mut rng = StdRng::seed_from_u64(13);
    let draws: Vec<PartyDraws> = (0..2).map(|_| PartyDraws::draw(8, &mut rng)).collect();
    let mut t1 = Transcript::new(b"W");
    let mut t2 = Transcript::new(b"W");
    let p1 = RangeProof::prove_multiple_with(&generators, &mut t1, &[5, 6], &[s(1), s(2)], &draws, 8)
        .unwrap();
    let p2 = RangeProof::prove_multiple_with(&generators, &mut t2, &[5, 6], &[s(1), s(2)], &draws, 8)
        .unwrap();
    assert_eq!(p1.to_bytes(), p2.to_bytes());
    let pg = generators.pedersen_gens;
    let vc = vec![pg.commit(&s(5), &s(1)), pg.commit(&s(6), &s(2))];
    assert_eq!(verify(&generators, b"W", &p1, &vc, 8), Ok(()));
}

#[test]
fn single_equals_multiple_of_one() {
    let generators = Generators::new(PedersenGens::default(), 16, 1);
    let mut rng1 = StdRng::seed_from_u64(14);
    let mut rng2 = StdRng::seed_from_u64(14);
    let mut t1 = Transcript::new(b"O");
    let mut t2 = Transcript::new(b"O");
    let p1 = RangeProof::prove_single(&generators, &mut t1, &mut rng1, 77, &s(3), 16).unwrap();
    let p2 =
        RangeProof::prove_multiple(&generators, &mut t2, &mut rng2, &[77], &[s(3)], 16).unwrap();
    assert_eq!(p1.to_bytes(), p2.to_bytes());
    assert_eq!(p1.to_bytes().len(), 32 * (9 + 2 * 4));
}

#[test]
fn pedersen_validity() {
    let pg = PedersenGens::default();
    assert!(pg.is_valid());
    let bad = PedersenGens { B: pg.B, B_blinding: CompressedPoint { bytes: [0xff; 32] } };
    assert!(!bad.is_valid());
    assert!(CompressedPoint::identity().is_valid());
}

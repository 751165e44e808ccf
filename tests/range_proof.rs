use bulletproofs::dealer::Dealer;
use bulletproofs::errors::{MPCError, ProofError};
use bulletproofs::generators::{Generators, PedersenGens};
use bulletproofs::party::Party;
use bulletproofs::point::CompressedPoint;
use bulletproofs::range_proof::{delta, RangeProof};
use bulletproofs::scalar::Scalar;
use merlin::Transcript;
use rand::rngs::StdRng;
use rand::{Rng, SeedableRng};

type DalekScalar = curve25519_dalek::scalar::Scalar;

fn to_lib(s: DalekScalar) -> Scalar {
    Scalar::from_bytes(s.to_bytes()).unwrap()
}

fn random_scalar(rng: &mut StdRng) -> Scalar {
    to_lib(DalekScalar::random(rng))
}

fn delta_check(n: usize, m: usize) {
    let mut rng = StdRng::from_entropy();
    let y = DalekScalar::random(&mut rng);
    let z = DalekScalar::random(&mut rng);

    let z2 = z * z;
    let z3 = z2 * z;
    let mut power_g = DalekScalar::ZERO;
    let mut exp_y = DalekScalar::ONE;
    let mut exp_2 = DalekScalar::ONE;
    for _ in 0..n {
        power_g += (z - z2) * exp_y - z3 * exp_2;
        exp_y = exp_y * y;
        exp_2 = exp_2 + exp_2;
    }

    let d = delta(n, m, &to_lib(y), &to_lib(z));
    assert_eq!(power_g.to_bytes(), d.to_bytes());
}

#[test]
fn range_proof_test_delta() {
    delta_check(256, 1);
}

#[test]
fn mod_test_delta() {
    delta_check(256, 1);
}

/// Proves one value, round-trips the proof through its wire format, verifies it, and checks
/// that a transcript with another label rejects it.
fn create_and_verify_helper(n: usize) {
    let generators = Generators::new(PedersenGens::default(), n, 1);
    let proof_bytes: Vec<u8>;
    let commitment: CompressedPoint;
    {
        let mut transcript = Transcript::new(b"RangeproofTest");
        let mut rng = StdRng::from_entropy();
        let v: u64 = rng.gen_range(0..(1u64 << (n - 1)) - 1);
        let v_blinding = random_scalar(&mut rng);
        let proof = RangeProof::prove_single(
            &generators,
            &mut transcript,
            &mut rng,
            v,
            &v_blinding,
            n,
        )
        .unwrap();
        proof_bytes = proof.to_bytes();
        commitment = generators
            .pedersen_gens
            .commit(&Scalar::from_u64(v), &v_blinding);
    }
    {
        let proof = RangeProof::from_bytes(&proof_bytes).unwrap();
        let mut rng = StdRng::from_entropy();
        let mut transcript = Transcript::new(b"RangeproofTest");
        assert!(proof
            .verify_single(&commitment, &generators, &mut transcript, &mut rng, n)
            .is_ok());
        let mut transcript = Transcript::new(b"");
        assert!(proof
            .verify_single(&commitment, &generators, &mut transcript, &mut rng, n)
            .is_err());
    }
}

#[test]
fn create_and_verify_8() {
    create_and_verify_helper(8);
}

#[test]
fn create_and_verify_16() {
    create_and_verify_helper(16);
}

#[test]
fn create_and_verify_32() {
    create_and_verify_helper(32);
}

#[test]
fn create_and_verify_64() {
    create_and_verify_helper(64);
}

/// Proves `m` random values of `n` bits, round-trips the proof through its wire format and
/// verifies it; returns the proof's bytes.
fn singleparty_create_and_verify_helper(n: usize, m: usize) -> Vec<u8> {
    let max_bitsize = 64;
    let max_parties = 8;
    let generators = Generators::new(PedersenGens::default(), max_bitsize, max_parties);

    let proof_bytes: Vec<u8>;
    let value_commitments: Vec<CompressedPoint>;
    {
        let mut rng = StdRng::from_entropy();
        let mut transcript = Transcript::new(b"AggregatedRangeProofTest");
        let (min, max) = (0u64, ((1u128 << n) - 1) as u64);
        let values: Vec<u64> = (0..m).map(|_| rng.gen_range(min..max)).collect();
        let blindings: Vec<Scalar> = (0..m).map(|_| random_scalar(&mut rng)).collect();
        let proof = RangeProof::prove_multiple(
            &generators,
            &mut transcript,
            &mut rng,
            &values,
            &blindings,
            n,
        )
        .unwrap();
        proof_bytes = proof.to_bytes();
        let pg = &generators.pedersen_gens;
        value_commitments = values
            .iter()
            .zip(blindings.iter())
            .map(|(&v, v_blinding)| pg.commit(&Scalar::from_u64(v), v_blinding))
            .collect();
    }
    {
        let proof = RangeProof::from_bytes(&proof_bytes).unwrap();
        let mut rng = StdRng::from_entropy();
        let mut transcript = Transcript::new(b"AggregatedRangeProofTest");
        assert!(proof
            .verify(&value_commitments, &generators, &mut transcript, &mut rng, n)
            .is_ok());
    }
    proof_bytes
}

#[test]
fn create_and_verify_n_32_m_1() {
    singleparty_create_and_verify_helper(32, 1);
}

#[test]
fn create_and_verify_n_32_m_2() {
    singleparty_create_and_verify_helper(32, 2);
}

#[test]
fn create_and_verify_n_32_m_4() {
    singleparty_create_and_verify_helper(32, 4);
}

#[test]
fn create_and_verify_n_32_m_8() {
    singleparty_create_and_verify_helper(32, 8);
}

#[test]
fn create_and_verify_n_64_m_1() {
    singleparty_create_and_verify_helper(64, 1);
}

#[test]
fn create_and_verify_n_64_m_2() {
    singleparty_create_and_verify_helper(64, 2);
}

#[test]
fn create_and_verify_n_64_m_4() {
    singleparty_create_and_verify_helper(64, 4);
}

#[test]
fn create_and_verify_n_64_m_8() {
    singleparty_create_and_verify_helper(64, 8);
}

#[test]
fn detect_dishonest_party_during_aggregation() {
    let m = 4;
    let n = 32;

    let generators = Generators::new(PedersenGens::default(), n, m);

    let mut rng = StdRng::from_entropy();
    let mut transcript = Transcript::new(b"AggregatedRangeProofTest");

    let v0 = rng.gen::<u32>() as u64;
    let v0_blinding = random_scalar(&mut rng);
    let party0 = Party::new(v0, v0_blinding, n, &generators).unwrap();

    let v2 = rng.gen::<u32>() as u64;
    let v2_blinding = random_scalar(&mut rng);
    let party2 = Party::new(v2, v2_blinding, n, &generators).unwrap();

    // Parties 1 and 3 commit to values that need more than 32 bits.
    let v1 = rng.gen::<u64>() | (1u64 << 63);
    let v1_blinding = random_scalar(&mut rng);
    let party1 = Party::new(v1, v1_blinding, n, &generators).unwrap();

    let v3 = rng.gen::<u64>() | (1u64 << 63);
    let v3_blinding = random_scalar(&mut rng);
    let party3 = Party::new(v3, v3_blinding, n, &generators).unwrap();

    let dealer = Dealer::new(&generators, n, m, &mut transcript).unwrap();

    let (party0, value_com0) = party0.assign_position(0, &mut rng);
    let (party1, value_com1) = party1.assign_position(1, &mut rng);
    let (party2, value_com2) = party2.assign_position(2, &mut rng);
    let (party3, value_com3) = party3.assign_position(3, &mut rng);

    let (dealer, value_challenge) = dealer
        .receive_value_commitments(
            vec![value_com0, value_com1, value_com2, value_com3],
            &mut transcript,
        )
        .unwrap();

    let (party0, poly_com0) = party0.apply_challenge(&value_challenge, &mut rng);
    let (party1, poly_com1) = party1.apply_challenge(&value_challenge, &mut rng);
    let (party2, poly_com2) = party2.apply_challenge(&value_challenge, &mut rng);
    let (party3, poly_com3) = party3.apply_challenge(&value_challenge, &mut rng);

    let (dealer, poly_challenge) = dealer
        .receive_poly_commitments(vec![poly_com0, poly_com1, poly_com2, poly_com3], &mut transcript)
        .unwrap();

    let share0 = party0.apply_challenge(&poly_challenge).unwrap();
    let share1 = party1.apply_challenge(&poly_challenge).unwrap();
    let share2 = party2.apply_challenge(&poly_challenge).unwrap();
    let share3 = party3.apply_challenge(&poly_challenge).unwrap();

    match dealer.receive_shares(&[share0, share1, share2, share3], &mut transcript) {
        Err(MPCError::MalformedProofShares { bad_shares }) => {
            assert_eq!(bad_shares, vec![1, 3]);
        }
        Err(_) => {
            panic!("Got wrong error type from malformed shares");
        }
        Ok(_) => {
            panic!("The proof was malformed, but it was not detected");
        }
    }
}

#[test]
fn detect_dishonest_dealer_during_aggregation() {
    let m = 1;
    let n = 32;

    let generators = Generators::new(PedersenGens::default(), n, m);

    let mut rng = StdRng::from_entropy();
    let mut transcript = Transcript::new(b"AggregatedRangeProofTest");

    let v0 = rng.gen::<u32>() as u64;
    let v0_blinding = random_scalar(&mut rng);
    let party0 = Party::new(v0, v0_blinding, n, &generators).unwrap();

    let dealer = Dealer::new(&generators, n, m, &mut transcript).unwrap();

    let (party0, value_com0) = party0.assign_position(0, &mut rng);

    let (dealer, value_challenge) = dealer
        .receive_value_commitments(vec![value_com0], &mut transcript)
        .unwrap();

    let (party0, poly_com0) = party0.apply_challenge(&value_challenge, &mut rng);

    let (_dealer, mut poly_challenge) = dealer
        .receive_poly_commitments(vec![poly_com0], &mut transcript)
        .unwrap();

    // A malicious dealer picks x = 0.
    poly_challenge.x = Scalar::zero();

    let maybe_share0 = party0.apply_challenge(&poly_challenge);

    assert!(maybe_share0.is_err());
    assert!(matches!(maybe_share0, Err(MPCError::MaliciousDealer)));
}

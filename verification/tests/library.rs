use dp_client::audit::Board as AuditBoard;
use dp_client::bignat::{BigNat, CryptoError};
use dp_client::converters::{add_byte_arrays, as_u32_le, bignum_to_bytes, bytes_equal, u32_to_bytes};
use dp_client::elliptic::Commitment as ElCommitment;
use dp_client::generic_commitments::{Commitment, CurveCommitment};
use dp_client::participants::{Board, Client as CurveClient, Server as CurveServer};
use dp_client::public_parameters::PublicParams;
use dp_client::ristretto::Point;
use dp_client::scalar::Scalar;
use dp_client::shamir::{lagrange_interpolation_at_zero, mod_evaluate_polynomial, ShamirsSecretSharing};
use dp_client::sigma_ff::{Proof, ProofScalar};
use dp_client::sketching::VoteVerifier;
use sha3::{Digest, Sha3_256};

const BASEPOINT: [u8; 32] = [
    0xe2, 0xf2, 0xae, 0x0a, 0x6a, 0xbc, 0x4e, 0x71, 0xa8, 0x84, 0xa9, 0x61, 0xc5, 0x00, 0x51, 0x5f,
    0x58, 0xe3, 0x0b, 0x6a, 0xa5, 0x82, 0xdd, 0x8d, 0xb6, 0xa6, 0x59, 0x45, 0xe0, 0x8d, 0x2d, 0x76,
];

// ℓ - 1 and ℓ, little-endian.
const ELL_MINUS_ONE: [u8; 32] = [
    0xec, 0xd3, 0xf5, 0x5c, 0x1a, 0x63, 0x12, 0x58, 0xd6, 0x9c, 0xf7, 0xa2, 0xde, 0xf9, 0xde, 0x14,
    0, 0, 0, 0, 0, 0, 0, 0, 0, 0, 0, 0, 0, 0, 0, 0x10,
];
const ELL: [u8; 32] = [
    0xed, 0xd3, 0xf5, 0x5c, 0x1a, 0x63, 0x12, 0x58, 0xd6, 0x9c, 0xf7, 0xa2, 0xde, 0xf9, 0xde, 0x14,
    0, 0, 0, 0, 0, 0, 0, 0, 0, 0, 0, 0, 0, 0, 0, 0x10,
];

fn n(x: u32) -> BigNat {
    BigNat::from_u32(x)
}

fn scalar(x: u32) -> Scalar {
    Scalar::from_canonical_bytes(u32_to_bytes(x)).unwrap()
}

fn basepoint() -> Point {
    Point::from_bytes(BASEPOINT).unwrap()
}

fn identity() -> Point {
    Point::from_bytes([0u8; 32]).unwrap()
}

// ---------------------------------------------------------------- converters

#[test]
fn u32_to_bytes_is_little_endian() {
    let b = u32_to_bytes(0x0102_0304);
    assert_eq!(&b[0..4], &[4, 3, 2, 1]);
    assert!(b[4..].iter().all(|&x| x == 0));
}

#[test]
fn as_u32_le_reads_first_four_bytes() {
    let mut a = [0xffu8; 32];
    a[0] = 0x78;
    a[1] = 0x56;
    a[2] = 0x34;
    a[3] = 0x12;
    assert_eq!(as_u32_le(&a), 0x1234_5678);
}

#[test]
fn u32_bytes_round_trip() {
    for x in [0u32, 1, 255, 256, 65_535, 0xdead_beef, u32::MAX] {
        assert_eq!(as_u32_le(&u32_to_bytes(x)), x);
    }
}

#[test]
fn bignum_to_bytes_puts_big_endian_bytes_first() {
    let b = bignum_to_bytes(n(0x0102));
    assert_eq!(&b[0..2], &[1, 2]);
    assert!(b[2..].iter().all(|&x| x == 0));
    assert_eq!(bignum_to_bytes(BigNat::zero()), [0u8; 32]);
}

#[test]
fn add_byte_arrays_adds_modulo_the_group_order() {
    let s = add_byte_arrays(&u32_to_bytes(7), &u32_to_bytes(35));
    assert_eq!(s.to_bytes(), u32_to_bytes(42));
    let wrap = add_byte_arrays(&ELL_MINUS_ONE, &u32_to_bytes(2));
    assert_eq!(wrap.to_bytes(), u32_to_bytes(1));
}

#[test]
fn bytes_equal_compares_every_byte() {
    let a = [5u8; 32];
    let mut b = [5u8; 32];
    assert!(bytes_equal(&a, &b));
    b[31] = 6;
    assert!(!bytes_equal(&a, &b));
}

// ---------------------------------------------------------------- scalars

#[test]
fn scalar_arithmetic_is_modulo_the_group_order() {
    let a = scalar(10);
    let b = scalar(3);
    assert_eq!(a.add(&b).to_bytes(), u32_to_bytes(13));
    assert_eq!(a.sub(&b).to_bytes(), u32_to_bytes(7));
    assert_eq!(a.mul(&b).to_bytes(), u32_to_bytes(30));
    assert_eq!(b.sub(&a).to_bytes(), add_byte_arrays(&ELL_MINUS_ONE, &u32_to_bytes(0)).sub(&scalar(6)).to_bytes());
    assert_eq!(Scalar::one().neg().to_bytes(), ELL_MINUS_ONE);
    assert!(Scalar::zero().neg().equals(&Scalar::zero()));
}

#[test]
fn scalar_canonical_bytes_stop_at_the_group_order() {
    assert!(Scalar::from_canonical_bytes(ELL_MINUS_ONE).is_some());
    assert!(Scalar::from_canonical_bytes(ELL).is_none());
    assert!(Scalar::from_bytes_mod_order(ELL).equals(&Scalar::zero()));
    let mut ell_plus_five = ELL;
    ell_plus_five[0] += 5;
    assert_eq!(Scalar::from_bytes_mod_order(ell_plus_five).to_bytes(), u32_to_bytes(5));
}

#[test]
fn scalar_equality() {
    assert!(scalar(9).equals(&scalar(9)));
    assert!(!scalar(9).equals(&scalar(8)));
    assert!(Scalar::one().equals(&scalar(1)));
    assert!(Scalar::zero().equals(&scalar(0)));
}

// ---------------------------------------------------------------- points

#[test]
fn point_decoding() {
    assert!(Point::from_bytes(BASEPOINT).is_some());
    assert!(Point::from_bytes([0u8; 32]).is_some());
    assert!(Point::from_bytes([0xffu8; 32]).is_none());
    assert_eq!(basepoint().to_bytes(), BASEPOINT);
}

#[test]
fn point_group_operations() {
    let g = basepoint();
    assert!(g.add(&g.neg()).equals(&identity()));
    assert!(g.mul(&Scalar::one()).equals(&g));
    assert!(g.mul(&Scalar::zero()).equals(&identity()));
    assert!(g.mul(&scalar(2)).equals(&g.add(&g)));
    assert!(!g.add(&g).equals(&g));
}

// ---------------------------------------------------------------- commitments

#[test]
fn curve_commitment_opens_only_with_its_message() {
    let g = basepoint();
    let h = Point::random();
    let scheme = CurveCommitment::new(g, h);
    let r = scheme.sample_randomness();
    let c = scheme.commit(scalar(1), r);
    assert!(scheme.open(scalar(1), r, c));
    assert!(!scheme.open(scalar(0), r, c));
    assert!(c.equals(&g.mul(&scalar(1)).add(&h.mul(&r))));
}

#[test]
fn challenge_is_sha3_of_the_encodings() {
    let g = basepoint();
    let h = g.mul(&scalar(5));
    let c = g.mul(&scalar(7));
    let e = CurveCommitment::challenge(&g, &h, &c);
    let mut hasher = Sha3_256::new();
    let mut input = Vec::new();
    input.extend_from_slice(&g.to_bytes());
    input.extend_from_slice(&h.to_bytes());
    input.extend_from_slice(&c.to_bytes());
    hasher.update(input);
    let digest: [u8; 32] = hasher.finalize().into();
    assert_eq!(e.to_bytes(), Scalar::from_bytes_mod_order(digest).to_bytes());
}

#[test]
fn honest_or_proofs_are_accepted() {
    let g = basepoint();
    let h = Point::random();
    let scheme = CurveCommitment::new(g, h);
    let board = Board::new(g, h);
    let r = scheme.sample_randomness();
    let p0 = scheme.create_proof_0(r);
    assert!(p0.com.equals(&scheme.commit(Scalar::zero(), r)));
    assert!(board.accepts(&p0));
    assert!(board.verify(&p0));
    let p1 = scheme.create_proof_1(r);
    assert!(p1.com.equals(&scheme.commit(Scalar::one(), r)));
    assert!(board.accepts(&p1));
    assert!(board.verify(&p1));
}

#[test]
fn tampered_or_proofs_are_refused() {
    let g = basepoint();
    let h = Point::random();
    let scheme = CurveCommitment::new(g, h);
    let board = Board::new(g, h);
    let r = scheme.sample_randomness();
    let mut p = scheme.create_proof_1(r);
    p.v1 = p.v1.add(&Scalar::one());
    assert!(!board.accepts(&p));
    let mut q = scheme.create_proof_0(r);
    q.e0 = q.e0.add(&Scalar::one());
    assert!(!board.accepts(&q));
}

#[test]
fn proof_with_given_values_is_deterministic() {
    let g = basepoint();
    let h = g.mul(&scalar(11));
    let scheme = CurveCommitment::new(g, h);
    let a = scheme.create_proof_0_with(scalar(3), scalar(4), scalar(5), scalar(6));
    let b = scheme.create_proof_0_with(scalar(3), scalar(4), scalar(5), scalar(6));
    assert!(a.e.equals(&b.e) && a.d1.equals(&b.d1));
    assert!(a.d0.equals(&h.mul(&scalar(6))));
    assert!(a.v0.equals(&scalar(6).add(&a.e0.mul(&scalar(3)))));
    assert!(a.e0.equals(&a.e.sub(&scalar(5))));
    let c = scheme.create_proof_1_with(scalar(3), scalar(4), scalar(5), scalar(6));
    assert!(c.d1.equals(&h.mul(&scalar(6))));
    assert!(c.e1.equals(&c.e.sub(&scalar(5))));
    assert!(Board::new(g, h).accepts(&c));
}

#[test]
fn elliptic_commitment_opens() {
    let g = basepoint();
    let h = g.mul(&scalar(99));
    let scheme = ElCommitment::new(g, h);
    let msg = u32_to_bytes(42);
    let c = scheme.commit(&msg, scalar(17));
    assert!(scheme.open(c, &msg, scalar(17)));
    assert!(!scheme.open(c, &u32_to_bytes(43), scalar(17)));
    assert!(c.equals(&g.mul(&scalar(42)).add(&h.mul(&scalar(17)))));
    let (pg, ph) = scheme.get_public_params();
    assert!(pg.equals(&g) && ph.equals(&h));
    assert_eq!(scheme.get_random_byte_array(), scheme.get_random_byte_array());
    assert_ne!(scheme.get_random_byte_array(), [0u8; 32]);
}

// ---------------------------------------------------------------- participants

#[test]
fn bernoulli_commitment_has_the_requested_number_of_ones() {
    let g = basepoint();
    let h = Point::random();
    let mut server = CurveServer::new(3, g, h);
    let board = Board::new(g, h);
    let proof = server.distributional_commitment_bernoulli(3, 5);
    assert_eq!(proof.or_proofs.len(), 5);
    let ones: u32 = (0..5).map(|j| server.get_opening(0, j) as u32).sum();
    assert_eq!(ones, 3);
    for t in &proof.or_proofs {
        assert!(board.accepts(t));
    }
    let all_ones = server.distributional_commitment_bernoulli(4, 4);
    assert!((0..4).all(|j| server.get_opening(1, j) == 1));
    assert_eq!(all_ones.or_proofs.len(), 4);
    let none = server.distributional_commitment_bernoulli(0, 4);
    assert!((0..4).all(|j| server.get_opening(2, j) == 0));
    assert_eq!(none.or_proofs.len(), 4);
}

#[test]
fn geometric_commitment_makes_one_batch_per_bit() {
    let g = basepoint();
    let h = Point::random();
    let mut server = CurveServer::new(2, g, h);
    let batches = server.distributional_geometric_com(3, 1, 2);
    assert_eq!(batches.len(), 3);
    for b in 0..3 {
        let ones = server.get_opening(b, 0) as u32 + server.get_opening(b, 1) as u32;
        assert_eq!(ones, 1);
    }
    server.clear_openings();
    let again = server.distributional_commitment_bernoulli(2, 2);
    assert_eq!(again.or_proofs.len(), 2);
    assert_eq!(server.get_opening(0, 0), 1);
}

#[test]
fn binary_weights_are_powers_of_two() {
    let g = basepoint();
    let board = Board::new(g, g);
    let (w, p) = board.binary_to_exp(vec![g; 5]);
    assert_eq!(w, vec![1, 2, 4, 8, 16]);
    assert!(p.equals(&g));
}

#[test]
fn curve_client_sends_one() {
    let g = basepoint();
    let client = CurveClient::new(3, g, g);
    let (x, _r) = client.send_input_to_sever();
    assert!(x.equals(&Scalar::one()));
}

// ---------------------------------------------------------------- finite-field audit

fn pow_mod(b: &BigNat, e: u32, p: &BigNat) -> BigNat {
    let mut ctx = dp_client::bignat::new_context().unwrap();
    b.mod_exp(&n(e), p, &mut ctx)
}

fn to_u32(x: &BigNat) -> u32 {
    let bytes = x.to_vec();
    let mut v: u32 = 0;
    for b in bytes {
        v = v * 256 + b as u32;
    }
    v
}

/// An honest proof that `c = g h^r mod 23` (order-11 subgroup) holds 1.
fn finite_field_board(tamper: bool) -> AuditBoard {
    let (p, q, g, h) = (n(23), n(11), n(4), n(9));
    let r = 3u32;
    let c = g.mul(&pow_mod(&h, r, &p)).rem(&p);
    let (v0, e0, b) = (5u32, 7u32, 2u32);
    // d0 = h^v0 c^(-e0), with c^(-e0) = c^(q - e0)
    let d0 = pow_mod(&h, v0, &p).mul(&pow_mod(&c, 11 - e0, &p)).rem(&p);
    let d1 = pow_mod(&h, b, &p);
    let mut input = c.to_vec();
    input.extend(d0.to_vec());
    input.extend(d1.to_vec());
    let mut hasher = Sha3_256::new();
    hasher.update(input);
    let digest: [u8; 32] = hasher.finalize().into();
    let e = BigNat::from_bytes_be(&digest).rem(&q);
    let e_val = to_u32(&e);
    let e1 = (e_val + 11 - e0) % 11;
    let v1 = (b + e1 * r) % 11;
    let v1 = if tamper { (v1 + 1) % 11 } else { v1 };
    AuditBoard::new(
        &vec![c],
        &p,
        &q,
        &g,
        &h,
        &n(e0),
        &n(e1),
        &e,
        &n(v0),
        &n(v1),
        &d0,
        &d1,
        1,
    )
}

#[test]
fn audit_board_accepts_an_honest_transcript() {
    let board = finite_field_board(false);
    let mut ctx = dp_client::bignat::new_context().unwrap();
    assert!(board.accepts(&mut ctx));
    assert!(board.verify(&mut ctx));
}

#[test]
fn audit_board_refuses_a_tampered_transcript() {
    let board = finite_field_board(true);
    let mut ctx = dp_client::bignat::new_context().unwrap();
    assert!(!board.accepts(&mut ctx));
}

#[test]
fn audit_board_multiplies_the_commitments() {
    let coms = vec![n(3), n(5), n(7)];
    let board = AuditBoard::new(&coms, &n(11), &n(5), &n(1), &n(1), &n(0), &n(0), &n(0), &n(0), &n(0), &n(0), &n(0), 2);
    assert_eq!(board.coms.len(), 2);
    assert_eq!(board.coms[1], n(5));
}

// ---------------------------------------------------------------- transcripts

#[test]
fn transcripts_copy_their_numbers() {
    let t = ProofScalar::new(&n(1), &n(2), &n(3), &n(4), &n(5), &n(6), &n(7), &n(8));
    assert_eq!(t.com, n(1));
    assert_eq!(t.e, n(4));
    assert_eq!(t.d1, n(8));
    let p = Proof::new(&vec![n(9), n(10)], &n(2), &n(3), &n(4), &n(5), &n(6), &n(7), &n(8));
    assert_eq!(p.coms, vec![n(9), n(10)]);
    assert_eq!(p.v1, n(6));
}

// ---------------------------------------------------------------- sketching

#[test]
fn vote_verifier_checks_the_square() {
    let q = n(11);
    let mut ctx = dp_client::bignat::new_context().unwrap();
    let mut v = VoteVerifier::new(2, vec![], vec![n(1), n(1)], n(23), q, n(4), n(9));
    assert!(!v.sketch(&mut ctx));
    // z = 1 + 2 = 3, z* = 4 + 5 = 9 = 3^2
    v.accept_message(&n(1), &n(4), &n(0));
    assert!(!v.sketch(&mut ctx));
    v.accept_message(&n(2), &n(5), &n(0));
    assert!(v.sketch(&mut ctx));
    assert_eq!(v.message_z_star, vec![n(4), n(5)]);
    let mut w = VoteVerifier::new(1, vec![], vec![n(1)], n(23), n(11), n(4), n(9));
    w.accept_message(&n(3), &n(8), &n(0));
    assert!(!w.sketch(&mut ctx));
    w.authenticate(&vec![]);
}

// ---------------------------------------------------------------- parameters

#[test]
fn public_parameters_form_a_schnorr_group() {
    let pp = PublicParams::new(8, 3).unwrap();
    assert_eq!(pp.num_shares, 3);
    let p = to_u32(&pp.p);
    let q = to_u32(&pp.q);
    assert!((1 << 15) <= p && p < (1 << 16));
    assert_eq!(q, (p - 1) / 2);
    assert_eq!(pow_mod(&pp.g, q, &pp.p), n(1));
    assert_eq!(pow_mod(&pp.h, q, &pp.p), n(1));
    assert!(matches!(PublicParams::new(0, 3), Err(CryptoError::InvalidArgument)));
}

// ---------------------------------------------------------------- Shamir

#[test]
fn horner_evaluation_modulo_a_prime() {
    // 5 + 3x + 2x^2 at x = 4 is 49, and 49 mod 13 = 10
    assert_eq!(mod_evaluate_polynomial(&[5, 3, 2], 4, 13), 10);
    assert_eq!(mod_evaluate_polynomial(&[-1], 4, 13), 12);
    assert_eq!(mod_evaluate_polynomial(&[], 4, 13), 0);
}

#[test]
fn lagrange_interpolation_recovers_the_constant() {
    // f(x) = 7 + 2x over GF(13): f(1) = 9, f(2) = 11
    assert_eq!(lagrange_interpolation_at_zero(&[1, 2], &[9, 11], 13), 7);
    // f(x) = 1 + x + x^2 over GF(101) at 1, 3, 5: 3, 13, 31
    assert_eq!(lagrange_interpolation_at_zero(&[1, 3, 5], &[3, 13, 31], 101), 1);
}

#[test]
fn shamir_shares_reconstruct_the_secret() {
    let ss = ShamirsSecretSharing { threshold: 2, num_shares: 5, prime: 1_000_003 };
    let shares = ss.share(123_456);
    assert_eq!(shares.len(), 5);
    assert!(shares.iter().all(|&s| 0 <= s && s < 1_000_003));
    assert_eq!(ss.reconstruct(&[0, 1, 2], &shares[0..3]), 123_456);
    assert_eq!(ss.reconstruct(&[1, 3, 4], &[shares[1], shares[3], shares[4]]), 123_456);
    assert_eq!(ss.reconstruct(&[0, 1, 2, 3, 4], &shares), 123_456);
}

#[test]
fn shamir_evaluates_at_one_to_n() {
    let ss = ShamirsSecretSharing { threshold: 1, num_shares: 3, prime: 13 };
    assert_eq!(ss.evaluate_polynomial(&[5, 2]), vec![7, 9, 11]);
}

#[test]
fn shamir_example_recovers_the_secret() {
    let client = ShamirsSecretSharing { num_shares: 5, prime: 41, threshold: 3 };
    let secret: i64 = (198 as i64).rem_euclid(client.prime);
    let all_shares = client.share(secret);
    let indices: Vec<usize> = (0..client.threshold + 1).collect();
    let shares: &[i64] = &all_shares[0..client.threshold + 1];
    assert_eq!(client.reconstruct(&indices, shares), secret);
}

#[test]
fn bernoulli_coins_follow_the_flips() {
    let g = basepoint();
    let h = g.mul(&scalar(7));
    let mut server = CurveServer::new(1, g, h);
    let zeros = server.distributional_commitment_bernoulli_with(2, 5, &vec![false; 5]);
    let bits: Vec<u8> = (0..5).map(|j| server.get_opening(0, j)).collect();
    assert_eq!(bits, vec![0, 0, 0, 1, 1]);
    assert_eq!(zeros.or_proofs.len(), 5);
    let _ones = server.distributional_commitment_bernoulli_with(2, 5, &vec![true; 5]);
    let bits: Vec<u8> = (0..5).map(|j| server.get_opening(1, j)).collect();
    assert_eq!(bits, vec![1, 1, 0, 0, 0]);
    let _mixed = server.distributional_commitment_bernoulli_with(2, 4, &vec![false, true, false, true]);
    let bits: Vec<u8> = (0..4).map(|j| server.get_opening(2, j)).collect();
    assert_eq!(bits, vec![0, 1, 0, 1]);
}

#[test]
fn bernoulli_commitments_add_up_to_the_number_of_ones() {
    let g = basepoint();
    let h = Point::random();
    let mut server = CurveServer::new(1, g, h);
    let proof = server.distributional_commitment_bernoulli(3, 6);
    let mut total = identity();
    for t in &proof.or_proofs {
        total = total.add(&t.com);
    }
    let scheme = CurveCommitment::new(g, h);
    assert!(total.equals(&scheme.commit(scalar(3), proof.aggregate)));
}

#[test]
fn curve_commitments_add_up() {
    let g = basepoint();
    let h = Point::random();
    let scheme = CurveCommitment::new(g, h);
    let (r1, r2) = (scheme.sample_randomness(), scheme.sample_randomness());
    let c = scheme.commit(scalar(3), r1).add(&scheme.commit(scalar(5), r2));
    assert!(c.equals(&scheme.commit(scalar(8), r1.add(&r2))));
    let el = ElCommitment::new(g, h);
    let c1 = el.commit(&u32_to_bytes(3), r1);
    let c2 = el.commit(&u32_to_bytes(5), r2);
    assert!(el.open(c1.add(&c2), &u32_to_bytes(8), r1.add(&r2)));
}

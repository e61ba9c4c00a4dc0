use dp_client::additive::AdditiveSecretSharing;
use dp_client::bignat::{new_context, BigNat, CryptoError};
use dp_client::finite_field_coms::Commitment;
use dp_client::pederson_additive::PedersenCommitment;
use dp_client::server::Server;
use dp_client::simple_server::SimpleServer;
use dp_client::utils::{calculate_q, gen_random, get_generator, mod_exp, sum_all};

fn n(x: u32) -> BigNat {
    BigNat::from_u32(x)
}

// The order-11 subgroup of the integers modulo 23, generated by 4 and 9.
fn group() -> (BigNat, BigNat, BigNat, BigNat) {
    (n(23), n(11), n(4), n(9))
}

#[test]
fn pedersen_commitment_value() {
    let (p, q, g, h) = group();
    let mut ctx = new_context().unwrap();
    let com = Commitment::new(&p, &q, &g, &h);
    // 4^3 * 9^2 mod 23 = 64 * 81 mod 23 = 18 * 12 mod 23 = 9
    assert_eq!(com.helper(&n(3), &n(2), &mut ctx).unwrap(), n(9));
    assert!(com.open(&n(9), &n(3), &n(2), &mut ctx).unwrap());
    assert!(!com.open(&n(9), &n(4), &n(2), &mut ctx).unwrap());
}

#[test]
fn pedersen_commitments_are_homomorphic() {
    let (p, q, g, h) = group();
    let mut ctx = new_context().unwrap();
    let mut com = Commitment::new(&p, &q, &g, &h);
    let (c1, r1) = com.commit(&n(2), &mut ctx).unwrap();
    let (c2, r2) = com.commit(&n(5), &mut ctx).unwrap();
    let product = com.mult_commitments(&[&c1, &c2]).unwrap();
    assert!(com.open(&product, &n(7), &r1.add(&r2), &mut ctx).unwrap());
}

#[test]
fn pedersen_additive_products_commit_to_sums() {
    let mut pc = PedersenCommitment::new(16).unwrap();
    let (c1, r1) = pc.commit(10).unwrap();
    let (c2, r2) = pc.commit(32).unwrap();
    let total = pc.add(&[&c1, &c2]).unwrap();
    assert!(pc.open(&total, 42, &[&r1, &r2]).unwrap());
    assert!(!pc.open(&total, 41, &[&r1, &r2]).unwrap());
    assert!(pc.open(&c1, 10, &[&r1]).unwrap());
}

#[test]
fn parameter_generation_refuses_nonpositive_security() {
    assert!(matches!(AdditiveSecretSharing::new(0, 3), Err(CryptoError::InvalidArgument)));
    assert!(matches!(PedersenCommitment::new(-1), Err(CryptoError::InvalidArgument)));
}

#[test]
fn random_numbers_stay_below_the_limit() {
    assert!(matches!(gen_random(&n(1)), Err(CryptoError::InvalidArgument)));
    assert!(matches!(gen_random(&n(0)), Err(CryptoError::InvalidArgument)));
    for _ in 0..20 {
        let r = gen_random(&n(3)).unwrap();
        assert!(r.le(&n(1)));
    }
}

#[test]
fn helpers_compute_exact_values() {
    let mut ctx = new_context().unwrap();
    assert_eq!(calculate_q(&n(23)).unwrap(), n(11));
    assert_eq!(calculate_q(&n(0)).unwrap(), n(0));
    assert_eq!(mod_exp(&n(3), &n(4), &n(7), &mut ctx), n(4));
    assert_eq!(sum_all(&vec![n(1), n(2), n(40)]), n(43));
    let g = get_generator(&n(23), &n(11), &mut ctx).unwrap();
    assert_eq!(mod_exp(&g, &n(11), &n(23), &mut ctx), n(1));
}

#[test]
fn server_aggregates_checked_shares() {
    let (p, q, g, h) = group();
    let mut ctx = new_context().unwrap();
    let com = Commitment::new(&p, &q, &g, &h);
    let mut server = Server::new(2, 3, &p, &q, &g, &h);
    let c = com.helper(&n(6), &n(2), &mut ctx).unwrap();
    server.receive_share(1, &n(6), &n(2), &c, &mut ctx);
    let c = com.helper(&n(8), &n(3), &mut ctx).unwrap();
    server.receive_share(1, &n(8), &n(3), &c, &mut ctx);
    assert_eq!(server.agg_shares[1], n(3)); // 14 mod 11
    assert_eq!(server.agg_randomness[1], n(5));
    assert_eq!(server.agg_shares[0], n(0));
    server.aggregate(2, n(10));
    server.aggregate(2, n(4));
    assert_eq!(server.ans[2], n(3));
    assert_eq!(server.verify(&[&n(1), &n(2)]), 1);
}

#[test]
fn server_checks_tally_broadcasts_against_commitments() {
    let (p, q, g, h) = group();
    let mut ctx = new_context().unwrap();
    let com = Commitment::new(&p, &q, &g, &h);
    let mut server = Server::new(2, 1, &p, &q, &g, &h);
    // two clients, each with commitments for the two servers
    let c00 = com.helper(&n(1), &n(2), &mut ctx).unwrap();
    let c01 = com.helper(&n(0), &n(5), &mut ctx).unwrap();
    let c10 = com.helper(&n(3), &n(4), &mut ctx).unwrap();
    let c11 = com.helper(&n(2), &n(1), &mut ctx).unwrap();
    server.receive_commitments(0, &vec![c00, c01]);
    server.receive_commitments(0, &vec![c10, c11]);
    // server 0 holds shares 1 + 3 with randomness 2 + 4
    assert!(server.receive_tally_broadcast(0, 0, &n(4), &n(6), &mut ctx));
    // server 1 holds shares 0 + 2 with randomness 5 + 1
    assert!(server.receive_tally_broadcast(0, 1, &n(2), &n(6), &mut ctx));
}

#[test]
fn simple_server_broadcasts_inner_products() {
    let (p, q, g, h) = group();
    let mut ctx = new_context().unwrap();
    let mut server = SimpleServer::new(1, 2, &p, &q, &g, &h);
    server.receive_share(0, &n(3));
    server.receive_share(1, &n(5));
    assert_eq!(server.last_received_shares, vec![n(3), n(5)]);
    assert_eq!(server.agg_shares, vec![n(3), n(5)]);
    // r = (2, 4): z = 2*3 + 4*5 = 26 (each product reduced: 6 + 9 = 15);
    // z* = (4 mod 11)*3 + (16 mod 11)*5 = 12 mod 11 + 25 mod 11 = 1 + 3 = 4
    let (z, z_star) = server.broadcast(&vec![n(2), n(4)], &mut ctx);
    assert_eq!(z, n(15));
    assert_eq!(z_star, n(4));
    let morra = server.generate_fresh_morra();
    assert_eq!(morra.len(), 2);
    assert!(morra.iter().all(|&b| b <= 1));
    let r = server.generate_fresh_randomness();
    assert_eq!(r.len(), 2);
    server.aggregate(0, n(20));
    assert_eq!(server.ans[0], n(9));
    // 3^2 = 9
    server.sketching_test(&vec![n(3)], &vec![n(9)], &mut ctx);
}

#[test]
fn openssl_refusals_become_library_errors() {
    // OpenSSL refuses safe primes of fewer than six bits (three aside).
    assert!(matches!(dp_client::bignat::generate_prime(4, true), Err(CryptoError::OpenSsl)));
    let p = dp_client::bignat::generate_prime(8, true).unwrap();
    assert!(n(128).le(&p) && p.le(&n(255)));
}

#[test]
fn commitments_depend_on_randomness_modulo_the_order() {
    let (p, q, g, h) = group();
    let mut ctx = new_context().unwrap();
    let mut com = Commitment::new(&p, &q, &g, &h);
    let (c1, r1) = com.commit(&n(3), &mut ctx).unwrap();
    let (c2, r2) = com.commit(&n(5), &mut ctx).unwrap();
    let product = com.mult_commitments(&[&c1, &c2]).unwrap();
    let r = r1.add(&r2).rem(&q);
    assert_eq!(com.helper(&n(8), &r, &mut ctx).unwrap(), product);
    assert_eq!(com.helper(&n(3), &n(2), &mut ctx).unwrap(), com.helper(&n(14), &n(13), &mut ctx).unwrap());
}

#[test]
fn morra_bits_compare_with_half_of_q() {
    let (p, q, g, h) = group();
    let server = SimpleServer::new(1, 3, &p, &q, &g, &h);
    assert_eq!(server.morra_from_draws(&vec![n(5), n(6), n(0)]), vec![1, 0, 1]);
}

#[test]
fn broadcast_without_candidates_needs_no_modulus() {
    let (p, _q, g, h) = group();
    let mut ctx = new_context().unwrap();
    let server = SimpleServer::new(1, 0, &p, &n(0), &g, &h);
    let (z, z_star) = server.broadcast(&vec![], &mut ctx);
    assert_eq!((z, z_star), (n(0), n(0)));
}

#[test]
fn structures_describe_themselves_like_display() {
    let (p, q, g, h) = group();
    let client = dp_client::client::Client::new(2, 3, &p, &q, &g, &h);
    assert_eq!(client.to_string(), "Client { p: 23, q: 11, g: 4, h: 9 }");
    let server = SimpleServer::new(1, 2, &p, &q, &g, &h);
    assert_eq!(server.to_string(), "Server { p: 23, q: 11, g: 4, h: 9 }");
    let poplar = dp_client::poplar::Server::new(1, 2, &q);
    assert_eq!(poplar.to_string(), "Server { q: 11 }");
    let pc = PedersenCommitment::from_parts(n(23), n(4), &n(3), new_context().unwrap());
    // q = 2p + 1 = 47, h = 4^3 mod 23 = 18
    assert_eq!(pc.to_string(), "PedersenCommitment { p: 23, q: 47, g: 4, h: 18 }");
    assert_eq!(n(0).to_dec_string(), "0");
    assert_eq!(n(1234567).to_dec_string(), "1234567");
}

#[test]
fn parameters_from_their_parts() {
    let s = AdditiveSecretSharing::from_parts(3, n(23), n(4), &n(2), new_context().unwrap());
    assert_eq!((s.num_shares, s.q.copied(), s.h.copied()), (3, n(47), n(16)));
    let c = dp_client::committed_additive::CommitedAdditiveSecretSharing::from_parts(
        2,
        n(23),
        n(5),
        &n(2),
        new_context().unwrap(),
    );
    assert_eq!((c.q.copied(), c.h.copied()), (n(11), n(2)));
    let pp = dp_client::public_parameters::PublicParams::from_parts(4, n(23), n(4), n(9), new_context().unwrap());
    assert_eq!((pp.q.copied(), pp.to_string()), (n(11), "Client { q: 11 }".to_string()));
}

#[test]
fn generator_test_on_a_draw() {
    let mut ctx = new_context().unwrap();
    // 4^11 = 1 mod 23, 5^11 = 22 mod 23
    assert_eq!(dp_client::utils::accept_generator(n(4), &n(23), &n(11), &mut ctx), Some(n(4)));
    assert_eq!(dp_client::utils::accept_generator(n(5), &n(23), &n(11), &mut ctx), None);
}

fn is_prime_u32(x: u32) -> bool {
    x > 1 && (2..x).take_while(|d| d * d <= x).all(|d| x % d != 0)
}

#[test]
fn generated_primes_are_safe_when_asked() {
    let p = dp_client::bignat::generate_prime(12, true).unwrap();
    let bytes = p.to_vec();
    let v = bytes.iter().fold(0u32, |acc, &b| acc * 256 + b as u32);
    assert!(v >= 2048 && is_prime_u32(v) && is_prime_u32((v - 1) / 2));
}

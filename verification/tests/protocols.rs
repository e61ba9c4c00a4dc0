use dp_client::additive::AdditiveSecretSharing;
use dp_client::beaver_triple::BeaverTriple;
use dp_client::bignat::BigNat;
use dp_client::client::Client;
use dp_client::committed_additive::CommitedAdditiveSecretSharing;
use dp_client::public_parameters::PublicParams;
use dp_client::simple_client::SimpleClient;
use dp_client::utils::{additive_share, gen_random};
use dp_client::poplar::Server as PoplarServer;
use dp_client::prio::Server as PrioServer;
use dp_client::verifiable_client::Client as VerifiableClient;

fn sum_mod(v: &[BigNat], q: &BigNat) -> BigNat {
    let mut acc = BigNat::zero();
    for x in v {
        acc = acc.add(x);
    }
    acc.rem(q)
}

#[test]
fn additive_test_additive_secret_sharing() {
    let mut commitment = AdditiveSecretSharing::new(512, 10).unwrap();
    let mut msg1 = 12;
    let mut shares = commitment.share(msg1);
    let mut msg1_hat = commitment.reconstruct(shares);
    assert_eq!(msg1_hat, BigNat::from_u32(msg1));

    msg1 = 10231;
    shares = commitment.share(msg1);
    msg1_hat = commitment.reconstruct(shares);
    assert_eq!(msg1_hat, BigNat::from_u32(msg1));
}

#[test]
fn committed_additive_test_additive_secret_sharing() {
    let mut ss = CommitedAdditiveSecretSharing::new(512, 10).unwrap();
    let msg1 = 12;
    let shares1 = ss.share(msg1);
    for i in 0..10 {
        let answer = ss.open(&shares1.commitments[i], &shares1.shares[i], &[&shares1.randomness[i]]);
        assert_eq!(answer.unwrap(), true);
    }
    assert_eq!(ss.reconstruct(shares1.shares), BigNat::from_u32(msg1));
}

#[test]
fn test_beaver_mult() {
    let security_parameter = 4;
    let num_candidates = 2; // Doesn't play a role in this test but need it to initialise server
    let num_shares = 2; // num_servers
    let mut public_param = PublicParams::new(security_parameter, num_shares).unwrap();

    let server1 = PrioServer::new(
        num_shares,
        num_candidates,
        &public_param.p,
        &public_param.q,
        &public_param.g,
        &public_param.h,
    );

    let beaver_triples = BeaverTriple::new(num_shares, &public_param.q, &mut public_param.ctx);
    let a_shares = beaver_triples.a_shares;
    let b_shares = beaver_triples.b_shares;
    let c_shares = beaver_triples.c_shares;

    let x = gen_random(&public_param.q).unwrap();
    let y = x.add(&BigNat::zero());

    let x_shares = additive_share(&x, &public_param.q, num_shares, &mut public_param.ctx);
    let total = sum_mod(&x_shares, &public_param.q);
    assert_eq!(total, x);

    let y_shares = additive_share(&y, &public_param.q, num_shares, &mut public_param.ctx);
    let total = sum_mod(&y_shares, &public_param.q);
    assert_eq!(total, y);

    let a = sum_mod(&a_shares, &public_param.q);
    let b = sum_mod(&b_shares, &public_param.q);

    let mut d = BigNat::zero();
    let mut e = BigNat::zero();
    for i in 0..num_shares {
        let (d_i, e_i) = server1.multiply_first(
            &x_shares[i],
            &y_shares[i],
            &a_shares[i],
            &b_shares[i],
            &mut public_param.ctx,
        );
        d = d.add(&d_i).rem(&public_param.q);
        e = e.add(&e_i).rem(&public_param.q);
    }

    let tmp = x.mod_sub(&a, &public_param.q, &mut public_param.ctx);
    assert_eq!(d, tmp);

    let tmp = y.mod_sub(&b, &public_param.q, &mut public_param.ctx);
    assert_eq!(e, tmp);

    let mut ans = BigNat::zero();
    let de = d.mul(&e);
    for i in 0..num_shares {
        let output_i = server1.multiply_second(&a_shares[i], &b_shares[i], &c_shares[i], &e, &d);
        ans = ans.add(&output_i);
    }

    ans = ans.add(&de);
    assert_eq!(ans.rem(&public_param.q), x.mul(&y).rem(&public_param.q));
}

#[test]
fn client_test_voting() {
    // Parameters
    let security_parameter = 4; // number bits of security to use
    let num_candidates = 5; // M
    let num_shares = 4; // K

    let mut public_param = PublicParams::new(security_parameter, num_shares).unwrap();
    let client = Client::new(
        num_shares,
        num_candidates as u32,
        &public_param.p,
        &public_param.q,
        &public_param.g,
        &public_param.h,
    );

    let vote = 0;
    let share_of_shares = client.vote(vote, &mut public_param.ctx); // there are M commitments for K servers
    for dim in 0..num_candidates {
        let mut recons_share = BigNat::zero();
        for server_idx in 0..num_shares {
            recons_share = recons_share.add(&share_of_shares[dim].shares[server_idx]).rem(&public_param.q);
        }
        assert_eq!(vote as usize == dim, recons_share == BigNat::from_u32(1));
    }
}

#[test]
fn test_commitments() {
    // Parameters
    let security_parameter = 4; // number bits of security to use
    let num_candidates = 5; // M
    let num_shares = 4; // K

    let mut public_param = PublicParams::new(security_parameter, num_shares).unwrap();
    let client = Client::new(
        num_shares,
        num_candidates as u32,
        &public_param.p,
        &public_param.q,
        &public_param.g,
        &public_param.h,
    );

    let vote = 0;
    let share_of_shares = client.vote(vote, &mut public_param.ctx); // there are M commitments for K servers

    for dim in 0..num_candidates {
        for server_idx in 0..num_shares {
            let shr = &share_of_shares[dim].shares[server_idx];
            let rnd = &share_of_shares[dim].randomness[server_idx];
            let com = &share_of_shares[dim].commitments[server_idx];

            assert_eq!(true, client.open(&com, &shr, &rnd, &mut public_param.ctx).unwrap());
        }
    }
}

#[test]
fn simple_client_test_voting() {
    // Parameters
    let security_parameter = 4; // number bits of security to use
    let num_candidates = 5; // M
    let num_shares = 4; // K

    let mut public_param = PublicParams::new(security_parameter, num_shares).unwrap();
    let client = SimpleClient::new(
        num_shares,
        num_candidates as u32,
        &public_param.p,
        &public_param.q,
        &public_param.g,
        &public_param.h,
    );

    let vote = 0;
    let share_of_shares = client.vote(vote, &mut public_param.ctx); // there are M commitments for K servers
    for dim in 0..num_candidates {
        let mut recons_share = BigNat::zero();
        for server_idx in 0..num_shares {
            recons_share = recons_share.add(&share_of_shares[dim].shares[server_idx]).rem(&public_param.q);
        }
        assert_eq!(vote as usize == dim, recons_share == BigNat::from_u32(1));
    }
}

#[test]
fn poplar_test_sketching() {
    let security_parameter = 4;
    let num_candidates = 2; // Doesn't play a role in this test but need it to initialise server
    let num_shares = 3; // num_servers
    let mut public_param = PublicParams::new(security_parameter, num_shares).unwrap();

    let client = VerifiableClient::new(num_shares, num_candidates as u32, &public_param.q);
    let choice = client.generate_fake_vote();
    let vote = client.vote(choice, &mut public_param.ctx);
    let kvote = client.poplar_vote(choice, &mut public_param.ctx);

    let mut servers = Vec::new();
    for _ in 0..num_shares {
        let server = PoplarServer::new(num_shares, num_candidates, &public_param.q);
        servers.push(server);
    }

    // Pre-processing: Client has a,b and c
    let beaver_triples = BeaverTriple::new(num_shares, &public_param.q, &mut public_param.ctx);
    let randomness = servers[0].generate_fresh_randomness();

    // Servers never see a, b, c in plain
    let mut a = BigNat::zero();
    let mut b = BigNat::zero();
    let mut c = BigNat::zero();
    for i in 0..num_shares {
        a = a.add(&beaver_triples.a_shares[i]);
        b = b.add(&beaver_triples.b_shares[i]);
        c = c.add(&beaver_triples.c_shares[i]);
    }

    // A and B as defined in Appendix C of Poplar
    let (ucase_a_share, ucase_b_share) = client.get_ab_for_poplar(&a, &b, &c, &mut public_param.ctx);

    // ROUND 1 of MPC
    let mut ucase_z = BigNat::zero();
    let mut ucase_z_star = BigNat::zero();
    let mut ucase_z_star_star = BigNat::zero();
    for server_idx in 0..num_shares {
        let mut shares = Vec::new(); // Get the shares for server i (copy it over)
        let mut k_shares = Vec::new();
        for coord in 0..num_candidates {
            shares.push(vote[coord].shares[server_idx].copied());
            k_shares.push(kvote[coord].shares[server_idx].copied());
        }
        let (z, z_star, z_star_star) = servers[server_idx].round_one_verification(
            &shares,
            &k_shares,
            &randomness,
            &beaver_triples.a_shares[server_idx],
            &beaver_triples.b_shares[server_idx],
            &beaver_triples.c_shares[server_idx],
            &mut public_param.ctx,
        );
        ucase_z = ucase_z.add(&z).rem(&public_param.q);
        ucase_z_star = ucase_z_star.add(&z_star).rem(&public_param.q);
        ucase_z_star_star = ucase_z_star_star.add(&z_star_star).rem(&public_param.q);
    }

    // ROUND 2 of MPC
    let mut ans = BigNat::zero();
    for server_idx in 0..num_shares {
        let shr_output = servers[server_idx].round_two_verification(
            &ucase_a_share.shares[server_idx],
            &ucase_b_share.shares[server_idx],
            &ucase_z,
        );
        ans = ans.add(&shr_output).rem(&public_param.q);
    }

    let pos = ans.add(&ucase_z.mul(&ucase_z)).rem(&public_param.q);
    let neg = ucase_z_star.add(&ucase_z_star_star);
    let output = pos.mod_sub(&neg, &public_param.q, &mut public_param.ctx);
    assert_eq!(output, BigNat::zero());
}

#[test]
fn prio_test_sketching() {
    let security_parameter = 4;
    let num_candidates = 2; // Doesn't play a role in this test but need it to initialise server
    let num_shares = 3; // num_servers
    let mut public_param = PublicParams::new(security_parameter, num_shares).unwrap();

    let client = VerifiableClient::new(num_shares, num_candidates as u32, &public_param.q);
    let choice = client.generate_fake_vote();
    let vote = client.vote(choice, &mut public_param.ctx);

    let mut servers = Vec::new();
    for _ in 0..num_shares {
        let server = PrioServer::new(
            num_shares,
            num_candidates,
            &public_param.p,
            &public_param.q,
            &public_param.g,
            &public_param.h,
        );
        servers.push(server);
    }

    // Pre-processing
    let beaver_triples = BeaverTriple::new(num_shares, &public_param.q, &mut public_param.ctx);
    let randomness = servers[0].generate_fresh_randomness();

    // ROUND 1 of MPC
    let mut d = BigNat::zero();
    let mut e = BigNat::zero();
    for server_idx in 0..num_shares {
        let mut shares = Vec::new(); // Get the shares for server i (copy it over)
        for coord in 0..num_candidates {
            shares.push(vote[coord].shares[server_idx].copied());
        }
        let (d_i, e_i) = servers[server_idx].create_sketch_share_one(
            &shares,
            &randomness,
            &beaver_triples.a_shares[server_idx],
            &beaver_triples.b_shares[server_idx],
            &mut public_param.ctx,
        );
        d = d.add(&d_i).rem(&public_param.q);
        e = e.add(&e_i).rem(&public_param.q);
    }

    // ROUND 2 of MPC
    let mut ans = BigNat::zero();
    for server_idx in 0..num_shares {
        let mut shares = Vec::new(); // Get the shares for server i (copy it over)
        for coord in 0..num_candidates {
            shares.push(vote[coord].shares[server_idx].copied());
        }
        let tmp = servers[server_idx].create_sketch_share_two(
            &shares,
            &randomness,
            &beaver_triples.a_shares[server_idx],
            &beaver_triples.b_shares[server_idx],
            &beaver_triples.c_shares[server_idx],
            &e,
            &d,
            &mut public_param.ctx,
        );
        ans = ans.add(&tmp).rem(&public_param.q);
    }
    ans = ans.add(&d.mul(&e)).rem(&public_param.q);

    assert_eq!(ans, BigNat::zero());
}

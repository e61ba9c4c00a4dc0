//! A voting client: it encodes a vote for one of `num_candidates`
//! candidates as a one-hot vector, splits each coordinate into additive
//! shares modulo `q` for `num_servers` servers, and commits to every share
//! with a Pedersen commitment modulo `p`.
use crate::bignat::{describe_struct, struct_text, BigNat, CryptoError};
use crate::pedersen::{is_committed_sharing_of, lemma_pedersen_reduced, pedersen};
use crate::utils::{
    additive_share, gen_random, mod_exp, nat_values, one_hot, product_nats, product_refs, ref_values,
};
use openssl::bn::BigNumContext;
use vstd::prelude::*;

verus! {

/// A client of the voting protocol.
pub struct Client {
    num_servers: usize,
    num_candidates: u32,
    p: BigNat,
    q: BigNat,
    g: BigNat,
    h: BigNat,
}

/// The shares of one coordinate of a vote, with a commitment to each and the
/// randomness that opens it.
pub struct Share {
    pub commitments: Vec<BigNat>,
    pub randomness: Vec<BigNat>,
    pub shares: Vec<BigNat>,
}

impl Client {
    /// The text that the `Display` impl writes: `Client { p: .., q: .., g: .., h: .. }`,
    /// each number in decimal.
    pub fn to_string(&self) -> (r: String)
        ensures
            r@ == struct_text("Client"@, seq![("p"@, self.spec_p()), ("q"@, self.spec_q()), ("g"@, self.spec_g()), ("h"@, self.spec_h())]),
    {
        let fields: Vec<(&str, &BigNat)> = vec![("p", &self.p), ("q", &self.q), ("g", &self.g), ("h", &self.h)];
        let r = describe_struct("Client", &fields);
        assert(Seq::new(fields.len() as nat, |i: int| (fields[i].0@, fields[i].1@)) =~= seq![("p"@, self.spec_p()), ("q"@, self.spec_q()), ("g"@, self.spec_g()), ("h"@, self.spec_h())]);
        r
    }

    /// The number of servers.
    pub closed spec fn spec_num_servers(&self) -> nat {
        self.num_servers as nat
    }

    /// The number of candidates.
    pub closed spec fn spec_num_candidates(&self) -> nat {
        self.num_candidates as nat
    }

    /// The commitment modulus `p`.
    pub closed spec fn spec_p(&self) -> nat {
        self.p@
    }

    /// The sharing modulus `q`.
    pub closed spec fn spec_q(&self) -> nat {
        self.q@
    }

    /// The first base `g`.
    pub closed spec fn spec_g(&self) -> nat {
        self.g@
    }

    /// The second base `h`.
    pub closed spec fn spec_h(&self) -> nat {
        self.h@
    }

    /// What `share` promises of `s` as a sharing of `secret`.
    pub open spec fn is_share_of(&self, s: Share, secret: nat) -> bool {
        is_committed_sharing_of(
            nat_values(s.shares@),
            nat_values(s.randomness@),
            nat_values(s.commitments@),
            secret,
            self.spec_g(),
            self.spec_h(),
            self.spec_p(),
            self.spec_q(),
            self.spec_num_servers(),
        )
    }

    /// A client with the given parameters.
    pub fn new(num_servers: usize, num_candidates: u32, _p: &BigNat, _q: &BigNat, _g: &BigNat, _h: &BigNat) -> (r: Client)
        ensures
            r.spec_num_servers() == num_servers,
            r.spec_num_candidates() == num_candidates,
            r.spec_p() == _p@,
            r.spec_q() == _q@,
            r.spec_g() == _g@,
            r.spec_h() == _h@,
    {
        Client { num_servers, num_candidates, p: _p.copied(), q: _q.copied(), g: _g.copied(), h: _h.copied() }
    }

    /// Encodes `vote` as a one-hot vector of `num_candidates` coordinates and
    /// shares each coordinate (with commitments).  `vote` must name a
    /// candidate.
    pub fn vote(&self, vote: u32, ctx: &mut BigNumContext) -> (r: Vec<Share>)
        requires
            self.spec_num_candidates() > 0,
            vote < self.spec_num_candidates(),
            self.spec_p() > 0,
            self.spec_q() > 1,
        ensures
            r@.len() == self.spec_num_candidates(),
            forall|i: int| 0 <= i < r@.len() ==> self.is_share_of(#[trigger] r@[i], one_hot(vote as nat, i as nat)),
    {
        let mut encoded_vote: Vec<Share> = Vec::new();
        let n = self.num_candidates as usize;
        for i in 0..n
            invariant
                n == self.spec_num_candidates(),
                self.spec_p() > 0,
                self.spec_q() > 1,
                encoded_vote@.len() == i,
                forall|j: int|
                    0 <= j < i ==> self.is_share_of(#[trigger] encoded_vote@[j], one_hot(vote as nat, j as nat)),
        {
            if i as u32 == vote {
                encoded_vote.push(self.share(1, ctx));
            } else {
                encoded_vote.push(self.share(0, ctx));
            }
        }
        encoded_vote
    }

    /// Splits `secret` into `num_servers` additive shares modulo `q` and
    /// commits to each.
    pub fn share(&self, _secret: u32, ctx: &mut BigNumContext) -> (r: Share)
        requires
            self.spec_p() > 0,
            self.spec_q() > 1,
        ensures
            self.is_share_of(r, _secret as nat),
    {
        let secret = BigNat::from_u32(_secret);
        let shares = additive_share(&secret, &self.q, self.num_servers, ctx);
        let mut commitments: Vec<BigNat> = Vec::new();
        let mut randomness: Vec<BigNat> = Vec::new();
        for i in 0..shares.len()
            invariant
                self.spec_p() > 0,
                self.spec_q() > 1,
                commitments@.len() == i,
                randomness@.len() == i,
                forall|j: int|
                    0 <= j < i ==> {
                        &&& #[trigger] randomness@[j]@ < self.spec_q() - 1
                        &&& commitments@[j]@ == pedersen(
                            self.spec_g(),
                            self.spec_h(),
                            shares@[j]@,
                            randomness@[j]@,
                            self.spec_p(),
                        )
                    },
        {
            let (c, r) = self.commit(&shares[i], ctx).unwrap();
            commitments.push(c);
            randomness.push(r);
        }
        Share { commitments, randomness, shares }
    }

    /// Commits to `x` with fresh randomness `r` drawn below `q - 1`; returns
    /// the commitment and `r`.
    pub fn commit(&self, x: &BigNat, ctx: &mut BigNumContext) -> (res: Result<(BigNat, BigNat), CryptoError>)
        requires
            self.spec_p() > 0,
            self.spec_q() > 1,
        ensures
            res matches Ok((c, r)) && r@ < self.spec_q() - 1 && c@ == pedersen(
                self.spec_g(),
                self.spec_h(),
                x@,
                r@,
                self.spec_p(),
            ),
    {
        let r = gen_random(&self.q).unwrap();
        let c = self.helper(x, &r, ctx)?;
        Ok((c, r))
    }

    /// The Pedersen commitment `g^x1 h^r mod p`.
    pub fn helper(&self, x1: &BigNat, r: &BigNat, ctx: &mut BigNumContext) -> (res: Result<BigNat, CryptoError>)
        requires
            self.spec_p() > 0,
        ensures
            res matches Ok(c) && c@ == pedersen(self.spec_g(), self.spec_h(), x1@, r@, self.spec_p()),
    {
        let tmp3 = mod_exp(&self.g, x1, &self.p, ctx);
        let tmp4 = mod_exp(&self.h, r, &self.p, ctx);
        proof {
            lemma_pedersen_reduced(self.g@, self.h@, x1@, r@, self.p@);
        }
        Ok(tmp3.mul(&tmp4).rem(&self.p))
    }

    /// The product of the commitments `cm` modulo `p`.
    pub fn mult_commitments(&mut self, cm: &[&BigNat]) -> (res: Result<BigNat, CryptoError>)
        requires
            old(self).spec_p() > 0,
        ensures
            res matches Ok(c) && c@ == product_nats(ref_values(cm@)) % old(self).spec_p(),
            *final(self) == *old(self),
    {
        Ok(product_refs(cm).rem(&self.p))
    }

    /// Whether `c` is the commitment to `x` with randomness `r`.
    pub fn open(&self, c: &BigNat, x: &BigNat, r: &BigNat, ctx: &mut BigNumContext) -> (res: Result<bool, CryptoError>)
        requires
            self.spec_p() > 0,
        ensures
            res matches Ok(b) && b == (c@ == pedersen(self.spec_g(), self.spec_h(), x@, r@, self.spec_p())),
    {
        let res = self.helper(x, r, ctx)?;
        Ok(res.equals(c))
    }
}

} // verus!

//! A voting client for the verifiable (Poplar-style) protocol: besides the
//! one-hot shared vote, it shares the vote scaled by a secret `kappa` and the
//! correction terms `A` and `B` that let the servers check the vote.
use crate::bignat::BigNat;
use crate::utils::{additive_share, gen_random, is_additive_sharing, mod_sub_or_zero, nat_values, one_hot, sub_mod};
use openssl::bn::BigNumContext;
use vstd::prelude::*;

verus! {

/// A client of the verifiable voting protocol.
pub struct Client {
    num_servers: usize,
    num_candidates: u32,
    q: BigNat,
    pub kappa: BigNat,
}

/// The additive shares of one value.
pub struct Share {
    pub shares: Vec<BigNat>,
}

/// The correction terms of Appendix C of Poplar for a triple `(a, b, c)`:
/// `A = kappa - 2a` and `B = a^2 + b + c - a kappa`, modulo `q`.
pub open spec fn poplar_a(kappa: nat, a: nat, q: nat) -> nat {
    sub_mod(kappa as int, (2 * a) as int, q)
}

/// See [`poplar_a`].
pub open spec fn poplar_b(kappa: nat, a: nat, b: nat, c: nat, q: nat) -> nat {
    sub_mod((a * a + b + c) as int, (a * kappa) as int, q)
}

impl Client {
    /// The number of servers.
    pub closed spec fn spec_num_servers(&self) -> nat {
        self.num_servers as nat
    }

    /// The number of candidates.
    pub closed spec fn spec_num_candidates(&self) -> nat {
        self.num_candidates as nat
    }

    /// The sharing modulus `q`.
    pub closed spec fn spec_q(&self) -> nat {
        self.q@
    }

    /// The secret scaling factor `kappa`.
    pub closed spec fn spec_kappa(&self) -> nat {
        self.kappa@
    }

    /// Whether the parameters allow sharing: `q > 1` unless there is at most
    /// one server.
    pub open spec fn can_share(&self) -> bool {
        self.spec_num_servers() <= 1 || self.spec_q() > 1
    }

    /// A client with the given parameters and a random `kappa` below
    /// `q - 1`.
    pub fn new(num_servers: usize, num_candidates: u32, _q: &BigNat) -> (r: Client)
        requires
            _q@ > 1,
        ensures
            r.spec_num_servers() == num_servers,
            r.spec_num_candidates() == num_candidates,
            r.spec_q() == _q@,
            r.spec_kappa() < _q@ - 1,
    {
        let q = _q.copied();
        let kappa = gen_random(_q).unwrap();
        Client { num_servers, num_candidates, q, kappa }
    }

    /// A fixed vote, for candidate 1.
    pub fn generate_fake_vote(&self) -> (r: u32)
        ensures
            r == 1,
    {
        1
    }

    /// Encodes `vote` as a one-hot vector of `num_candidates` coordinates and
    /// shares each coordinate.  `vote` must name a candidate.
    pub fn vote(&self, vote: u32, ctx: &mut BigNumContext) -> (r: Vec<Share>)
        requires
            self.spec_num_candidates() > 0,
            vote < self.spec_num_candidates(),
            self.can_share(),
        ensures
            r@.len() == self.spec_num_candidates(),
            forall|i: int|
                0 <= i < r@.len() ==> is_additive_sharing(
                    nat_values(#[trigger] r@[i].shares@),
                    one_hot(vote as nat, i as nat),
                    self.spec_q(),
                    self.spec_num_servers(),
                ),
    {
        let mut encoded_vote: Vec<Share> = Vec::new();
        let n = self.num_candidates as usize;
        for i in 0..n
            invariant
                n == self.spec_num_candidates(),
                self.can_share(),
                encoded_vote@.len() == i,
                forall|j: int|
                    0 <= j < i ==> is_additive_sharing(
                        nat_values(#[trigger] encoded_vote@[j].shares@),
                        one_hot(vote as nat, j as nat),
                        self.spec_q(),
                        self.spec_num_servers(),
                    ),
        {
            if i as u32 == vote {
                encoded_vote.push(self.share(&BigNat::from_u32(1), ctx));
            } else {
                encoded_vote.push(self.share(&BigNat::from_u32(0), ctx));
            }
        }
        encoded_vote
    }

    /// Encodes `vote` as `kappa` times its one-hot vector and shares each
    /// coordinate.  `vote` must name a candidate.
    pub fn poplar_vote(&self, vote: u32, ctx: &mut BigNumContext) -> (r: Vec<Share>)
        requires
            self.spec_num_candidates() > 0,
            vote < self.spec_num_candidates(),
            self.can_share(),
        ensures
            r@.len() == self.spec_num_candidates(),
            forall|i: int|
                0 <= i < r@.len() ==> is_additive_sharing(
                    nat_values(#[trigger] r@[i].shares@),
                    self.spec_kappa() * one_hot(vote as nat, i as nat),
                    self.spec_q(),
                    self.spec_num_servers(),
                ),
    {
        let mut encoded_vote: Vec<Share> = Vec::new();
        let n = self.num_candidates as usize;
        for i in 0..n
            invariant
                n == self.spec_num_candidates(),
                self.can_share(),
                encoded_vote@.len() == i,
                forall|j: int|
                    0 <= j < i ==> is_additive_sharing(
                        nat_values(#[trigger] encoded_vote@[j].shares@),
                        self.spec_kappa() * one_hot(vote as nat, j as nat),
                        self.spec_q(),
                        self.spec_num_servers(),
                    ),
        {
            if i as u32 == vote {
                encoded_vote.push(self.share(&self.kappa, ctx));
            } else {
                encoded_vote.push(self.share(&BigNat::from_u32(0), ctx));
            }
        }
        encoded_vote
    }

    /// Shares the correction terms `A = kappa - 2a` and
    /// `B = a^2 + b + c - a kappa` (modulo `q`) of the triple `(a, b, c)`.
    pub fn get_ab_for_poplar(&self, a: &BigNat, b: &BigNat, c: &BigNat, ctx: &mut BigNumContext) -> (r: (Share, Share))
        requires
            self.can_share(),
        ensures
            is_additive_sharing(
                nat_values(r.0.shares@),
                poplar_a(self.spec_kappa(), a@, self.spec_q()),
                self.spec_q(),
                self.spec_num_servers(),
            ),
            is_additive_sharing(
                nat_values(r.1.shares@),
                poplar_b(self.spec_kappa(), a@, b@, c@, self.spec_q()),
                self.spec_q(),
                self.spec_num_servers(),
            ),
    {
        let two_a = BigNat::from_u32(2).mul(a);
        let ucase_a = mod_sub_or_zero(&self.kappa, &two_a, &self.q, ctx);
        let tmp = a.mul(a).add(b).add(c);
        let a_kappa = a.mul(&self.kappa);
        let ucase_b = mod_sub_or_zero(&tmp, &a_kappa, &self.q, ctx);
        (self.share(&ucase_a, ctx), self.share(&ucase_b, ctx))
    }

    /// Splits `_secret` into `num_servers` additive shares modulo `q`.
    pub fn share(&self, _secret: &BigNat, ctx: &mut BigNumContext) -> (r: Share)
        requires
            self.can_share(),
        ensures
            is_additive_sharing(nat_values(r.shares@), _secret@, self.spec_q(), self.spec_num_servers()),
    {
        let secret = _secret.copied();
        let shares = additive_share(&secret, &self.q, self.num_servers, ctx);
        Share { shares }
    }
}

} // verus!

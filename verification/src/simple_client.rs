//! A voting client without commitments: it encodes a vote as a one-hot
//! vector and splits each coordinate into additive shares modulo `q`.
use crate::bignat::{describe_struct, struct_text, BigNat};
use crate::utils::{additive_share, is_additive_sharing, nat_values, one_hot};
use openssl::bn::BigNumContext;
use vstd::prelude::*;

verus! {

/// A client of the voting protocol that does not commit to its shares.
pub struct SimpleClient {
    num_servers: usize,
    num_candidates: u32,
    p: BigNat,
    q: BigNat,
    g: BigNat,
    h: BigNat,
}

/// The shares of one coordinate of a vote.
pub struct NonCommittedShare {
    pub shares: Vec<BigNat>,
}

impl SimpleClient {
    /// The text that the `Display` impl writes: `Client { p: .., q: .., g: .., h: .. }`,
    /// each number in decimal.
    pub fn to_string(&self) -> (r: String)
        ensures
            r@ == struct_text("Client"@, seq![("p"@, self.spec_p()), ("q"@, self.spec_q()), ("g"@, self.spec_g()), ("h"@, self.spec_h())]),
    {
        let fields: Vec<(&str, &BigNat)> = vec![("p", &self.p), ("q", &self.q), ("g", &self.g), ("h", &self.h)];
        let r = describe_struct("Client", &fields);
        assert(Seq::new(fields.len() as nat, |i: int| (fields[i].0@, fields[i].1@)) =~= seq![("p"@, self.spec_p()), ("q"@, self.spec_q()), ("g"@, self.spec_g()), ("h"@, self.spec_h())]);
        r
    }

    /// The number of servers.
    pub closed spec fn spec_num_servers(&self) -> nat {
        self.num_servers as nat
    }

    /// The number of candidates.
    pub closed spec fn spec_num_candidates(&self) -> nat {
        self.num_candidates as nat
    }

    /// The modulus `p`.
    pub closed spec fn spec_p(&self) -> nat {
        self.p@
    }

    /// The sharing modulus `q`.
    pub closed spec fn spec_q(&self) -> nat {
        self.q@
    }

    /// The first base `g`.
    pub closed spec fn spec_g(&self) -> nat {
        self.g@
    }

    /// The second base `h`.
    pub closed spec fn spec_h(&self) -> nat {
        self.h@
    }

    /// A client with the given parameters.
    pub fn new(num_servers: usize, num_candidates: u32, _p: &BigNat, _q: &BigNat, _g: &BigNat, _h: &BigNat) -> (r: SimpleClient)
        ensures
            r.spec_num_servers() == num_servers,
            r.spec_num_candidates() == num_candidates,
            r.spec_p() == _p@,
            r.spec_q() == _q@,
            r.spec_g() == _g@,
            r.spec_h() == _h@,
    {
        SimpleClient { num_servers, num_candidates, p: _p.copied(), q: _q.copied(), g: _g.copied(), h: _h.copied() }
    }

    /// Encodes `vote` as a one-hot vector of `num_candidates` coordinates and
    /// shares each coordinate.  `vote` must name a candidate.
    pub fn vote(&self, vote: u32, ctx: &mut BigNumContext) -> (r: Vec<NonCommittedShare>)
        requires
            self.spec_num_candidates() > 0,
            vote < self.spec_num_candidates(),
            self.spec_num_servers() <= 1 || self.spec_q() > 1,
        ensures
            r@.len() == self.spec_num_candidates(),
            forall|i: int|
                0 <= i < r@.len() ==> is_additive_sharing(
                    nat_values(#[trigger] r@[i].shares@),
                    one_hot(vote as nat, i as nat),
                    self.spec_q(),
                    self.spec_num_servers(),
                ),
    {
        let mut encoded_vote: Vec<NonCommittedShare> = Vec::new();
        let n = self.num_candidates as usize;
        for i in 0..n
            invariant
                n == self.spec_num_candidates(),
                self.spec_num_servers() <= 1 || self.spec_q() > 1,
                encoded_vote@.len() == i,
                forall|j: int|
                    0 <= j < i ==> is_additive_sharing(
                        nat_values(#[trigger] encoded_vote@[j].shares@),
                        one_hot(vote as nat, j as nat),
                        self.spec_q(),
                        self.spec_num_servers(),
                    ),
        {
            if i as u32 == vote {
                encoded_vote.push(self.share(1, ctx));
            } else {
                encoded_vote.push(self.share(0, ctx));
            }
        }
        encoded_vote
    }

    /// Splits `secret` into `num_servers` additive shares modulo `q`.
    pub fn share(&self, _secret: u32, ctx: &mut BigNumContext) -> (r: NonCommittedShare)
        requires
            self.spec_num_servers() <= 1 || self.spec_q() > 1,
        ensures
            is_additive_sharing(nat_values(r.shares@), _secret as nat, self.spec_q(), self.spec_num_servers()),
    {
        let secret = BigNat::from_u32(_secret);
        let shares = additive_share(&secret, &self.q, self.num_servers, ctx);
        NonCommittedShare { shares }
    }
}

} // verus!

//! A server of the voting protocol without commitments: it aggregates the
//! shares it receives per candidate modulo `q` and takes part in the
//! polynomial test `z^2 = z* (mod q)` that checks that a vote is legal.
use crate::bignat::{describe_struct, struct_text, BigNat};
use crate::utils::{gen_random, nat_values, sum_all, sum_nats};
use openssl::bn::BigNumContext;
use vstd::arithmetic::power::pow;
use vstd::prelude::*;

verus! {

/// `sum_j (w_j x_j mod q)` over the first `k` coordinates: each product is
/// reduced, the sum is not.
pub open spec fn sum_reduced_products(w: Seq<nat>, x: Seq<nat>, k: nat, q: nat) -> nat
    decreases k,
{
    if k == 0 {
        0
    } else {
        sum_reduced_products(w, x, (k - 1) as nat, q) + (w[k - 1] * x[k - 1]) % q
    }
}

/// The squares of the entries of `r`, each reduced modulo `q`.
pub open spec fn squares_mod(r: Seq<nat>, q: nat) -> Seq<nat> {
    Seq::new(r.len(), |j: int| (pow(r[j] as int, 2) % (q as int)) as nat)
}

/// The bits of a morra from the numbers `draws`: one where a number is at
/// most `q / 2`, zero otherwise.
pub open spec fn morra_bits(draws: Seq<nat>, q: nat) -> Seq<u8> {
    Seq::new(draws.len(), |i: int| if draws[i] <= q / 2 { 1u8 } else { 0u8 })
}

/// A server of the voting protocol without commitments.
pub struct SimpleServer {
    pub agg_shares: Vec<BigNat>,
    pub last_received_shares: Vec<BigNat>,
    num_servers: usize,
    num_candidates: usize,
    pub p: BigNat,
    pub q: BigNat,
    pub g: BigNat,
    pub h: BigNat,
    pub ans: Vec<BigNat>,
}

impl SimpleServer {
    /// The text that the `Display` impl writes: `Server { p: .., q: .., g: .., h: .. }`,
    /// each number in decimal.
    pub fn to_string(&self) -> (r: String)
        ensures
            r@ == struct_text("Server"@, seq![("p"@, self.spec_p()), ("q"@, self.spec_q()), ("g"@, self.spec_g()), ("h"@, self.spec_h())]),
    {
        let fields: Vec<(&str, &BigNat)> = vec![("p", &self.p), ("q", &self.q), ("g", &self.g), ("h", &self.h)];
        let r = describe_struct("Server", &fields);
        assert(Seq::new(fields.len() as nat, |i: int| (fields[i].0@, fields[i].1@)) =~= seq![("p"@, self.spec_p()), ("q"@, self.spec_q()), ("g"@, self.spec_g()), ("h"@, self.spec_h())]);
        r
    }

    /// The number of servers.
    pub closed spec fn spec_num_servers(&self) -> nat {
        self.num_servers as nat
    }

    /// The number of candidates.
    pub closed spec fn spec_num_candidates(&self) -> nat {
        self.num_candidates as nat
    }

    /// The modulus `p`.
    pub closed spec fn spec_p(&self) -> nat {
        self.p@
    }

    /// The sharing modulus `q`.
    pub closed spec fn spec_q(&self) -> nat {
        self.q@
    }

    /// The first base `g`.
    pub closed spec fn spec_g(&self) -> nat {
        self.g@
    }

    /// The second base `h`.
    pub closed spec fn spec_h(&self) -> nat {
        self.h@
    }

    /// The aggregated share of each candidate.
    pub closed spec fn spec_agg_shares(&self) -> Seq<nat> {
        nat_values(self.agg_shares@)
    }

    /// The last share received for each candidate.
    pub closed spec fn spec_last_received_shares(&self) -> Seq<nat> {
        nat_values(self.last_received_shares@)
    }

    /// The reconstructed tally of each candidate.
    pub closed spec fn spec_ans(&self) -> Seq<nat> {
        nat_values(self.ans@)
    }

    /// The parameters of `self` are those of `other`.
    pub open spec fn same_parameters(&self, other: &SimpleServer) -> bool {
        &&& self.spec_num_servers() == other.spec_num_servers()
        &&& self.spec_num_candidates() == other.spec_num_candidates()
        &&& self.spec_p() == other.spec_p()
        &&& self.spec_q() == other.spec_q()
        &&& self.spec_g() == other.spec_g()
        &&& self.spec_h() == other.spec_h()
    }

    /// A server for `num_candidates` candidates with zero aggregates.
    pub fn new(num_servers: usize, num_candidates: usize, _p: &BigNat, _q: &BigNat, _g: &BigNat, _h: &BigNat) -> (r: SimpleServer)
        ensures
            r.spec_num_servers() == num_servers,
            r.spec_num_candidates() == num_candidates,
            r.spec_p() == _p@,
            r.spec_q() == _q@,
            r.spec_g() == _g@,
            r.spec_h() == _h@,
            r.spec_agg_shares() == Seq::new(num_candidates as nat, |i: int| 0nat),
            r.spec_last_received_shares() == Seq::new(num_candidates as nat, |i: int| 0nat),
            r.spec_ans() == Seq::new(num_candidates as nat, |i: int| 0nat),
    {
        let mut agg_shares: Vec<BigNat> = Vec::new();
        let mut last_received_shares: Vec<BigNat> = Vec::new();
        let mut ans: Vec<BigNat> = Vec::new();
        for i in 0..num_candidates
            invariant
                agg_shares@.len() == i,
                last_received_shares@.len() == i,
                ans@.len() == i,
                forall|j: int| 0 <= j < i ==> #[trigger] agg_shares@[j]@ == 0,
                forall|j: int| 0 <= j < i ==> #[trigger] last_received_shares@[j]@ == 0,
                forall|j: int| 0 <= j < i ==> #[trigger] ans@[j]@ == 0,
        {
            last_received_shares.push(BigNat::zero());
            agg_shares.push(BigNat::zero());
            ans.push(BigNat::zero());
        }
        let r = SimpleServer {
            agg_shares,
            last_received_shares,
            num_servers,
            num_candidates,
            p: _p.copied(),
            q: _q.copied(),
            g: _g.copied(),
            h: _h.copied(),
            ans,
        };
        assert(r.spec_agg_shares() =~= Seq::new(num_candidates as nat, |i: int| 0nat));
        assert(r.spec_last_received_shares() =~= Seq::new(num_candidates as nat, |i: int| 0nat));
        assert(r.spec_ans() =~= Seq::new(num_candidates as nat, |i: int| 0nat));
        r
    }

    /// One random bit per candidate: one when a number drawn below `q - 1`
    /// is at most `q / 2`, zero otherwise.
    pub fn generate_fresh_morra(&self) -> (r: Vec<u8>)
        requires
            self.spec_num_candidates() == 0 || self.spec_q() > 1,
        ensures
            exists|draws: Seq<nat>|
                {
                    &&& draws.len() == self.spec_num_candidates()
                    &&& forall|i: int| 0 <= i < draws.len() ==> #[trigger] draws[i] < self.spec_q() - 1
                    &&& r@ == morra_bits(draws, self.spec_q())
                },
    {
        let mut draws: Vec<BigNat> = Vec::new();
        for _i in 0..self.num_candidates
            invariant
                self.spec_num_candidates() == 0 || self.spec_q() > 1,
                draws@.len() == _i,
                forall|j: int| 0 <= j < draws@.len() ==> #[trigger] draws@[j]@ < self.spec_q() - 1,
        {
            draws.push(gen_random(&self.q).unwrap());
        }
        let morra = self.morra_from_draws(&draws);
        assert(forall|i: int| 0 <= i < nat_values(draws@).len() ==> #[trigger] nat_values(draws@)[i]
            < self.spec_q() - 1);
        morra
    }

    /// The bits of a morra from the numbers `draws`: one where a number is at
    /// most `q / 2`, zero otherwise.
    pub fn morra_from_draws(&self, draws: &Vec<BigNat>) -> (r: Vec<u8>)
        ensures
            r@ == morra_bits(nat_values(draws@), self.spec_q()),
    {
        let mut morra: Vec<u8> = Vec::new();
        let two = BigNat::from_u32(2);
        let half = self.q.div(&two);
        for i in 0..draws.len()
            invariant
                half@ == self.spec_q() / 2,
                morra@ == morra_bits(nat_values(draws@), self.spec_q()).subrange(0, i as int),
        {
            if draws[i].le(&half) {
                morra.push(1);
            } else {
                morra.push(0);
            }
        }
        assert(morra@ =~= morra_bits(nat_values(draws@), self.spec_q()));
        morra
    }

    /// One random number below `q - 1` per candidate, shared by all servers
    /// to check the inputs.
    pub fn generate_fresh_randomness(&self) -> (r: Vec<BigNat>)
        requires
            self.spec_num_candidates() == 0 || self.spec_q() > 1,
        ensures
            r@.len() == self.spec_num_candidates(),
            forall|i: int| 0 <= i < r@.len() ==> #[trigger] r@[i]@ < self.spec_q() - 1,
    {
        let mut r_vec: Vec<BigNat> = Vec::new();
        for _i in 0..self.num_candidates
            invariant
                self.spec_num_candidates() == 0 || self.spec_q() > 1,
                r_vec@.len() == _i,
                forall|j: int| 0 <= j < r_vec@.len() ==> #[trigger] r_vec@[j]@ < self.spec_q() - 1,
        {
            r_vec.push(gen_random(&self.q).unwrap());
        }
        r_vec
    }

    /// The polynomial test that a vote is legal: with `z` and `z*` the sums
    /// modulo `q` of the servers' messages, `z^2 = z* (mod q)`.  The test
    /// must pass (the server stops otherwise), and there is one message per
    /// server.
    pub fn sketching_test(&self, z_i: &Vec<BigNat>, z_i_star: &Vec<BigNat>, ctx: &mut BigNumContext)
        requires
            self.spec_q() > 0,
            z_i@.len() == self.spec_num_servers(),
            pow((sum_nats(nat_values(z_i@)) % self.spec_q()) as int, 2) % (self.spec_q() as int) == sum_nats(
                nat_values(z_i_star@),
            ) % self.spec_q(),
    {
    }

    /// The server's messages `(sum_j r_j x_j mod q, sum_j (r_j^2 mod q) x_j mod q)`
    /// for the last shares `x` it received, each product reduced, the sums
    /// not.
    pub fn broadcast(&self, r_vec: &Vec<BigNat>, ctx: &mut BigNumContext) -> (r: (BigNat, BigNat))
        requires
            self.spec_num_candidates() > 0 ==> self.spec_q() > 0,
            r_vec@.len() >= self.spec_num_candidates(),
            self.spec_last_received_shares().len() >= self.spec_num_candidates(),
        ensures
            r.0@ == sum_reduced_products(
                nat_values(r_vec@),
                self.spec_last_received_shares(),
                self.spec_num_candidates(),
                self.spec_q(),
            ),
            r.1@ == sum_reduced_products(
                squares_mod(nat_values(r_vec@), self.spec_q()),
                self.spec_last_received_shares(),
                self.spec_num_candidates(),
                self.spec_q(),
            ),
    {
        let ghost rv = nat_values(r_vec@);
        let ghost xs = self.spec_last_received_shares();
        let two = BigNat::from_u32(2);
        let mut z_i = BigNat::from_u32(0);
        let mut z_i_star = BigNat::from_u32(0);
        for i in 0..self.num_candidates
            invariant
                self.spec_num_candidates() > 0 ==> self.spec_q() > 0,
                r_vec@.len() >= self.spec_num_candidates(),
                xs.len() >= self.spec_num_candidates(),
                rv == nat_values(r_vec@),
                xs == self.spec_last_received_shares(),
                two@ == 2,
                z_i@ == sum_reduced_products(rv, xs, i as nat, self.spec_q()),
                z_i_star@ == sum_reduced_products(squares_mod(rv, self.spec_q()), xs, i as nat, self.spec_q()),
        {
            assert(xs[i as int] == self.last_received_shares@[i as int]@);
            z_i = z_i.add(&r_vec[i].mul(&self.last_received_shares[i]).rem(&self.q));
            let r_i_square = r_vec[i].mod_exp(&two, &self.q, ctx);
            z_i_star = z_i_star.add(&r_i_square.mul(&self.last_received_shares[i]).rem(&self.q));
        }
        (z_i, z_i_star)
    }

    /// Records `share` as the last share of candidate `dimension` and adds it
    /// to the aggregate modulo `q`.
    pub fn receive_share(&mut self, dimension: usize, share: &BigNat)
        requires
            old(self).spec_q() > 0,
            dimension < old(self).spec_agg_shares().len(),
            dimension < old(self).spec_last_received_shares().len(),
        ensures
            final(self).same_parameters(&*old(self)),
            final(self).spec_last_received_shares() == old(self).spec_last_received_shares().update(
                dimension as int,
                share@,
            ),
            final(self).spec_agg_shares() == old(self).spec_agg_shares().update(
                dimension as int,
                (old(self).spec_agg_shares()[dimension as int] + share@) % old(self).spec_q(),
            ),
            final(self).spec_ans() == old(self).spec_ans(),
    {
        let ghost old_last = self.last_received_shares@;
        let ghost old_agg = self.agg_shares@;
        let new_agg = self.agg_shares[dimension].add(share).rem(&self.q);
        self.last_received_shares.set(dimension, share.copied());
        self.agg_shares.set(dimension, new_agg);
        assert(nat_values(self.last_received_shares@) =~= nat_values(old_last).update(dimension as int, share@));
        assert(nat_values(self.agg_shares@) =~= nat_values(old_agg).update(dimension as int, new_agg@));
    }

    /// Adds `v` to the tally of candidate `dimension` modulo `q`.
    pub fn aggregate(&mut self, dimension: usize, v: BigNat)
        requires
            old(self).spec_q() > 0,
            dimension < old(self).spec_ans().len(),
        ensures
            final(self).same_parameters(&*old(self)),
            final(self).spec_agg_shares() == old(self).spec_agg_shares(),
            final(self).spec_last_received_shares() == old(self).spec_last_received_shares(),
            final(self).spec_ans() == old(self).spec_ans().update(
                dimension as int,
                (old(self).spec_ans()[dimension as int] + v@) % old(self).spec_q(),
            ),
    {
        let new_ans = self.ans[dimension].add(&v).rem(&self.q);
        let ghost old_ans = self.ans@;
        self.ans.set(dimension, new_ans);
        assert(nat_values(self.ans@) =~= nat_values(old_ans).update(dimension as int, new_ans@));
    }
}

} // verus!

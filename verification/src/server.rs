//! A server of the committed voting protocol: it checks each received share
//! against its Pedersen commitment, aggregates shares and randomness per
//! candidate modulo `q`, keeps the clients' commitments, and checks the
//! tallies that the other servers broadcast.
use crate::bignat::{describe_struct, struct_text, BigNat, CryptoError};
use crate::pedersen::{lemma_pedersen_reduced, pedersen};
use crate::utils::{gen_random, mod_exp, nat_values, product_nats, product_refs, ref_values, sum_nats, sum_refs};
use openssl::bn::BigNumContext;
use vstd::prelude::*;

verus! {

/// The running product, reduced modulo `p` at each step and starting from
/// one, of entry `idx` of the first `k` commitment vectors in `coms`.
pub open spec fn column_product_mod(coms: Seq<Seq<nat>>, idx: int, k: nat, p: nat) -> nat
    decreases k,
{
    if k == 0 {
        1
    } else {
        (column_product_mod(coms, idx, (k - 1) as nat, p) * coms[k - 1][idx]) % p
    }
}

/// A server of the committed voting protocol.
pub struct Server {
    pub agg_shares: Vec<BigNat>,
    pub agg_randomness: Vec<BigNat>,
    num_servers: usize,
    pub p: BigNat,
    pub q: BigNat,
    pub g: BigNat,
    pub h: BigNat,
    pub ans: Vec<BigNat>,
    commitments: Vec<Vec<Vec<BigNat>>>,
}

impl Server {
    /// The text that the `Display` impl writes: `Server { p: .., q: .., g: .., h: .. }`,
    /// each number in decimal.
    pub fn to_string(&self) -> (r: String)
        ensures
            r@ == struct_text("Server"@, seq![("p"@, self.spec_p()), ("q"@, self.spec_q()), ("g"@, self.spec_g()), ("h"@, self.spec_h())]),
    {
        let fields: Vec<(&str, &BigNat)> = vec![("p", &self.p), ("q", &self.q), ("g", &self.g), ("h", &self.h)];
        let r = describe_struct("Server", &fields);
        assert(Seq::new(fields.len() as nat, |i: int| (fields[i].0@, fields[i].1@)) =~= seq![("p"@, self.spec_p()), ("q"@, self.spec_q()), ("g"@, self.spec_g()), ("h"@, self.spec_h())]);
        r
    }

    /// The number of servers.
    pub closed spec fn spec_num_servers(&self) -> nat {
        self.num_servers as nat
    }

    /// The commitment modulus `p`.
    pub closed spec fn spec_p(&self) -> nat {
        self.p@
    }

    /// The sharing modulus `q`.
    pub closed spec fn spec_q(&self) -> nat {
        self.q@
    }

    /// The first base `g`.
    pub closed spec fn spec_g(&self) -> nat {
        self.g@
    }

    /// The second base `h`.
    pub closed spec fn spec_h(&self) -> nat {
        self.h@
    }

    /// The aggregated share of each candidate.
    pub closed spec fn spec_agg_shares(&self) -> Seq<nat> {
        nat_values(self.agg_shares@)
    }

    /// The aggregated randomness of each candidate.
    pub closed spec fn spec_agg_randomness(&self) -> Seq<nat> {
        nat_values(self.agg_randomness@)
    }

    /// The reconstructed tally of each candidate.
    pub closed spec fn spec_ans(&self) -> Seq<nat> {
        nat_values(self.ans@)
    }

    /// For each candidate, the commitment vectors received so far (one entry
    /// per server in each).
    pub closed spec fn spec_commitments(&self) -> Seq<Seq<Seq<nat>>> {
        Seq::new(
            self.commitments@.len(),
            |d: int| Seq::new(self.commitments@[d]@.len(), |c: int| nat_values(self.commitments@[d]@[c]@)),
        )
    }

    /// The parameters and the received data other than `what` are those of
    /// `other`.
    pub open spec fn same_parameters(&self, other: &Server) -> bool {
        &&& self.spec_num_servers() == other.spec_num_servers()
        &&& self.spec_p() == other.spec_p()
        &&& self.spec_q() == other.spec_q()
        &&& self.spec_g() == other.spec_g()
        &&& self.spec_h() == other.spec_h()
    }

    /// A server for `num_candidates` candidates with zero aggregates and no
    /// commitments received.
    pub fn new(num_servers: usize, num_candidates: u32, _p: &BigNat, _q: &BigNat, _g: &BigNat, _h: &BigNat) -> (r: Server)
        ensures
            r.spec_num_servers() == num_servers,
            r.spec_p() == _p@,
            r.spec_q() == _q@,
            r.spec_g() == _g@,
            r.spec_h() == _h@,
            r.spec_agg_shares() == Seq::new(num_candidates as nat, |i: int| 0nat),
            r.spec_agg_randomness() == Seq::new(num_candidates as nat, |i: int| 0nat),
            r.spec_ans() == Seq::new(num_candidates as nat, |i: int| 0nat),
            r.spec_commitments() == Seq::new(num_candidates as nat, |i: int| Seq::<Seq<nat>>::empty()),
    {
        let mut agg_shares: Vec<BigNat> = Vec::new();
        let mut agg_randomness: Vec<BigNat> = Vec::new();
        let mut ans: Vec<BigNat> = Vec::new();
        let mut commitments: Vec<Vec<Vec<BigNat>>> = Vec::new();
        for i in 0..num_candidates
            invariant
                agg_shares@.len() == i,
                agg_randomness@.len() == i,
                ans@.len() == i,
                commitments@.len() == i,
                forall|j: int| 0 <= j < i ==> #[trigger] agg_shares@[j]@ == 0,
                forall|j: int| 0 <= j < i ==> #[trigger] agg_randomness@[j]@ == 0,
                forall|j: int| 0 <= j < i ==> #[trigger] ans@[j]@ == 0,
                forall|j: int| 0 <= j < i ==> #[trigger] commitments@[j]@.len() == 0,
        {
            agg_shares.push(BigNat::zero());
            agg_randomness.push(BigNat::zero());
            ans.push(BigNat::zero());
            commitments.push(Vec::new());
        }
        let r = Server {
            agg_shares,
            agg_randomness,
            num_servers,
            p: _p.copied(),
            q: _q.copied(),
            g: _g.copied(),
            h: _h.copied(),
            ans,
            commitments,
        };
        assert(r.spec_agg_shares() =~= Seq::new(num_candidates as nat, |i: int| 0nat));
        assert(r.spec_agg_randomness() =~= Seq::new(num_candidates as nat, |i: int| 0nat));
        assert(r.spec_ans() =~= Seq::new(num_candidates as nat, |i: int| 0nat));
        assert(r.spec_commitments() =~~= Seq::new(num_candidates as nat, |i: int| Seq::<Seq<nat>>::empty()));
        r
    }

    /// Accepts the broadcast messages of all servers, one per server; only
    /// legal votes are handled, so the answer is always one.
    pub fn verify(&mut self, broadcasted_messages: &[&BigNat]) -> (r: u8)
        requires
            broadcasted_messages@.len() == old(self).spec_num_servers(),
        ensures
            r == 1,
            *final(self) == *old(self),
    {
        1
    }

    /// Receives a share of candidate `dimension` with its randomness and
    /// commitment, which must open (the server stops otherwise), and adds
    /// share and randomness to the aggregates modulo `q`.
    pub fn receive_share(&mut self, dimension: usize, share: &BigNat, randomness: &BigNat, com: &BigNat, ctx: &mut BigNumContext)
        requires
            old(self).spec_p() > 0,
            old(self).spec_q() > 0,
            dimension < old(self).spec_agg_shares().len(),
            dimension < old(self).spec_agg_randomness().len(),
            com@ == pedersen(old(self).spec_g(), old(self).spec_h(), share@, randomness@, old(self).spec_p()),
        ensures
            final(self).same_parameters(&*old(self)),
            final(self).spec_agg_shares() == old(self).spec_agg_shares().update(
                dimension as int,
                (old(self).spec_agg_shares()[dimension as int] + share@) % old(self).spec_q(),
            ),
            final(self).spec_agg_randomness() == old(self).spec_agg_randomness().update(
                dimension as int,
                (old(self).spec_agg_randomness()[dimension as int] + randomness@) % old(self).spec_q(),
            ),
            final(self).spec_ans() == old(self).spec_ans(),
            final(self).spec_commitments() == old(self).spec_commitments(),
    {
        let new_share = self.agg_shares[dimension].add(share).rem(&self.q);
        let new_randomness = self.agg_randomness[dimension].add(randomness).rem(&self.q);
        let ghost old_shares = self.agg_shares@;
        let ghost old_randomness = self.agg_randomness@;
        self.agg_shares.set(dimension, new_share);
        self.agg_randomness.set(dimension, new_randomness);
        assert(nat_values(self.agg_shares@) =~= nat_values(old_shares).update(dimension as int, new_share@));
        assert(nat_values(self.agg_randomness@) =~= nat_values(old_randomness).update(
            dimension as int,
            new_randomness@,
        ));
    }

    /// Stores a copy of the commitments `coms` (one per server) that a client
    /// sent for candidate `dimension`.
    pub fn receive_commitments(&mut self, dimension: usize, coms: &Vec<BigNat>)
        requires
            dimension < old(self).spec_commitments().len(),
        ensures
            final(self).same_parameters(&*old(self)),
            final(self).spec_agg_shares() == old(self).spec_agg_shares(),
            final(self).spec_agg_randomness() == old(self).spec_agg_randomness(),
            final(self).spec_ans() == old(self).spec_ans(),
            final(self).spec_commitments() == old(self).spec_commitments().update(
                dimension as int,
                old(self).spec_commitments()[dimension as int].push(nat_values(coms@)),
            ),
    {
        let mut coms_copy: Vec<BigNat> = Vec::new();
        for i in 0..coms.len()
            invariant
                coms_copy@.len() == i,
                forall|j: int| 0 <= j < i ==> #[trigger] coms_copy@[j]@ == coms@[j]@,
        {
            coms_copy.push(coms[i].copied());
        }
        assert(nat_values(coms_copy@) =~= nat_values(coms@));
        let ghost old_coms = self.commitments@;
        let mut column: Vec<Vec<BigNat>> = Vec::new();
        std::mem::swap(&mut column, &mut self.commitments[dimension]);
        let ghost old_column = column@;
        column.push(coms_copy);
        self.commitments.set(dimension, column);
        assert(self.spec_commitments() =~~= Seq::new(
            old_coms.len(),
            |d: int| Seq::new(old_coms[d]@.len(), |c: int| nat_values(old_coms[d]@[c]@)),
        ).update(
            dimension as int,
            Seq::new(old_column.len(), |c: int| nat_values(old_column[c]@)).push(nat_values(coms@)),
        ));
    }

    /// Checks a tally broadcast by server `server_idx` for candidate
    /// `dimension`: the commitment to `v` with randomness `r` must equal the
    /// product modulo `p` of that server's entries of all commitment vectors
    /// received for the candidate (the server stops otherwise).
    pub fn receive_tally_broadcast(&self, dimension: usize, server_idx: usize, v: &BigNat, r: &BigNat, ctx: &mut BigNumContext) -> (res: bool)
        requires
            self.spec_p() > 0,
            dimension < self.spec_commitments().len(),
            forall|k: int|
                0 <= k < self.spec_commitments()[dimension as int].len() ==> server_idx < (
                #[trigger] self.spec_commitments()[dimension as int][k]).len(),
            pedersen(self.spec_g(), self.spec_h(), v@, r@, self.spec_p()) == column_product_mod(
                self.spec_commitments()[dimension as int],
                server_idx as int,
                self.spec_commitments()[dimension as int].len(),
                self.spec_p(),
            ),
        ensures
            res,
    {
        let ghost cs = self.spec_commitments()[dimension as int];
        let mut res = BigNat::from_u32(1);
        let n = self.commitments[dimension].len();
        for k in 0..n
            invariant
                n == cs.len(),
                cs == self.spec_commitments()[dimension as int],
                dimension < self.spec_commitments().len(),
                self.spec_p() > 0,
                forall|k: int| 0 <= k < cs.len() ==> server_idx < (#[trigger] cs[k]).len(),
                res@ == column_product_mod(cs, server_idx as int, k as nat, self.spec_p()),
        {
            assert(cs[k as int][server_idx as int] == self.commitments@[dimension as int]@[k as int]@[server_idx as int]@);
            res = res.mul(&self.commitments[dimension][k][server_idx]).rem(&self.p);
        }
        let ans = self.helper(v, r, ctx).unwrap();
        ans.equals(&res)
    }

    /// Adds `v` to the tally of candidate `dimension` modulo `q`.
    pub fn aggregate(&mut self, dimension: usize, v: BigNat)
        requires
            old(self).spec_q() > 0,
            dimension < old(self).spec_ans().len(),
        ensures
            final(self).same_parameters(&*old(self)),
            final(self).spec_agg_shares() == old(self).spec_agg_shares(),
            final(self).spec_agg_randomness() == old(self).spec_agg_randomness(),
            final(self).spec_commitments() == old(self).spec_commitments(),
            final(self).spec_ans() == old(self).spec_ans().update(
                dimension as int,
                (old(self).spec_ans()[dimension as int] + v@) % old(self).spec_q(),
            ),
    {
        let new_ans = self.ans[dimension].add(&v).rem(&self.q);
        let ghost old_ans = self.ans@;
        self.ans.set(dimension, new_ans);
        assert(nat_values(self.ans@) =~= nat_values(old_ans).update(dimension as int, new_ans@));
    }

    /// The Pedersen commitment `g^x1 h^r mod p`.
    pub fn helper(&self, x1: &BigNat, r: &BigNat, ctx: &mut BigNumContext) -> (res: Result<BigNat, CryptoError>)
        requires
            self.spec_p() > 0,
        ensures
            res matches Ok(c) && c@ == pedersen(self.spec_g(), self.spec_h(), x1@, r@, self.spec_p()),
    {
        let tmp3 = mod_exp(&self.g, x1, &self.p, ctx);
        let tmp4 = mod_exp(&self.h, r, &self.p, ctx);
        proof {
            lemma_pedersen_reduced(self.g@, self.h@, x1@, r@, self.p@);
        }
        Ok(tmp3.mul(&tmp4).rem(&self.p))
    }

    /// Commits to `x` with fresh randomness `r` drawn below `q - 1`; returns
    /// the commitment and `r`.
    pub fn commit(&self, x: &BigNat, ctx: &mut BigNumContext) -> (res: Result<(BigNat, BigNat), CryptoError>)
        requires
            self.spec_p() > 0,
            self.spec_q() > 1,
        ensures
            res matches Ok((c, r)) && r@ < self.spec_q() - 1 && c@ == pedersen(
                self.spec_g(),
                self.spec_h(),
                x@,
                r@,
                self.spec_p(),
            ),
    {
        let r = gen_random(&self.q).unwrap();
        let c = self.helper(x, &r, ctx)?;
        Ok((c, r))
    }

    /// The product of the commitments `cm` modulo `p`.
    pub fn mult_commitments(&mut self, cm: &[&BigNat]) -> (res: Result<BigNat, CryptoError>)
        requires
            old(self).spec_p() > 0,
        ensures
            res matches Ok(c) && c@ == product_nats(ref_values(cm@)) % old(self).spec_p(),
            *final(self) == *old(self),
    {
        Ok(product_refs(cm).rem(&self.p))
    }

    /// Whether `c` is the commitment to `x` with the sum of `args` as
    /// randomness.
    pub fn open(&self, c: &BigNat, x: &BigNat, args: &[&BigNat], ctx: &mut BigNumContext) -> (res: Result<bool, CryptoError>)
        requires
            self.spec_p() > 0,
        ensures
            res matches Ok(b) && b == (c@ == pedersen(
                self.spec_g(),
                self.spec_h(),
                x@,
                sum_nats(ref_values(args@)),
                self.spec_p(),
            )),
    {
        let total = sum_refs(args);
        let res = self.helper(x, &total, ctx)?;
        Ok(res.equals(c))
    }
}

} // verus!

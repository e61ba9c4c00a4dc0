//! A verifier of the sketching check on votes: it collects from each server
//! the shares `z_i` and `z*_i` of the sketch, and accepts when `z^2 = z*`
//! modulo `q` for the totals `z` and `z*`.
use crate::bignat::BigNat;
use crate::utils::{mod_exp, nat_values, sum_all, sum_nats};
use openssl::bn::BigNumContext;
use vstd::arithmetic::power::pow;
use vstd::prelude::*;

verus! {

/// The verifier of the sketching check.
pub struct VoteVerifier {
    num_servers: usize,
    pub randomness: Vec<BigNat>,
    pub commitments: Vec<BigNat>,
    pub message_z: Vec<BigNat>,
    pub message_z_star: Vec<BigNat>,
    pub message_randomness: Vec<BigNat>,
    pub p: BigNat,
    pub q: BigNat,
    pub g: BigNat,
    pub h: BigNat,
}

impl VoteVerifier {
    /// The number of servers.
    pub closed spec fn spec_num_servers(&self) -> nat {
        self.num_servers as nat
    }

    /// The number of commitments held.
    pub closed spec fn spec_num_commitments(&self) -> nat {
        self.commitments.len() as nat
    }

    /// The received shares `z_i`.
    pub closed spec fn spec_message_z(&self) -> Seq<nat> {
        nat_values(self.message_z@)
    }

    /// The received shares `z*_i`.
    pub closed spec fn spec_message_z_star(&self) -> Seq<nat> {
        nat_values(self.message_z_star@)
    }

    /// The received randomness `t_i`.
    pub closed spec fn spec_message_randomness(&self) -> Seq<nat> {
        nat_values(self.message_randomness@)
    }

    /// The modulus `q`.
    pub closed spec fn spec_q(&self) -> nat {
        self.q@
    }

    /// Whether the sketch check passes: one commitment and one pair of
    /// shares per server, and `z^2 = z*` modulo `q` for the totals.
    pub open spec fn sketch_holds(&self) -> bool {
        let q = self.spec_q() as int;
        &&& self.spec_num_commitments() == self.spec_num_servers()
        &&& self.spec_message_z_star().len() == self.spec_num_servers()
        &&& self.spec_message_z().len() == self.spec_num_servers()
        &&& pow((sum_nats(self.spec_message_z()) % self.spec_q()) as int, 2) % q == (sum_nats(
            self.spec_message_z_star(),
        ) % self.spec_q()) as int
    }

    /// A verifier for `num_servers` servers, with the common vector
    /// `randomness`, the commitments, and the group (`p`, `q`, `g`, `h`); it
    /// has received no messages yet.
    pub fn new(
        num_servers: usize,
        randomness: Vec<BigNat>,
        commitments: Vec<BigNat>,
        p: BigNat,
        q: BigNat,
        g: BigNat,
        h: BigNat,
    ) -> (r: VoteVerifier)
        ensures
            r.spec_num_servers() == num_servers,
            r.spec_num_commitments() == commitments.len(),
            r.spec_q() == q@,
            r.spec_message_z().len() == 0,
            r.spec_message_z_star().len() == 0,
            r.spec_message_randomness().len() == 0,
    {
        VoteVerifier {
            num_servers,
            randomness,
            commitments,
            message_z: Vec::new(),
            message_z_star: Vec::new(),
            message_randomness: Vec::new(),
            p,
            q,
            g,
            h,
        }
    }

    /// Records copies of the shares `z_i`, `z*_i` and the randomness `t_i`
    /// of one server.
    pub fn accept_message(&mut self, z_i: &BigNat, z_i_star: &BigNat, t_i: &BigNat)
        ensures
            final(self).spec_message_z() == old(self).spec_message_z().push(z_i@),
            final(self).spec_message_z_star() == old(self).spec_message_z_star().push(z_i_star@),
            final(self).spec_message_randomness() == old(self).spec_message_randomness().push(
                t_i@,
            ),
            final(self).spec_num_servers() == old(self).spec_num_servers(),
            final(self).spec_num_commitments() == old(self).spec_num_commitments(),
            final(self).spec_q() == old(self).spec_q(),
    {
        let copy_z = z_i.copied();
        self.message_z.push(copy_z);
        let copy_z_star = z_i_star.copied();
        self.message_z_star.push(copy_z_star);
        let copy_t = t_i.copied();
        self.message_randomness.push(copy_t);
        assert(self.spec_message_z() =~= old(self).spec_message_z().push(z_i@));
        assert(self.spec_message_z_star() =~= old(self).spec_message_z_star().push(z_i_star@));
        assert(self.spec_message_randomness() =~= old(self).spec_message_randomness().push(t_i@));
    }

    /// Whether the sketch check passes; false when a commitment or a share
    /// of some server is missing.
    pub fn sketch(&self, ctx: &mut BigNumContext) -> (r: bool)
        requires
            self.spec_num_commitments() == self.spec_num_servers()
                && self.spec_message_z_star().len() == self.spec_num_servers()
                && self.spec_message_z().len() == self.spec_num_servers() ==> self.spec_q() > 0,
        ensures
            r == self.sketch_holds(),
    {
        if self.commitments.len() != self.num_servers {
            return false;
        } else if self.message_z_star.len() != self.num_servers {
            return false;
        } else if self.message_z.len() != self.num_servers {
            return false;
        }
        let z_star = sum_all(&self.message_z_star).rem(&self.q);
        let z = sum_all(&self.message_z).rem(&self.q);
        let two = BigNat::from_u32(2);
        mod_exp(&z, &two, &self.q, ctx).equals(&z_star)
    }

    /// Computes the total `z*` of the received shares modulo `q`; the value
    /// is not used.
    pub fn authenticate(&self, coms: &Vec<BigNat>)
        requires
            self.spec_q() > 0,
    {
        let _z_star = sum_all(&self.message_z_star).rem(&self.q);
    }
}

} // verus!

//! Additive secret sharing modulo `q = (p - 1) / 2` where every share comes
//! with a Pedersen commitment `g^x h^r mod q`.
use crate::bignat::{describe_struct, struct_text, generate_prime, is_prime, new_context, BigNat, CryptoError};
use crate::pedersen::{is_committed_sharing_of, lemma_pedersen_reduced, pedersen};
use crate::utils::{
    additive_share, calculate_q, gen_random, is_additive_sharing, nat_values, product_nats,
    ref_values, sum_all, sum_nats, sum_refs, product_refs,
};
use openssl::bn::BigNumContext;
use vstd::arithmetic::power::pow;
use vstd::prelude::*;

verus! {

/// Parameters of a committed additive secret sharing among `num_shares`
/// parties.
pub struct CommitedAdditiveSecretSharing {
    pub num_shares: usize,
    pub p: BigNat,
    pub q: BigNat,
    pub g: BigNat,
    pub h: BigNat,
    pub ctx: BigNumContext,
}

/// The shares of a secret, with a commitment to each and the randomness
/// that opens it.
pub struct Share {
    pub commitments: Vec<BigNat>,
    pub randomness: Vec<BigNat>,
    pub shares: Vec<BigNat>,
}

/// What `share` promises of a [`Share`]: the shares are an additive sharing
/// of `secret` modulo `q`, and commitment `i` is the Pedersen commitment
/// modulo `q` to share `i` with randomness `i`, drawn below `q - 1`.
pub open spec fn is_committed_sharing(s: Share, secret: nat, g: nat, h: nat, q: nat, n: nat) -> bool {
    is_committed_sharing_of(
        nat_values(s.shares@),
        nat_values(s.randomness@),
        nat_values(s.commitments@),
        secret,
        g,
        h,
        q,
        q,
        n,
    )
}

impl CommitedAdditiveSecretSharing {
    /// The text that the `Display` impl writes: `Client { p: .., q: .., g: .., h: .. }`,
    /// each number in decimal.
    pub fn to_string(&self) -> (r: String)
        ensures
            r@ == struct_text("Client"@, seq![("p"@, self.p@), ("q"@, self.q@), ("g"@, self.g@), ("h"@, self.h@)]),
    {
        let fields: Vec<(&str, &BigNat)> = vec![("p", &self.p), ("q", &self.q), ("g", &self.g), ("h", &self.h)];
        let r = describe_struct("Client", &fields);
        assert(Seq::new(fields.len() as nat, |i: int| (fields[i].0@, fields[i].1@)) =~= seq![("p"@, self.p@), ("q"@, self.q@), ("g"@, self.g@), ("h"@, self.h@)]);
        r
    }

    /// The parameters made from the prime `p`, the base `g` and the exponent
    /// `alpha`: `q = (p - 1) / 2` and `h = g^alpha mod p`.
    pub fn from_parts(num_shares: usize, p: BigNat, g: BigNat, alpha: &BigNat, ctx: BigNumContext) -> (s:
        CommitedAdditiveSecretSharing)
        requires
            p@ > 0,
        ensures
            s.num_shares == num_shares,
            s.p@ == p@,
            s.q@ == ((p@ - 1) as nat) / 2,
            s.g@ == g@,
            s.h@ == pow(g@ as int, alpha@) % (p@ as int),
    {
        let mut ctx = ctx;
        let q = calculate_q(&p).unwrap();
        let h = g.mod_exp(alpha, &p, &mut ctx);
        CommitedAdditiveSecretSharing { num_shares, p, q, g, h, ctx }
    }

    /// Draws the parameters: a random safe prime `p` of at least `2 * security` bits,
    /// `q = (p - 1) / 2`, a random `g` below `p - 1`, and `h = g^alpha mod p`
    /// for a random `alpha` below `p - 1`.
    pub fn new(security: i32, num_shares: usize) -> (r: Result<CommitedAdditiveSecretSharing, CryptoError>)
        requires
            security <= i32::MAX / 2,
        ensures
            security <= 0 ==> r is Err,
            security > 0 && r is Err ==> r == Err::<Self, CryptoError>(CryptoError::OpenSsl),
            r matches Ok(s) ==> {
                &&& s.num_shares == num_shares
                &&& pow(2, (2 * security - 1) as nat) <= s.p@
                &&& s.p@ > 1
                &&& is_prime(s.p@)
                &&& is_prime(s.q@)
                &&& s.q@ == ((s.p@ - 1) as nat) / 2
                &&& s.g@ < s.p@ - 1
                &&& exists|alpha: nat| alpha < s.p@ - 1 && s.h@ == pow(s.g@ as int, alpha) % (s.p@ as int)
            },
    {
        let ctx = new_context()?;
        if security <= 0 {
            return Err(CryptoError::InvalidArgument);
        }
        let p = generate_prime(2 * security, true)?;
        assert(p@ > 1) by {
            vstd::arithmetic::power::lemma_pow1(2);
            vstd::arithmetic::power::lemma_pow_increases(2, 1, (2 * security - 1) as nat);
        }
        let g = gen_random(&p)?;
        let alpha = gen_random(&p)?;
        let s = Self::from_parts(num_shares, p, g, &alpha, ctx);
        assert(exists|a: nat| a < s.p@ - 1 && s.h@ == pow(s.g@ as int, a) % (s.p@ as int));
        Ok(s)
    }

    /// Splits `secret` into `num_shares` additive shares modulo `q` and
    /// commits to each.
    pub fn share(&mut self, secret: u32) -> (r: Share)
        requires
            old(self).q@ > 1,
        ensures
            is_committed_sharing(r, secret as nat, old(self).g@, old(self).h@, old(self).q@, old(self).num_shares as nat),
            final(self).num_shares == old(self).num_shares,
            final(self).p == old(self).p,
            final(self).q == old(self).q,
            final(self).g == old(self).g,
            final(self).h == old(self).h,
    {
        let s = BigNat::from_u32(secret);
        let shares = additive_share(&s, &self.q, self.num_shares, &mut self.ctx);
        let mut commitments: Vec<BigNat> = Vec::new();
        let mut randomness: Vec<BigNat> = Vec::new();
        for i in 0..shares.len()
            invariant
                self.q@ > 1,
                self.num_shares == old(self).num_shares,
                self.p == old(self).p,
                self.q == old(self).q,
                self.g == old(self).g,
                self.h == old(self).h,
                commitments@.len() == i,
                randomness@.len() == i,
                forall|j: int|
                    0 <= j < i ==> {
                        &&& #[trigger] randomness@[j]@ < self.q@ - 1
                        &&& commitments@[j]@ == pedersen(self.g@, self.h@, shares@[j]@, randomness@[j]@, self.q@)
                    },
        {
            let (c, r) = self.commit(&shares[i]).unwrap();
            commitments.push(c);
            randomness.push(r);
        }
        Share { commitments, randomness, shares }
    }

    /// The secret that `shares` add up to: their sum modulo `q` (zero when
    /// `q` is zero, where OpenSSL's reduction fails and leaves zero).
    pub fn reconstruct(&mut self, shares: Vec<BigNat>) -> (r: BigNat)
        ensures
            r@ == (if old(self).q@ == 0 { 0 } else { sum_nats(nat_values(shares@)) % old(self).q@ }),
            final(self).num_shares == old(self).num_shares,
            final(self).p == old(self).p,
            final(self).q == old(self).q,
            final(self).g == old(self).g,
            final(self).h == old(self).h,
    {
        let total = sum_all(&shares);
        if self.q.equals(&BigNat::zero()) {
            return BigNat::zero();
        }
        total.nnmod(&self.q, &mut self.ctx)
    }

    /// The Pedersen commitment `g^x1 h^r mod q`; an error when `q` is zero.
    pub fn helper(&mut self, x1: &BigNat, r: &BigNat) -> (res: Result<BigNat, CryptoError>)
        ensures
            res is Ok <==> old(self).q@ > 0,
            res matches Ok(c) ==> c@ == pedersen(old(self).g@, old(self).h@, x1@, r@, old(self).q@),
            final(self).num_shares == old(self).num_shares,
            final(self).p == old(self).p,
            final(self).q == old(self).q,
            final(self).g == old(self).g,
            final(self).h == old(self).h,
    {
        if self.q.equals(&BigNat::zero()) {
            return Err(CryptoError::OpenSsl);
        }
        let tmp3 = self.g.mod_exp(x1, &self.q, &mut self.ctx);
        let tmp4 = self.h.mod_exp(r, &self.q, &mut self.ctx);
        let c = tmp3.mod_mul(&tmp4, &self.q, &mut self.ctx);
        proof {
            lemma_pedersen_reduced(self.g@, self.h@, x1@, r@, self.q@);
        }
        Ok(c)
    }

    /// Commits to `x` with fresh randomness `r` drawn below `q - 1`; returns
    /// the commitment and `r`.  An error when `q` is at most one.
    pub fn commit(&mut self, x: &BigNat) -> (res: Result<(BigNat, BigNat), CryptoError>)
        ensures
            res is Ok <==> old(self).q@ > 1,
            res matches Ok((c, r)) ==> r@ < old(self).q@ - 1 && c@ == pedersen(
                old(self).g@,
                old(self).h@,
                x@,
                r@,
                old(self).q@,
            ),
            final(self).num_shares == old(self).num_shares,
            final(self).p == old(self).p,
            final(self).q == old(self).q,
            final(self).g == old(self).g,
            final(self).h == old(self).h,
    {
        let r = gen_random(&self.q)?;
        let c = self.helper(x, &r)?;
        Ok((c, r))
    }

    /// The product of the commitments `cm` modulo `q`; an error when `q` is
    /// zero.
    pub fn mult_commitments(&mut self, cm: &[&BigNat]) -> (res: Result<BigNat, CryptoError>)
        ensures
            res is Ok <==> old(self).q@ > 0,
            res matches Ok(c) ==> c@ == product_nats(ref_values(cm@)) % old(self).q@,
            final(self).num_shares == old(self).num_shares,
            final(self).p == old(self).p,
            final(self).q == old(self).q,
            final(self).g == old(self).g,
            final(self).h == old(self).h,
    {
        let res = product_refs(cm);
        if self.q.equals(&BigNat::zero()) {
            return Err(CryptoError::OpenSsl);
        }
        Ok(res.nnmod(&self.q, &mut self.ctx))
    }

    /// Whether `c` is the commitment to `x` with the sum of `args` as
    /// randomness; an error when `q` is zero.
    pub fn open(&mut self, c: &BigNat, x: &BigNat, args: &[&BigNat]) -> (res: Result<bool, CryptoError>)
        ensures
            res is Ok <==> old(self).q@ > 0,
            res matches Ok(b) ==> b == (c@ == pedersen(
                old(self).g@,
                old(self).h@,
                x@,
                sum_nats(ref_values(args@)),
                old(self).q@,
            )),
            final(self).num_shares == old(self).num_shares,
            final(self).p == old(self).p,
            final(self).q == old(self).q,
            final(self).g == old(self).g,
            final(self).h == old(self).h,
    {
        let total = sum_refs(args);
        let res = self.helper(x, &total)?;
        Ok(res.equals(c))
    }
}

} // verus!

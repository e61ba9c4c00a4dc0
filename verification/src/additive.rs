//! Additive secret sharing of a `u32` modulo `q = 2p + 1`.
use crate::bignat::{generate_prime, is_prime, new_context, BigNat, CryptoError};
use crate::utils::{additive_share, gen_random, is_additive_sharing, nat_values, sum_all, sum_nats};
use openssl::bn::BigNumContext;
use vstd::arithmetic::power::pow;
use vstd::prelude::*;

verus! {

/// Parameters of an additive secret sharing among `num_shares` parties.
pub struct AdditiveSecretSharing {
    pub num_shares: usize,
    pub p: BigNat,
    pub q: BigNat,
    pub g: BigNat,
    pub h: BigNat,
    pub ctx: BigNumContext,
}

/// `2p + 1`.
fn calculate_q(p: &BigNat) -> (r: BigNat)
    ensures
        r@ == 2 * p@ + 1,
{
    let one = BigNat::from_u32(1);
    let two = BigNat::from_u32(2);
    p.mul(&two).add(&one)
}

impl AdditiveSecretSharing {
    /// The parameters made from the prime `p`, the base `g` and the exponent
    /// `alpha`: `q = 2p + 1` and `h = g^alpha mod p`.
    pub fn from_parts(num_shares: usize, p: BigNat, g: BigNat, alpha: &BigNat, ctx: BigNumContext) -> (s:
        AdditiveSecretSharing)
        requires
            p@ > 0,
        ensures
            s.num_shares == num_shares,
            s.p@ == p@,
            s.q@ == 2 * p@ + 1,
            s.g@ == g@,
            s.h@ == pow(g@ as int, alpha@) % (p@ as int),
    {
        let mut ctx = ctx;
        let q = calculate_q(&p);
        let h = g.mod_exp(alpha, &p, &mut ctx);
        AdditiveSecretSharing { num_shares, p, q, g, h, ctx }
    }

    /// Draws the parameters: a random prime `p` of at least `2 * security` bits,
    /// `q = 2p + 1`, a random `g` below `p - 1`, and `h = g^alpha mod p` for
    /// a random `alpha` below `p - 1`.
    pub fn new(security: i32, num_shares: usize) -> (r: Result<AdditiveSecretSharing, CryptoError>)
        requires
            security <= i32::MAX / 2,
        ensures
            security <= 0 ==> r is Err,
            security > 0 && r is Err ==> r == Err::<Self, CryptoError>(CryptoError::OpenSsl),
            r matches Ok(s) ==> {
                &&& s.num_shares == num_shares
                &&& pow(2, (2 * security - 1) as nat) <= s.p@
                &&& s.p@ > 1
                &&& is_prime(s.p@)
                &&& s.q@ == 2 * s.p@ + 1
                &&& s.g@ < s.p@ - 1
                &&& exists|alpha: nat| alpha < s.p@ - 1 && s.h@ == pow(s.g@ as int, alpha) % (s.p@ as int)
            },
    {
        let ctx = new_context()?;
        if security <= 0 {
            return Err(CryptoError::InvalidArgument);
        }
        let p = generate_prime(2 * security, false)?;
        assert(p@ > 1) by {
            vstd::arithmetic::power::lemma_pow1(2);
            vstd::arithmetic::power::lemma_pow_increases(2, 1, (2 * security - 1) as nat);
        }
        let g = gen_random(&p)?;
        let alpha = gen_random(&p)?;
        let s = Self::from_parts(num_shares, p, g, &alpha, ctx);
        assert(exists|a: nat| a < s.p@ - 1 && s.h@ == pow(s.g@ as int, a) % (s.p@ as int));
        Ok(s)
    }

    /// Splits `secret` into `num_shares` additive shares modulo `q`.
    pub fn share(&mut self, secret: u32) -> (r: Vec<BigNat>)
        requires
            old(self).num_shares <= 1 || old(self).q@ > 1,
        ensures
            is_additive_sharing(nat_values(r@), secret as nat, old(self).q@, old(self).num_shares as nat),
            final(self).num_shares == old(self).num_shares,
            final(self).p == old(self).p,
            final(self).q == old(self).q,
            final(self).g == old(self).g,
            final(self).h == old(self).h,
    {
        let s = BigNat::from_u32(secret);
        additive_share(&s, &self.q, self.num_shares, &mut self.ctx)
    }

    /// The secret that `shares` add up to: their sum modulo `q` (zero when
    /// `q` is zero, where OpenSSL's reduction fails and leaves zero).
    pub fn reconstruct(&mut self, shares: Vec<BigNat>) -> (r: BigNat)
        ensures
            r@ == (if old(self).q@ == 0 { 0 } else { sum_nats(nat_values(shares@)) % old(self).q@ }),
            final(self).num_shares == old(self).num_shares,
            final(self).p == old(self).p,
            final(self).q == old(self).q,
            final(self).g == old(self).g,
            final(self).h == old(self).h,
    {
        let total = sum_all(&shares);
        if self.q.equals(&BigNat::zero()) {
            return BigNat::zero();
        }
        total.nnmod(&self.q, &mut self.ctx)
    }
}

} // verus!

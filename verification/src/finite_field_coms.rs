//! Pedersen commitments `g^x h^r mod p` with randomness drawn below `q - 1`.
use crate::bignat::{BigNat, CryptoError};
use crate::pedersen::{lemma_pedersen_reduced, pedersen};
use crate::utils::{gen_random, mod_exp, product_nats, product_refs, ref_values};
use openssl::bn::BigNumContext;
use vstd::prelude::*;

verus! {

/// A Pedersen commitment scheme modulo `p`.
pub struct Commitment {
    p: BigNat,
    q: BigNat,
    g: BigNat,
    h: BigNat,
}

impl Commitment {
    /// The modulus `p`.
    pub closed spec fn spec_p(&self) -> nat {
        self.p@
    }

    /// The bound `q` of the randomness.
    pub closed spec fn spec_q(&self) -> nat {
        self.q@
    }

    /// The first base `g`.
    pub closed spec fn spec_g(&self) -> nat {
        self.g@
    }

    /// The second base `h`.
    pub closed spec fn spec_h(&self) -> nat {
        self.h@
    }

    /// A scheme with the given parameters.
    pub fn new(_p: &BigNat, _q: &BigNat, _g: &BigNat, _h: &BigNat) -> (r: Commitment)
        ensures
            r.spec_p() == _p@,
            r.spec_q() == _q@,
            r.spec_g() == _g@,
            r.spec_h() == _h@,
    {
        Commitment { p: _p.copied(), q: _q.copied(), g: _g.copied(), h: _h.copied() }
    }

    /// The Pedersen commitment `g^x1 h^r mod p`.
    pub fn helper(&self, x1: &BigNat, r: &BigNat, ctx: &mut BigNumContext) -> (res: Result<BigNat, CryptoError>)
        requires
            self.spec_p() > 0,
        ensures
            res matches Ok(c) && c@ == pedersen(self.spec_g(), self.spec_h(), x1@, r@, self.spec_p()),
    {
        let tmp3 = mod_exp(&self.g, x1, &self.p, ctx);
        let tmp4 = mod_exp(&self.h, r, &self.p, ctx);
        proof {
            lemma_pedersen_reduced(self.g@, self.h@, x1@, r@, self.p@);
        }
        Ok(tmp3.mul(&tmp4).rem(&self.p))
    }

    /// The product of the commitments `cm` modulo `p`.
    pub fn mult_commitments(&mut self, cm: &[&BigNat]) -> (res: Result<BigNat, CryptoError>)
        requires
            old(self).spec_p() > 0,
        ensures
            res matches Ok(c) && c@ == product_nats(ref_values(cm@)) % old(self).spec_p(),
            *final(self) == *old(self),
    {
        Ok(product_refs(cm).rem(&self.p))
    }

    /// Whether `c` is the commitment to `x` with randomness `r`.
    pub fn open(&self, c: &BigNat, x: &BigNat, r: &BigNat, ctx: &mut BigNumContext) -> (res: Result<bool, CryptoError>)
        requires
            self.spec_p() > 0,
        ensures
            res matches Ok(b) && b == (c@ == pedersen(self.spec_g(), self.spec_h(), x@, r@, self.spec_p())),
    {
        let res = self.helper(x, r, ctx)?;
        Ok(res.equals(c))
    }

    /// Commits to `x` with fresh randomness `r` drawn below `q - 1`; returns
    /// the commitment and `r`.
    pub fn commit(&self, x: &BigNat, ctx: &mut BigNumContext) -> (res: Result<(BigNat, BigNat), CryptoError>)
        requires
            self.spec_p() > 0,
            self.spec_q() > 1,
        ensures
            res matches Ok((c, r)) && r@ < self.spec_q() - 1 && c@ == pedersen(
                self.spec_g(),
                self.spec_h(),
                x@,
                r@,
                self.spec_p(),
            ),
    {
        let r = gen_random(&self.q).unwrap();
        let c = self.helper(x, &r, ctx)?;
        Ok((c, r))
    }
}

} // verus!

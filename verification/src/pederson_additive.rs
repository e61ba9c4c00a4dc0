//! Pedersen commitments `g^x h^r mod q` to `u32` messages, with `q = 2p + 1`
//! for a random prime `p`.
use crate::bignat::{describe_struct, struct_text, generate_prime, is_prime, new_context, BigNat, CryptoError};
use crate::pedersen::{lemma_pedersen_reduced, pedersen};
use crate::utils::{gen_random, product_nats, product_refs, ref_values, sum_nats, sum_refs};
use openssl::bn::BigNumContext;
use vstd::arithmetic::power::pow;
use vstd::prelude::*;

verus! {

/// A Pedersen commitment scheme over the integers modulo `q`.
pub struct PedersenCommitment {
    p: BigNat,
    q: BigNat,
    g: BigNat,
    h: BigNat,
    ctx: BigNumContext,
}

/// `2p + 1`.
fn calculate_q(p: &BigNat) -> (r: BigNat)
    ensures
        r@ == 2 * p@ + 1,
{
    let one = BigNat::from_u32(1);
    let two = BigNat::from_u32(2);
    p.mul(&two).add(&one)
}

impl PedersenCommitment {
    /// The text that the `Display` impl writes: `PedersenCommitment { p: .., q: .., g: .., h: .. }`,
    /// each number in decimal.
    pub fn to_string(&self) -> (r: String)
        ensures
            r@ == struct_text("PedersenCommitment"@, seq![("p"@, self.spec_p()), ("q"@, self.spec_q()), ("g"@, self.spec_g()), ("h"@, self.spec_h())]),
    {
        let fields: Vec<(&str, &BigNat)> = vec![("p", &self.p), ("q", &self.q), ("g", &self.g), ("h", &self.h)];
        let r = describe_struct("PedersenCommitment", &fields);
        assert(Seq::new(fields.len() as nat, |i: int| (fields[i].0@, fields[i].1@)) =~= seq![("p"@, self.spec_p()), ("q"@, self.spec_q()), ("g"@, self.spec_g()), ("h"@, self.spec_h())]);
        r
    }

    /// The parameters are well formed: `p > 1` and `q = 2p + 1`.
    pub closed spec fn well_formed(&self) -> bool {
        &&& self.p@ > 1
        &&& self.q@ == 2 * self.p@ + 1
    }

    /// The prime `p`.
    pub closed spec fn spec_p(&self) -> nat {
        self.p@
    }

    /// The modulus `q = 2p + 1`.
    pub closed spec fn spec_q(&self) -> nat {
        self.q@
    }

    /// The first base `g`.
    pub closed spec fn spec_g(&self) -> nat {
        self.g@
    }

    /// The second base `h`.
    pub closed spec fn spec_h(&self) -> nat {
        self.h@
    }

    /// The scheme made from the prime `p`, the base `g` and the exponent
    /// `alpha`: `q = 2p + 1` and `h = g^alpha mod p`.
    pub fn from_parts(p: BigNat, g: BigNat, alpha: &BigNat, ctx: BigNumContext) -> (s: PedersenCommitment)
        requires
            p@ > 1,
        ensures
            s.well_formed(),
            s.spec_p() == p@,
            s.spec_q() == 2 * p@ + 1,
            s.spec_g() == g@,
            s.spec_h() == pow(g@ as int, alpha@) % (p@ as int),
    {
        let mut ctx = ctx;
        let q = calculate_q(&p);
        let h = g.mod_exp(alpha, &p, &mut ctx);
        PedersenCommitment { p, q, g, h, ctx }
    }

    /// Draws the parameters: a random prime `p` of at least `2 * security` bits,
    /// `q = 2p + 1`, a random `g` below `p - 1`, and `h = g^alpha mod p` for
    /// a random `alpha` below `p - 1`.
    pub fn new(security: i32) -> (r: Result<PedersenCommitment, CryptoError>)
        requires
            security <= i32::MAX / 2,
        ensures
            security <= 0 ==> r is Err,
            security > 0 && r is Err ==> r == Err::<Self, CryptoError>(CryptoError::OpenSsl),
            r matches Ok(s) ==> {
                &&& s.well_formed()
                &&& pow(2, (2 * security - 1) as nat) <= s.spec_p()
                &&& s.spec_p() > 1
                &&& is_prime(s.spec_p())
                &&& s.spec_q() == 2 * s.spec_p() + 1
                &&& s.spec_g() < s.spec_p() - 1
                &&& exists|alpha: nat|
                    alpha < s.spec_p() - 1 && s.spec_h() == pow(s.spec_g() as int, alpha) % (s.spec_p() as int)
            },
    {
        let ctx = new_context()?;
        if security <= 0 {
            return Err(CryptoError::InvalidArgument);
        }
        let p = generate_prime(2 * security, false)?;
        assert(p@ > 1) by {
            vstd::arithmetic::power::lemma_pow1(2);
            vstd::arithmetic::power::lemma_pow_increases(2, 1, (2 * security - 1) as nat);
        }
        let g = gen_random(&p)?;
        let alpha = gen_random(&p)?;
        let s = Self::from_parts(p, g, &alpha, ctx);
        assert(exists|a: nat|
            a < s.spec_p() - 1 && s.spec_h() == pow(s.spec_g() as int, a) % (s.spec_p() as int));
        Ok(s)
    }

    /// Whether `c` is the commitment to `x` with the sum of `args` as
    /// randomness.
    pub fn open(&mut self, c: &BigNat, x: u32, args: &[&BigNat]) -> (res: Result<bool, CryptoError>)
        requires
            old(self).well_formed(),
        ensures
            res matches Ok(b) && b == (c@ == pedersen(
                old(self).spec_g(),
                old(self).spec_h(),
                x as nat,
                sum_nats(ref_values(args@)),
                old(self).spec_q(),
            )),
            final(self).well_formed(),
            final(self).spec_p() == old(self).spec_p(),
            final(self).spec_q() == old(self).spec_q(),
            final(self).spec_g() == old(self).spec_g(),
            final(self).spec_h() == old(self).spec_h(),
    {
        let total = sum_refs(args);
        let res = self.helper(x, &total);
        Ok(res.equals(c))
    }

    /// The product of the commitments `cm` modulo `q`: a commitment to the
    /// sum of their messages (see `pedersen_products_commit_to_sums`).
    pub fn add(&mut self, cm: &[&BigNat]) -> (res: Result<BigNat, CryptoError>)
        requires
            old(self).well_formed(),
        ensures
            res matches Ok(c) && c@ == product_nats(ref_values(cm@)) % old(self).spec_q(),
            final(self).well_formed(),
            final(self).spec_p() == old(self).spec_p(),
            final(self).spec_q() == old(self).spec_q(),
            final(self).spec_g() == old(self).spec_g(),
            final(self).spec_h() == old(self).spec_h(),
    {
        let res = product_refs(cm);
        Ok(res.nnmod(&self.q, &mut self.ctx))
    }

    /// Commits to `x` with fresh randomness `r` drawn below `q - 1`; returns
    /// the commitment and `r`.
    pub fn commit(&mut self, x: u32) -> (res: Result<(BigNat, BigNat), CryptoError>)
        requires
            old(self).well_formed(),
        ensures
            res matches Ok((c, r)) && r@ < old(self).spec_q() - 1 && c@ == pedersen(
                old(self).spec_g(),
                old(self).spec_h(),
                x as nat,
                r@,
                old(self).spec_q(),
            ),
            final(self).well_formed(),
            final(self).spec_p() == old(self).spec_p(),
            final(self).spec_q() == old(self).spec_q(),
            final(self).spec_g() == old(self).spec_g(),
            final(self).spec_h() == old(self).spec_h(),
    {
        let r = gen_random(&self.q)?;
        let c = self.helper(x, &r);
        Ok((c, r))
    }

    /// The Pedersen commitment `g^x h^r mod q`.
    fn helper(&mut self, x: u32, r: &BigNat) -> (c: BigNat)
        requires
            old(self).well_formed(),
        ensures
            c@ == pedersen(old(self).spec_g(), old(self).spec_h(), x as nat, r@, old(self).spec_q()),
            final(self).well_formed(),
            final(self).spec_p() == old(self).spec_p(),
            final(self).spec_q() == old(self).spec_q(),
            final(self).spec_g() == old(self).spec_g(),
            final(self).spec_h() == old(self).spec_h(),
    {
        let x1 = BigNat::from_u32(x);
        let tmp3 = self.g.mod_exp(&x1, &self.q, &mut self.ctx);
        let tmp4 = self.h.mod_exp(r, &self.q, &mut self.ctx);
        let c = tmp3.mod_mul(&tmp4, &self.q, &mut self.ctx);
        proof {
            lemma_pedersen_reduced(self.g@, self.h@, x as nat, r@, self.q@);
        }
        c
    }
}

} // verus!

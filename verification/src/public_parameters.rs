//! Public parameters: a safe prime `p`, the prime `q = (p - 1) / 2`, and two
//! elements `g` and `h` of order dividing `q` modulo `p`, for Pedersen
//! commitments to numbers modulo `q`.
use crate::bignat::{describe_struct, struct_text, generate_prime, is_prime, new_context, BigNat, CryptoError};
use crate::utils::{calculate_q, get_generator};
use openssl::bn::BigNumContext;
use vstd::arithmetic::power::pow;
use vstd::prelude::*;

verus! {

/// The public parameters of a run.
pub struct PublicParams {
    pub num_shares: usize,
    pub p: BigNat,
    pub q: BigNat,
    pub g: BigNat,
    pub h: BigNat,
    pub ctx: BigNumContext,
}

impl PublicParams {
    /// The text that the `Display` impl writes: `Client { q: .. }`,
    /// each number in decimal.
    pub fn to_string(&self) -> (r: String)
        ensures
            r@ == struct_text("Client"@, seq![("q"@, self.q@)]),
    {
        let fields: Vec<(&str, &BigNat)> = vec![("q", &self.q)];
        let r = describe_struct("Client", &fields);
        assert(Seq::new(fields.len() as nat, |i: int| (fields[i].0@, fields[i].1@)) =~= seq![("q"@, self.q@)]);
        r
    }

    /// The parameters made from the prime `p` and the elements `g` and `h`:
    /// `q = (p - 1) / 2`.
    pub fn from_parts(num_shares: usize, p: BigNat, g: BigNat, h: BigNat, ctx: BigNumContext) -> (pp:
        PublicParams)
        requires
            p@ > 0,
        ensures
            pp.num_shares == num_shares,
            pp.p@ == p@,
            pp.q@ == (p@ - 1) / 2,
            pp.g@ == g@,
            pp.h@ == h@,
    {
        let q = calculate_q(&p).unwrap();
        PublicParams { num_shares, p, q, g, h, ctx }
    }

    /// Draws a random safe prime `p` of at least `2 * security` bits, sets
    /// `q = (p - 1) / 2`, and draws `g` and `h` below `q - 1` with
    /// `g^q = h^q = 1 (mod p)`.  A bit count that is not positive is refused;
    /// [`CryptoError::NoGenerator`] comes when the search for `g` or `h`
    /// gives up.
    pub fn new(security: i32, num_shares: usize) -> (r: Result<PublicParams, CryptoError>)
        requires
            security <= i32::MAX / 2,
        ensures
            security <= 0 ==> r is Err,
            r matches Err(e) ==> (e == CryptoError::InvalidArgument ==> security <= 0),
            r matches Ok(pp) ==> {
                &&& pp.num_shares == num_shares
                &&& pow(2, (2 * security - 1) as nat) <= pp.p@
                &&& is_prime(pp.p@)
                &&& is_prime(pp.q@)
                &&& pp.q@ == (pp.p@ - 1) / 2
                &&& pp.g@ < pp.q@ - 1
                &&& pow(pp.g@ as int, pp.q@) % (pp.p@ as int) == 1
                &&& pp.h@ < pp.q@ - 1
                &&& pow(pp.h@ as int, pp.q@) % (pp.p@ as int) == 1
            },
    {
        let mut ctx = new_context()?;
        if security <= 0 {
            return Err(CryptoError::InvalidArgument);
        }
        let p = generate_prime(2 * security, true)?;
        let q = calculate_q(&p).unwrap();
        let g = match get_generator(&p, &q, &mut ctx) {
            Some(g) => g,
            None => {
                return Err(CryptoError::NoGenerator);
            },
        };
        let h = match get_generator(&p, &q, &mut ctx) {
            Some(h) => h,
            None => {
                return Err(CryptoError::NoGenerator);
            },
        };
        Ok(Self::from_parts(num_shares, p, g, h, ctx))
    }
}

} // verus!

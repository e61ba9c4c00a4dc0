//! Pedersen commitments in the Ristretto group to 32-byte messages.
use crate::converters::le_value;
use crate::generic_commitments::pedersen_point;
use crate::ristretto::Point;
use crate::scalar::{group_order, Scalar};
use rand::rngs::StdRng;
use rand::{RngCore, SeedableRng};
use vstd::prelude::*;

verus! {

/// The first 32 bytes that `rand`'s `StdRng` writes when seeded with `seed`.
pub uninterp spec fn std_rng_first_bytes(seed: Seq<u8>) -> Seq<u8>;

/// `StdRng::from_seed` then `RngCore::fill_bytes` from the `rand` crate: the
/// first 32 bytes of the deterministic generator seeded with `seed`.  The
/// generator's algorithm is not written out; its output is the name
/// `std_rng_first_bytes`.
#[verifier::external_body]
fn std_rng_bytes(seed: [u8; 32]) -> (r: [u8; 32])
    ensures
        r@ == std_rng_first_bytes(seed@),
{
    let mut rng: StdRng = SeedableRng::from_seed(seed);
    let mut bytes = [0u8; 32];
    rng.fill_bytes(&mut bytes);
    bytes
}

/// Pedersen commitments with generators `g` and `h`.
#[derive(Clone, Copy)]
pub struct Commitment {
    g: Point,
    h: Point,
}

impl Commitment {
    /// The first generator.
    pub closed spec fn spec_g(&self) -> Point {
        self.g
    }

    /// The second generator.
    pub closed spec fn spec_h(&self) -> Point {
        self.h
    }

    /// The scheme with generators `g` and `h`.
    pub fn new(g: Point, h: Point) -> (r: Commitment)
        ensures
            r.spec_g() == g,
            r.spec_h() == h,
    {
        Commitment { g, h }
    }

    /// 32 bytes from the generator seeded with zeros: the same bytes on
    /// every call.
    pub fn get_random_byte_array(&self) -> (r: [u8; 32])
        ensures
            r@ == std_rng_first_bytes(Seq::new(32, |i: int| 0u8)),
    {
        let seed = [0u8; 32];
        assert(seed@ =~= Seq::new(32, |i: int| 0u8));
        std_rng_bytes(seed)
    }

    /// The commitment `m g + r h` to the message whose canonical encoding is
    /// `message`.
    pub fn commit(&self, message: &[u8; 32], r: Scalar) -> (c: Point)
        requires
            le_value(message@) < group_order(),
        ensures
            c@ == pedersen_point(self.spec_g()@, self.spec_h()@, le_value(message@), r@),
    {
        let message_copy: [u8; 32] = *message;
        let m = Scalar::from_canonical_bytes(message_copy).unwrap();
        let gm = self.g.mul(&m);
        let hr = self.h.mul(&r);
        gm.add(&hr)
    }

    /// Whether `com` is the commitment to `message` with randomness `r`.
    pub fn open(&self, com: Point, message: &[u8; 32], r: Scalar) -> (b: bool)
        requires
            le_value(message@) < group_order(),
        ensures
            b == (com@ == pedersen_point(self.spec_g()@, self.spec_h()@, le_value(message@), r@)),
    {
        self.commit(message, r).equals(&com)
    }

    /// The generators `(g, h)`.
    pub fn get_public_params(&self) -> (r: (Point, Point))
        ensures
            r.0 == self.spec_g(),
            r.1 == self.spec_h(),
    {
        (self.g, self.h)
    }
}

} // verus!

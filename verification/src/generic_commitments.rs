//! Pedersen commitments in the Ristretto group, and the Fiat-Shamir
//! OR-proofs that a commitment holds the bit 0 or the bit 1.
//!
//! A commitment to `m` with randomness `r` is `m g + r h`.  The proof that a
//! commitment `c` holds a bit is a Chaum-Pedersen OR-proof made
//! non-interactive: the challenge `e` is the SHA3-256 digest of the encodings
//! of `c`, `d0` and `d1`, read as a little-endian number modulo `ℓ`.  For the
//! true bit the prover answers honestly; for the other it simulates.
use crate::converters::le_value;
use crate::digest::{sha3_256, sha3_256_digest};
use crate::ristretto::{
    lemma_add_assoc, lemma_add_comm, lemma_closed, lemma_identity_and_inverse,
    lemma_identity_decodes, lemma_mul_add_scalars, lemma_mul_distributes, lemma_mul_mul,
    lemma_mul_zero_one, ristretto_add, ristretto_decodes, ristretto_group_laws, ristretto_identity,
    ristretto_mul, ristretto_neg, Point,
};
use crate::scalar::{group_order, Scalar};
use crate::sigma_ff::ProofScalar;
use vstd::prelude::*;

verus! {

/// A commitment scheme with messages and randomness of type `X` and
/// commitments of type `Y`.
pub trait Commitment<X, Y> {
    /// Fresh randomness for a commitment.
    fn sample_randomness(&self) -> X;

    /// The commitment to `message` with `randomness`.
    fn commit(&self, message: X, randomness: X) -> Y;

    /// Whether `com` is the commitment to `message` with `randomness`.
    fn open(&self, message: X, randomness: X, com: Y) -> bool;
}

/// A secret-sharing scheme on 32-byte messages.
pub trait SecretSharing {
    /// Splits `message` into `num_shares` shares.
    fn share(&self, message: &[u8; 32], num_shares: usize) -> Vec<[u8; 32]>;

    /// Puts the message back together from `num_shares` shares.
    fn reconstruct(&self, shares: &Vec<[u8; 32]>, num_shares: usize) -> [u8; 32];
}

/// The Pedersen commitment `m g + r h`, on encodings.
pub open spec fn pedersen_point(g: Seq<u8>, h: Seq<u8>, m: nat, r: nat) -> Seq<u8> {
    ristretto_add(ristretto_mul(m, g), ristretto_mul(r, h))
}

/// The Fiat-Shamir challenge for the commitment `com` and the first messages
/// `d0` and `d1`: the SHA3-256 digest of their encodings, one after the
/// other, read as a little-endian number modulo `ℓ`.
pub open spec fn curve_challenge(com: Seq<u8>, d0: Seq<u8>, d1: Seq<u8>) -> nat {
    le_value(sha3_256(com + d0 + d1)) % group_order()
}

/// `t` is an OR-proof made by a prover who knows that `t.com` commits to 0
/// with randomness `rand`: the branch for 1 is simulated from the chosen
/// `e1` and `v1`, and the branch for 0 answers the rest of the challenge
/// with some nonce `b`.
pub open spec fn is_proof_of_zero(g: Seq<u8>, h: Seq<u8>, rand: nat, t: ProofScalar<Scalar, Point>) -> bool {
    &&& t.com@ == pedersen_point(g, h, 0, rand)
    &&& t.d1@ == ristretto_add(
        ristretto_add(ristretto_mul(t.v1@, h), ristretto_neg(ristretto_mul(t.e1@, t.com@))),
        ristretto_mul(t.e1@, g),
    )
    &&& t.e@ == curve_challenge(t.com@, t.d0@, t.d1@)
    &&& t.e0@ == (t.e@ - t.e1@) % (group_order() as int)
    &&& exists|b: nat|
        b < group_order() && t.d0@ == ristretto_mul(b, h) && #[trigger] ((b + t.e0@ * rand)
            % group_order()) == t.v0@
}

/// `t` is an OR-proof made by a prover who knows that `t.com` commits to 1
/// with randomness `rand`: the branch for 0 is simulated from the chosen
/// `e0` and `v0`, and the branch for 1 answers the rest of the challenge
/// with some nonce `b`.
pub open spec fn is_proof_of_one(g: Seq<u8>, h: Seq<u8>, rand: nat, t: ProofScalar<Scalar, Point>) -> bool {
    &&& t.com@ == pedersen_point(g, h, 1, rand)
    &&& t.d0@ == ristretto_add(ristretto_mul(t.v0@, h), ristretto_neg(ristretto_mul(t.e0@, t.com@)))
    &&& t.e@ == curve_challenge(t.com@, t.d0@, t.d1@)
    &&& t.e1@ == (t.e@ - t.e0@) % (group_order() as int)
    &&& exists|b: nat|
        b < group_order() && t.d1@ == ristretto_mul(b, h) && #[trigger] ((b + t.e1@ * rand)
            % group_order()) == t.v1@
}

/// The checks of the board on the transcript `t` with generators `g` and
/// `h`: the challenge is the hash of the commitment and first messages, it
/// splits as `e = e1 + e0 (mod ℓ)`, and `d0 + e0 c = v0 h`,
/// `d1 + e1 c = e1 g + v1 h`.
pub open spec fn curve_transcript_holds(g: Seq<u8>, h: Seq<u8>, t: ProofScalar<Scalar, Point>) -> bool {
    &&& t.e@ == curve_challenge(t.com@, t.d0@, t.d1@)
    &&& t.e@ == (t.e1@ + t.e0@) % group_order()
    &&& ristretto_add(t.d0@, ristretto_mul(t.e0@, t.com@)) == ristretto_mul(t.v0@, h)
    &&& ristretto_add(t.d1@, ristretto_mul(t.e1@, t.com@)) == ristretto_add(
        ristretto_mul(t.e1@, g),
        ristretto_mul(t.v1@, h),
    )
}

/// `(b + (e r mod ℓ)) mod ℓ = (b + e r) mod ℓ`.
proof fn lemma_add_reduced_product(b: nat, e: nat, r: nat)
    ensures
        (b + (e * r) % group_order()) % group_order() == (b + e * r) % group_order(),
{
    vstd::arithmetic::div_mod::lemma_add_mod_noop(b as int, (e * r) as int, group_order() as int);
    vstd::arithmetic::div_mod::lemma_add_mod_noop(
        b as int,
        ((e * r) % group_order()) as int,
        group_order() as int,
    );
    vstd::arithmetic::div_mod::lemma_mod_twice((e * r) as int, group_order() as int);
}

/// `(x + y) + (z + w) = (x + z) + (y + w)` for points.
proof fn lemma_add_swap_middle(x: Seq<u8>, y: Seq<u8>, z: Seq<u8>, w: Seq<u8>)
    requires
        ristretto_group_laws(),
        ristretto_decodes(x),
        ristretto_decodes(y),
        ristretto_decodes(z),
        ristretto_decodes(w),
    ensures
        ristretto_add(ristretto_add(x, y), ristretto_add(z, w)) == ristretto_add(
            ristretto_add(x, z),
            ristretto_add(y, w),
        ),
{
    lemma_closed(0, x, y);
    lemma_closed(0, z, w);
    lemma_closed(0, y, z);
    lemma_closed(0, z, y);
    lemma_closed(0, y, w);
    lemma_add_assoc(x, y, ristretto_add(z, w));
    lemma_add_assoc(y, z, w);
    lemma_add_comm(y, z);
    lemma_add_assoc(z, y, w);
    lemma_add_assoc(x, z, ristretto_add(y, w));
}

/// Pedersen commitments add up: the sum of the commitments to `m1` and `m2`
/// with randomness `r1` and `r2` is the commitment to `m1 + m2` with
/// randomness `r1 + r2`, modulo `ℓ`.
pub proof fn pedersen_point_is_homomorphic(
    g: Seq<u8>,
    h: Seq<u8>,
    m1: nat,
    r1: nat,
    m2: nat,
    r2: nat,
)
    requires
        ristretto_group_laws(),
        ristretto_decodes(g),
        ristretto_decodes(h),
        m1 < group_order(),
        r1 < group_order(),
        m2 < group_order(),
        r2 < group_order(),
    ensures
        ristretto_add(pedersen_point(g, h, m1, r1), pedersen_point(g, h, m2, r2)) == pedersen_point(
            g,
            h,
            (m1 + m2) % group_order(),
            (r1 + r2) % group_order(),
        ),
{
    lemma_closed(m1, g, h);
    lemma_closed(m2, g, h);
    lemma_closed(r1, h, g);
    lemma_closed(r2, h, g);
    lemma_add_swap_middle(
        ristretto_mul(m1, g),
        ristretto_mul(r1, h),
        ristretto_mul(m2, g),
        ristretto_mul(r2, h),
    );
    lemma_mul_add_scalars(m1, m2, g);
    lemma_mul_add_scalars(r1, r2, h);
}

/// The commitment to 0 with randomness `r` is `r h`, and that to 1 is
/// `g + r h`.
proof fn lemma_commitments_to_bits(g: Seq<u8>, h: Seq<u8>, r: nat)
    requires
        ristretto_group_laws(),
        ristretto_decodes(g),
        ristretto_decodes(h),
        r < group_order(),
    ensures
        pedersen_point(g, h, 0, r) == ristretto_mul(r, h),
        pedersen_point(g, h, 1, r) == ristretto_add(g, ristretto_mul(r, h)),
{
    lemma_mul_zero_one(g);
    lemma_closed(r, h, g);
    lemma_identity_decodes();
    lemma_add_comm(ristretto_identity(), ristretto_mul(r, h));
    lemma_identity_and_inverse(ristretto_mul(r, h));
}

/// `(v + (-x)) + x = v` for points.
proof fn lemma_cancel(v: Seq<u8>, x: Seq<u8>)
    requires
        ristretto_group_laws(),
        ristretto_decodes(v),
        ristretto_decodes(x),
    ensures
        ristretto_add(ristretto_add(v, ristretto_neg(x)), x) == v,
{
    lemma_closed(0, x, v);
    lemma_add_assoc(v, ristretto_neg(x), x);
    lemma_add_comm(ristretto_neg(x), x);
    lemma_identity_and_inverse(x);
    lemma_identity_and_inverse(v);
}

/// An honest OR-proof passes the board: whether the commitment holds 0 or 1,
/// the transcript made by the prover who knows the bit and the randomness
/// passes all four checks of the board.
pub proof fn honest_proofs_are_accepted(
    g: Seq<u8>,
    h: Seq<u8>,
    rand: nat,
    t: ProofScalar<Scalar, Point>,
)
    requires
        ristretto_group_laws(),
        ristretto_decodes(g),
        ristretto_decodes(h),
        rand < group_order(),
        t.e@ < group_order(),
        t.e0@ < group_order(),
        t.e1@ < group_order(),
        t.v0@ < group_order(),
        t.v1@ < group_order(),
        is_proof_of_zero(g, h, rand, t) || is_proof_of_one(g, h, rand, t),
    ensures
        curve_transcript_holds(g, h, t),
{
    let l = group_order();
    let li = l as int;
    lemma_commitments_to_bits(g, h, rand);
    lemma_closed(rand, h, g);
    let rh = ristretto_mul(rand, h);
    if is_proof_of_zero(g, h, rand, t) {
        assert((t.e1@ + (t.e@ - t.e1@) % li) % li == t.e@) by {
            vstd::arithmetic::div_mod::lemma_add_mod_noop_right(t.e1@ as int, t.e@ - t.e1@, li);
            vstd::arithmetic::div_mod::lemma_small_mod(t.e@, l);
        }
        let b = choose|b: nat|
            b < l && t.d0@ == ristretto_mul(b, h) && #[trigger] ((b + t.e0@ * rand) % l) == t.v0@;
        // d0 + e0 c = b h + (e0 r) h = (b + e0 r) h = v0 h
        lemma_mul_mul(t.e0@, rand, h);
        lemma_mul_add_scalars(b, (t.e0@ * rand) % l, h);
        lemma_add_reduced_product(b, t.e0@, rand);
        // d1 + e1 c = ((v1 h - e1 c) + e1 g) + e1 c = e1 g + v1 h
        let x = ristretto_mul(t.e1@, t.com@);
        let v = ristretto_mul(t.v1@, h);
        let ge = ristretto_mul(t.e1@, g);
        lemma_closed(t.e1@, t.com@, g);
        lemma_closed(t.v1@, h, g);
        lemma_closed(t.e1@, g, h);
        lemma_closed(0, x, v);
        lemma_closed(0, v, ristretto_neg(x));
        lemma_add_assoc(ristretto_add(v, ristretto_neg(x)), ge, x);
        lemma_add_comm(ge, x);
        lemma_add_assoc(ristretto_add(v, ristretto_neg(x)), x, ge);
        lemma_cancel(v, x);
        lemma_add_comm(v, ge);
    } else {
        assert(((t.e@ - t.e0@) % li + t.e0@) % li == t.e@) by {
            vstd::arithmetic::div_mod::lemma_add_mod_noop(t.e@ - t.e0@, t.e0@ as int, li);
            vstd::arithmetic::div_mod::lemma_mod_twice(t.e0@ as int, li);
            vstd::arithmetic::div_mod::lemma_small_mod(t.e0@, l);
            vstd::arithmetic::div_mod::lemma_small_mod(t.e@, l);
        }
        let b = choose|b: nat|
            b < l && t.d1@ == ristretto_mul(b, h) && #[trigger] ((b + t.e1@ * rand) % l) == t.v1@;
        // d0 + e0 c = (v0 h - e0 c) + e0 c = v0 h
        let x = ristretto_mul(t.e0@, t.com@);
        lemma_closed(0, g, rh);
        lemma_closed(t.e0@, t.com@, g);
        lemma_closed(t.v0@, h, g);
        lemma_cancel(ristretto_mul(t.v0@, h), x);
        // d1 + e1 (g + r h) = b h + (e1 g + (e1 r) h) = e1 g + (b + e1 r) h
        let ge = ristretto_mul(t.e1@, g);
        let y = ristretto_mul((t.e1@ * rand) % l, h);
        let bh = ristretto_mul(b, h);
        lemma_mul_distributes(t.e1@, g, rh);
        lemma_mul_mul(t.e1@, rand, h);
        lemma_closed(t.e1@, g, h);
        lemma_closed((t.e1@ * rand) % l, h, g);
        lemma_closed(b, h, g);
        lemma_add_assoc(bh, ge, y);
        lemma_add_comm(bh, ge);
        lemma_add_assoc(ge, bh, y);
        lemma_mul_add_scalars(b, (t.e1@ * rand) % l, h);
        lemma_add_reduced_product(b, t.e1@, rand);
    }
}

/// The bytes of `a`, `b` and `c`, one after the other.
pub(crate) fn concat_encodings(a: &[u8; 32], b: &[u8; 32], c: &[u8; 32]) -> (r: Vec<u8>)
    ensures
        r@ == a@ + b@ + c@,
{
    let mut out: Vec<u8> = Vec::new();
    for i in 0..32
        invariant
            out@ == a@.subrange(0, i as int),
    {
        out.push(a[i]);
    }
    for i in 0..32
        invariant
            out@ == a@ + b@.subrange(0, i as int),
    {
        out.push(b[i]);
    }
    for i in 0..32
        invariant
            out@ == a@ + b@ + c@.subrange(0, i as int),
    {
        out.push(c[i]);
    }
    assert(a@.subrange(0, 32) =~= a@);
    assert(b@.subrange(0, 32) =~= b@);
    assert(c@.subrange(0, 32) =~= c@);
    out
}

/// Pedersen commitments in the Ristretto group with generators `g` and `h`.
pub struct CurveCommitment {
    pub g: Point,
    pub h: Point,
}

impl CurveCommitment {
    /// The scheme with generators `g` and `h`.
    pub fn new(g: Point, h: Point) -> (r: CurveCommitment)
        ensures
            r.g == g,
            r.h == h,
    {
        CurveCommitment { g, h }
    }

    /// The Fiat-Shamir challenge of the commitment `com` and the first
    /// messages `d0` and `d1`.
    pub fn challenge(com: &Point, d0: &Point, d1: &Point) -> (r: Scalar)
        ensures
            r@ == curve_challenge(com@, d0@, d1@),
    {
        let input_to_rom = concat_encodings(&com.to_bytes(), &d0.to_bytes(), &d1.to_bytes());
        let result = sha3_256_digest(&input_to_rom);
        Scalar::from_bytes_mod_order(result)
    }

    /// The OR-proof that the commitment to 0 with randomness `rand` holds a
    /// bit, with the simulated branch's response `v1` and challenge `e1` and
    /// the honest branch's nonce `b` given.
    pub fn create_proof_0_with(&self, rand: Scalar, v1: Scalar, e1: Scalar, b: Scalar) -> (t:
        ProofScalar<Scalar, Point>)
        ensures
            is_proof_of_zero(self.g@, self.h@, rand@, t),
            curve_transcript_holds(self.g@, self.h@, t),
            t.v1 == v1,
            t.e1 == e1,
            t.d0@ == ristretto_mul(b@, self.h@),
            t.v0@ == (b@ + t.e0@ * rand@) % group_order(),
    {
        let com = self.commit(Scalar::zero(), rand);
        // d1: simulated, h^{v1} c^{-e1} g^{e1}
        let ce1 = com.mul(&e1).neg();
        let ge1 = self.g.mul(&e1);
        let hv1 = self.h.mul(&v1);
        let d1 = hv1.add(&ce1).add(&ge1);
        // d0: honest, h^{b}
        let d0 = self.h.mul(&b);
        let e = Self::challenge(&com, &d0, &d1);
        let e0 = e.sub(&e1);
        let v0 = b.add(&e0.mul(&rand));
        proof {
            vstd::arithmetic::div_mod::lemma_add_mod_noop(
                b@ as int,
                (e0@ * rand@) as int,
                group_order() as int,
            );
            vstd::arithmetic::div_mod::lemma_mod_twice(b@ as int, group_order() as int);
            use_type_invariant(&b);
            vstd::arithmetic::div_mod::lemma_small_mod(b@, group_order());
        }
        let t = ProofScalar { com, e0, e1, e, v0, v1, d0, d1 };
        proof {
            use_type_invariant(&self.g);
            use_type_invariant(&self.h);
            use_type_invariant(&rand);
            use_type_invariant(&t.e);
            use_type_invariant(&t.e0);
            use_type_invariant(&t.e1);
            use_type_invariant(&t.v0);
            use_type_invariant(&t.v1);
        }
        assert(((b@ + t.e0@ * rand@) % group_order()) == t.v0@);
        proof {
            honest_proofs_are_accepted(self.g@, self.h@, rand@, t);
        }
        t
    }

    /// The OR-proof that the commitment to 0 with randomness `rand` holds a
    /// bit, with fresh random values for the simulated branch and the nonce.
    pub fn create_proof_0(&self, rand: Scalar) -> (t: ProofScalar<Scalar, Point>)
        ensures
            is_proof_of_zero(self.g@, self.h@, rand@, t),
            curve_transcript_holds(self.g@, self.h@, t),
    {
        let v1 = self.sample_randomness();
        let e1 = self.sample_randomness();
        let b = self.sample_randomness();
        proof {
            use_type_invariant(&b);
        }
        self.create_proof_0_with(rand, v1, e1, b)
    }

    /// The OR-proof that the commitment to 1 with randomness `rand` holds a
    /// bit, with the simulated branch's response `v0` and challenge `e0` and
    /// the honest branch's nonce `b` given.
    pub fn create_proof_1_with(&self, rand: Scalar, v0: Scalar, e0: Scalar, b: Scalar) -> (t:
        ProofScalar<Scalar, Point>)
        ensures
            is_proof_of_one(self.g@, self.h@, rand@, t),
            curve_transcript_holds(self.g@, self.h@, t),
            t.v0 == v0,
            t.e0 == e0,
            t.d1@ == ristretto_mul(b@, self.h@),
            t.v1@ == (b@ + t.e1@ * rand@) % group_order(),
    {
        let com = self.commit(Scalar::one(), rand);
        // d0: simulated, h^{v0} c^{-e0}
        let ce0 = com.mul(&e0).neg();
        let hv0 = self.h.mul(&v0);
        let d0 = hv0.add(&ce0);
        // d1: honest, h^{b}
        let d1 = self.h.mul(&b);
        let e = Self::challenge(&com, &d0, &d1);
        let e1 = e.sub(&e0);
        let v1 = b.add(&e1.mul(&rand));
        proof {
            vstd::arithmetic::div_mod::lemma_add_mod_noop(
                b@ as int,
                (e1@ * rand@) as int,
                group_order() as int,
            );
            vstd::arithmetic::div_mod::lemma_mod_twice(b@ as int, group_order() as int);
            use_type_invariant(&b);
            vstd::arithmetic::div_mod::lemma_small_mod(b@, group_order());
        }
        let t = ProofScalar { com, e0, e1, e, v0, v1, d0, d1 };
        proof {
            use_type_invariant(&self.g);
            use_type_invariant(&self.h);
            use_type_invariant(&rand);
            use_type_invariant(&t.e);
            use_type_invariant(&t.e0);
            use_type_invariant(&t.e1);
            use_type_invariant(&t.v0);
            use_type_invariant(&t.v1);
        }
        assert(((b@ + t.e1@ * rand@) % group_order()) == t.v1@);
        proof {
            honest_proofs_are_accepted(self.g@, self.h@, rand@, t);
        }
        t
    }

    /// The OR-proof that the commitment to 1 with randomness `rand` holds a
    /// bit, with fresh random values for the simulated branch and the nonce.
    pub fn create_proof_1(&self, rand: Scalar) -> (t: ProofScalar<Scalar, Point>)
        ensures
            is_proof_of_one(self.g@, self.h@, rand@, t),
            curve_transcript_holds(self.g@, self.h@, t),
    {
        let v0 = self.sample_randomness();
        let e0 = self.sample_randomness();
        let b = self.sample_randomness();
        proof {
            use_type_invariant(&b);
        }
        self.create_proof_1_with(rand, v0, e0, b)
    }
}

impl Commitment<Scalar, Point> for CurveCommitment {
    /// A random scalar.
    fn sample_randomness(&self) -> (r: Scalar) {
        Scalar::random()
    }

    /// `message g + randomness h`.
    fn commit(&self, message: Scalar, randomness: Scalar) -> (r: Point)
        ensures
            r@ == pedersen_point(self.g@, self.h@, message@, randomness@),
    {
        let gm = self.g.mul(&message);
        let hr = self.h.mul(&randomness);
        gm.add(&hr)
    }

    /// Whether `com` is `message g + randomness h`.
    fn open(&self, message: Scalar, randomness: Scalar, com: Point) -> (r: bool)
        ensures
            r == (com@ == pedersen_point(self.g@, self.h@, message@, randomness@)),
    {
        let c = self.commit(message, randomness);
        c.equals(&com)
    }
}

} // verus!

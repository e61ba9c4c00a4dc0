//! Points of the Ristretto group, the prime-order group built on
//! Curve25519.
//!
//! A [`Point`] holds the canonical 32-byte encoding of a group element (the
//! output of `RistrettoPoint::compress`); each element has exactly one such
//! encoding, so two points are equal when their bytes are.  The group
//! operations are done by `curve25519_dalek::ristretto::RistrettoPoint`; their
//! results are named below and not written out.  What the library relies on
//! is that the encodings that decode form a group of prime order `ℓ`, as the
//! `ristretto` module of curve25519-dalek documents: `ristretto_group_laws`
//! lists those laws, and the lemmas below hand them out one at a time.
use crate::converters::{bytes_equal, le_value};
use crate::scalar::{group_order, Scalar};
use curve25519_dalek::ristretto::{CompressedRistretto, RistrettoPoint};
use rand_core::OsRng;
use vstd::prelude::*;

verus! {

/// Whether `bytes` is the canonical encoding of a Ristretto point.
pub uninterp spec fn ristretto_decodes(bytes: Seq<u8>) -> bool;

/// The encoding of the sum of the points encoded by `a` and `b`.
pub uninterp spec fn ristretto_add(a: Seq<u8>, b: Seq<u8>) -> Seq<u8>;

/// The encoding of the inverse of the point encoded by `a`.
pub uninterp spec fn ristretto_neg(a: Seq<u8>) -> Seq<u8>;

/// The encoding of `s` times the point encoded by `p`.
pub uninterp spec fn ristretto_mul(s: nat, p: Seq<u8>) -> Seq<u8>;

/// The encoding of the identity of the group: 32 zero bytes
/// (`CompressedRistretto::identity`).
pub open spec fn ristretto_identity() -> Seq<u8> {
    Seq::new(32, |i: int| 0u8)
}

/// The laws of a group of prime order `ℓ` on the encodings that decode:
/// they are closed under the operations, addition is associative and
/// commutative with the identity as neutral element and negation as
/// inverse, and multiplication by scalars below `ℓ` is an action of the
/// integers modulo `ℓ` that distributes over addition.
pub closed spec fn ristretto_group_laws() -> bool {
    let l = group_order();
    &&& ristretto_decodes(ristretto_identity())
    &&& forall|x: Seq<u8>, y: Seq<u8>|
        ristretto_decodes(x) && ristretto_decodes(y) ==> #[trigger] ristretto_decodes(
            ristretto_add(x, y),
        )
    &&& forall|x: Seq<u8>| ristretto_decodes(x) ==> #[trigger] ristretto_decodes(ristretto_neg(x))
    &&& forall|s: nat, x: Seq<u8>|
        s < l && ristretto_decodes(x) ==> #[trigger] ristretto_decodes(ristretto_mul(s, x))
    &&& forall|x: Seq<u8>, y: Seq<u8>, z: Seq<u8>|
        ristretto_decodes(x) && ristretto_decodes(y) && ristretto_decodes(z) ==> #[trigger] ristretto_add(
            ristretto_add(x, y),
            z,
        ) == ristretto_add(x, ristretto_add(y, z))
    &&& forall|x: Seq<u8>, y: Seq<u8>|
        ristretto_decodes(x) && ristretto_decodes(y) ==> #[trigger] ristretto_add(x, y)
            == ristretto_add(y, x)
    &&& forall|x: Seq<u8>|
        ristretto_decodes(x) ==> #[trigger] ristretto_add(x, ristretto_identity()) == x
    &&& forall|x: Seq<u8>|
        ristretto_decodes(x) ==> #[trigger] ristretto_add(x, ristretto_neg(x))
            == ristretto_identity()
    &&& forall|x: Seq<u8>| ristretto_decodes(x) ==> #[trigger] ristretto_mul(0, x) == ristretto_identity()
    &&& forall|x: Seq<u8>| ristretto_decodes(x) ==> #[trigger] ristretto_mul(1, x) == x
    &&& forall|s: nat, t: nat, x: Seq<u8>|
        s < l && t < l && ristretto_decodes(x) ==> #[trigger] ristretto_add(
            ristretto_mul(s, x),
            ristretto_mul(t, x),
        ) == ristretto_mul((s + t) % l, x)
    &&& forall|s: nat, t: nat, x: Seq<u8>|
        s < l && t < l && ristretto_decodes(x) ==> #[trigger] ristretto_mul(s, ristretto_mul(t, x))
            == ristretto_mul((s * t) % l, x)
    &&& forall|s: nat, x: Seq<u8>, y: Seq<u8>|
        s < l && ristretto_decodes(x) && ristretto_decodes(y) ==> #[trigger] ristretto_mul(
            s,
            ristretto_add(x, y),
        ) == ristretto_add(ristretto_mul(s, x), ristretto_mul(s, y))
}

/// The identity is a point.
pub proof fn lemma_identity_decodes()
    requires
        ristretto_group_laws(),
    ensures
        ristretto_decodes(ristretto_identity()),
{
}

/// Sums, inverses and multiples of points are points.
pub proof fn lemma_closed(s: nat, x: Seq<u8>, y: Seq<u8>)
    requires
        ristretto_group_laws(),
        s < group_order(),
        ristretto_decodes(x),
        ristretto_decodes(y),
    ensures
        ristretto_decodes(ristretto_add(x, y)),
        ristretto_decodes(ristretto_neg(x)),
        ristretto_decodes(ristretto_mul(s, x)),
{
}

/// Addition is associative.
pub proof fn lemma_add_assoc(x: Seq<u8>, y: Seq<u8>, z: Seq<u8>)
    requires
        ristretto_group_laws(),
        ristretto_decodes(x),
        ristretto_decodes(y),
        ristretto_decodes(z),
    ensures
        ristretto_add(ristretto_add(x, y), z) == ristretto_add(x, ristretto_add(y, z)),
{
}

/// Addition is commutative.
pub proof fn lemma_add_comm(x: Seq<u8>, y: Seq<u8>)
    requires
        ristretto_group_laws(),
        ristretto_decodes(x),
        ristretto_decodes(y),
    ensures
        ristretto_add(x, y) == ristretto_add(y, x),
{
}

/// The identity is neutral and negation is the inverse.
pub proof fn lemma_identity_and_inverse(x: Seq<u8>)
    requires
        ristretto_group_laws(),
        ristretto_decodes(x),
    ensures
        ristretto_add(x, ristretto_identity()) == x,
        ristretto_add(x, ristretto_neg(x)) == ristretto_identity(),
{
}

/// Multiplying by 0 gives the identity and by 1 the point itself.
pub proof fn lemma_mul_zero_one(x: Seq<u8>)
    requires
        ristretto_group_laws(),
        ristretto_decodes(x),
    ensures
        ristretto_mul(0, x) == ristretto_identity(),
        ristretto_mul(1, x) == x,
{
}

/// Multiples of one point add as their scalars do, modulo `ℓ`.
pub proof fn lemma_mul_add_scalars(s: nat, t: nat, x: Seq<u8>)
    requires
        ristretto_group_laws(),
        s < group_order(),
        t < group_order(),
        ristretto_decodes(x),
    ensures
        ristretto_add(ristretto_mul(s, x), ristretto_mul(t, x)) == ristretto_mul(
            (s + t) % group_order(),
            x,
        ),
{
}

/// A multiple of a multiple is a multiple by the product, modulo `ℓ`.
pub proof fn lemma_mul_mul(s: nat, t: nat, x: Seq<u8>)
    requires
        ristretto_group_laws(),
        s < group_order(),
        t < group_order(),
        ristretto_decodes(x),
    ensures
        ristretto_mul(s, ristretto_mul(t, x)) == ristretto_mul((s * t) % group_order(), x),
{
}

/// Multiplication by a scalar distributes over addition of points.
pub proof fn lemma_mul_distributes(s: nat, x: Seq<u8>, y: Seq<u8>)
    requires
        ristretto_group_laws(),
        s < group_order(),
        ristretto_decodes(x),
        ristretto_decodes(y),
    ensures
        ristretto_mul(s, ristretto_add(x, y)) == ristretto_add(ristretto_mul(s, x), ristretto_mul(s, y)),
{
}

/// An element of the Ristretto group, by its canonical encoding.
#[derive(Clone, Copy, Debug)]
pub struct Point {
    bytes: [u8; 32],
}

impl View for Point {
    type V = Seq<u8>;

    closed spec fn view(&self) -> Seq<u8> {
        self.bytes@
    }
}

impl Point {
    /// The stored bytes encode a point of the group.
    #[verifier::type_invariant]
    pub open spec fn decodes(self) -> bool {
        ristretto_decodes(self@) && ristretto_group_laws()
    }
}

/// `CompressedRistretto::decompress`: whether `bytes` decodes to a point.
/// When one does, the encodings that decode form the Ristretto group, whose
/// laws (a group of prime order `ℓ`) the `ristretto` module documents.
#[verifier::external_body]
fn dalek_decodes(bytes: [u8; 32]) -> (r: bool)
    ensures
        r == ristretto_decodes(bytes@),
        r ==> ristretto_group_laws(),
{
    CompressedRistretto(bytes).decompress().is_some()
}

/// `Add for &RistrettoPoint`, then `compress`: the encoding of `a + b`.
#[verifier::external_body]
fn dalek_point_add(a: &Point, b: &Point) -> (r: Point)
    requires
        ristretto_decodes(a@),
        ristretto_decodes(b@),
    ensures
        r@ == ristretto_add(a@, b@),
        ristretto_decodes(r@),
{
    let x = CompressedRistretto(a.bytes).decompress().unwrap();
    let y = CompressedRistretto(b.bytes).decompress().unwrap();
    Point { bytes: (&x + &y).compress().to_bytes() }
}

/// `Neg for &RistrettoPoint`, then `compress`: the encoding of `-a`.
#[verifier::external_body]
fn dalek_point_neg(a: &Point) -> (r: Point)
    requires
        ristretto_decodes(a@),
    ensures
        r@ == ristretto_neg(a@),
        ristretto_decodes(r@),
{
    let x = CompressedRistretto(a.bytes).decompress().unwrap();
    Point { bytes: (-&x).compress().to_bytes() }
}

/// `Mul<&Scalar> for &RistrettoPoint`, then `compress`: the encoding of
/// `s * p`, where `s` is the scalar with canonical encoding `s_bytes`.
#[verifier::external_body]
fn dalek_point_mul(p: &Point, s_bytes: [u8; 32]) -> (r: Point)
    requires
        ristretto_decodes(p@),
        le_value(s_bytes@) < group_order(),
    ensures
        r@ == ristretto_mul(le_value(s_bytes@), p@),
        ristretto_decodes(r@),
{
    let x = CompressedRistretto(p.bytes).decompress().unwrap();
    let k = curve25519_dalek::scalar::Scalar::from_canonical_bytes(s_bytes).unwrap();
    Point { bytes: (&x * &k).compress().to_bytes() }
}

/// `RistrettoPoint::random` with the operating system's generator
/// (`OsRng`), then `compress`: a random point.  Which one comes back is
/// chance: the contract states only that it is a point of the group.
#[verifier::external_body]
fn dalek_point_random() -> (r: Point)
    ensures
        ristretto_decodes(r@),
        ristretto_decodes(r@) ==> ristretto_group_laws(),
{
    let mut csprng = OsRng;
    Point { bytes: RistrettoPoint::random(&mut csprng).compress().to_bytes() }
}

impl Point {
    /// The point encoded by `bytes`, if they are the canonical encoding of a
    /// point.
    pub fn from_bytes(bytes: [u8; 32]) -> (r: Option<Point>)
        ensures
            r is Some <==> ristretto_decodes(bytes@),
            r matches Some(p) ==> p@ == bytes@,
    {
        if dalek_decodes(bytes) {
            Some(Point { bytes })
        } else {
            None
        }
    }

    /// The canonical encoding of this point.
    pub fn to_bytes(&self) -> (r: [u8; 32])
        ensures
            r@ == self@,
    {
        self.bytes
    }

    /// A random point.
    pub fn random() -> (r: Point)
        ensures
            ristretto_decodes(r@),
    {
        dalek_point_random()
    }

    /// The sum `self + other`.
    pub fn add(&self, other: &Point) -> (r: Point)
        ensures
            r@ == ristretto_add(self@, other@),
    {
        proof {
            use_type_invariant(self);
            use_type_invariant(other);
        }
        dalek_point_add(self, other)
    }

    /// The inverse `-self`.
    pub fn neg(&self) -> (r: Point)
        ensures
            r@ == ristretto_neg(self@),
    {
        proof {
            use_type_invariant(self);
        }
        dalek_point_neg(self)
    }

    /// The multiple `s * self`.
    pub fn mul(&self, s: &Scalar) -> (r: Point)
        ensures
            r@ == ristretto_mul(s@, self@),
    {
        proof {
            use_type_invariant(self);
            use_type_invariant(s);
        }
        dalek_point_mul(self, s.to_bytes())
    }

    /// Whether the two points are equal.
    pub fn equals(&self, other: &Point) -> (r: bool)
        ensures
            r == (self@ == other@),
    {
        bytes_equal(&self.bytes, &other.bytes)
    }
}

} // verus!

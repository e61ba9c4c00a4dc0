//! Scalars: the integers modulo the order `ℓ` of the Ristretto group.
//!
//! A [`Scalar`] holds the canonical 32-byte little-endian encoding of its
//! value, which is below `ℓ`; its view is that value.  The arithmetic is done
//! by `curve25519_dalek::scalar::Scalar`, whose operations reduce modulo `ℓ`.
use crate::converters::{bytes_equal, lemma_le_value_injective, le_value};
use curve25519_dalek::scalar::Scalar as DalekScalar;
use rand_core::OsRng;
use vstd::prelude::*;

verus! {

/// The order `ℓ = 2^252 + 27742317777372353535851937790883648493` of the
/// Ristretto group.
pub open spec fn group_order() -> nat {
    7237005577332262213973186563042994240857116359379907606001950938285454250989nat
}

/// An integer modulo `ℓ`, stored canonically.
#[derive(Clone, Copy, Debug)]
pub struct Scalar {
    bytes: [u8; 32],
}

impl View for Scalar {
    type V = nat;

    closed spec fn view(&self) -> nat {
        le_value(self.bytes@)
    }
}

impl Scalar {
    /// The stored encoding is canonical: its value is below `ℓ`.
    #[verifier::type_invariant]
    pub open spec fn canonical(self) -> bool {
        self@ < group_order()
    }
}

/// `Scalar::from_bytes_mod_order`: the little-endian number `bytes` reduced
/// modulo `ℓ`.
#[verifier::external_body]
fn dalek_from_bytes_mod_order(bytes: [u8; 32]) -> (r: Scalar)
    ensures
        r@ == le_value(bytes@) % group_order(),
{
    Scalar { bytes: DalekScalar::from_bytes_mod_order(bytes).to_bytes() }
}

/// `Scalar::from_canonical_bytes`: the scalar encoded by `bytes`, if their
/// little-endian value is below `ℓ` (the canonical encodings).
#[verifier::external_body]
fn dalek_from_canonical_bytes(bytes: [u8; 32]) -> (r: Option<Scalar>)
    ensures
        r is Some <==> le_value(bytes@) < group_order(),
        r matches Some(s) ==> s@ == le_value(bytes@),
{
    match DalekScalar::from_canonical_bytes(bytes) {
        Some(s) => Some(Scalar { bytes: s.to_bytes() }),
        None => None,
    }
}

/// `Add for &Scalar`: `a + b` modulo `ℓ`.
#[verifier::external_body]
fn dalek_add(a: &Scalar, b: &Scalar) -> (r: Scalar)
    requires
        a@ < group_order(),
        b@ < group_order(),
    ensures
        r@ == (a@ + b@) % group_order(),
{
    let x = DalekScalar::from_canonical_bytes(a.bytes).unwrap();
    let y = DalekScalar::from_canonical_bytes(b.bytes).unwrap();
    Scalar { bytes: (&x + &y).to_bytes() }
}

/// `Sub for &Scalar`: `a - b` modulo `ℓ`.
#[verifier::external_body]
fn dalek_sub(a: &Scalar, b: &Scalar) -> (r: Scalar)
    requires
        a@ < group_order(),
        b@ < group_order(),
    ensures
        r@ == (a@ - b@) % (group_order() as int),
{
    let x = DalekScalar::from_canonical_bytes(a.bytes).unwrap();
    let y = DalekScalar::from_canonical_bytes(b.bytes).unwrap();
    Scalar { bytes: (&x - &y).to_bytes() }
}

/// `Mul for &Scalar`: `a * b` modulo `ℓ`.
#[verifier::external_body]
fn dalek_mul(a: &Scalar, b: &Scalar) -> (r: Scalar)
    requires
        a@ < group_order(),
        b@ < group_order(),
    ensures
        r@ == (a@ * b@) % group_order(),
{
    let x = DalekScalar::from_canonical_bytes(a.bytes).unwrap();
    let y = DalekScalar::from_canonical_bytes(b.bytes).unwrap();
    Scalar { bytes: (&x * &y).to_bytes() }
}

/// `Neg for &Scalar`: `-a` modulo `ℓ`.
#[verifier::external_body]
fn dalek_neg(a: &Scalar) -> (r: Scalar)
    requires
        a@ < group_order(),
    ensures
        r@ == (0 - a@) % (group_order() as int),
{
    let x = DalekScalar::from_canonical_bytes(a.bytes).unwrap();
    Scalar { bytes: (-&x).to_bytes() }
}

/// `Scalar::zero`: the scalar 0.
#[verifier::external_body]
fn dalek_zero() -> (r: Scalar)
    ensures
        r@ == 0,
{
    Scalar { bytes: DalekScalar::zero().to_bytes() }
}

/// `Scalar::one`: the scalar 1.
#[verifier::external_body]
fn dalek_one() -> (r: Scalar)
    ensures
        r@ == 1,
{
    Scalar { bytes: DalekScalar::one().to_bytes() }
}

/// `Scalar::random` with the operating system's generator (`OsRng`): a
/// random scalar.  Which one comes back is chance: the contract states only
/// that it is reduced.
#[verifier::external_body]
fn dalek_random() -> (r: Scalar)
    ensures
        r@ < group_order(),
{
    let mut csprng = OsRng;
    Scalar { bytes: DalekScalar::random(&mut csprng).to_bytes() }
}

impl Scalar {
    /// The scalar 0.
    pub fn zero() -> (r: Scalar)
        ensures
            r@ == 0,
    {
        dalek_zero()
    }

    /// The scalar 1.
    pub fn one() -> (r: Scalar)
        ensures
            r@ == 1,
    {
        dalek_one()
    }

    /// A random scalar.
    pub fn random() -> (r: Scalar)
        ensures
            r@ < group_order(),
    {
        dalek_random()
    }

    /// The little-endian number `bytes`, reduced modulo `ℓ`.
    pub fn from_bytes_mod_order(bytes: [u8; 32]) -> (r: Scalar)
        ensures
            r@ == le_value(bytes@) % group_order(),
    {
        dalek_from_bytes_mod_order(bytes)
    }

    /// The scalar whose canonical encoding is `bytes`; `None` when their
    /// little-endian value is `ℓ` or more.
    pub fn from_canonical_bytes(bytes: [u8; 32]) -> (r: Option<Scalar>)
        ensures
            r is Some <==> le_value(bytes@) < group_order(),
            r matches Some(s) ==> s@ == le_value(bytes@),
    {
        dalek_from_canonical_bytes(bytes)
    }

    /// The canonical little-endian encoding of this scalar.
    pub fn to_bytes(&self) -> (r: [u8; 32])
        ensures
            le_value(r@) == self@,
    {
        self.bytes
    }

    /// `self + other` modulo `ℓ`.
    pub fn add(&self, other: &Scalar) -> (r: Scalar)
        ensures
            r@ == (self@ + other@) % group_order(),
    {
        proof {
            use_type_invariant(self);
            use_type_invariant(other);
        }
        dalek_add(self, other)
    }

    /// `self - other` modulo `ℓ`.
    pub fn sub(&self, other: &Scalar) -> (r: Scalar)
        ensures
            r@ == (self@ - other@) % (group_order() as int),
    {
        proof {
            use_type_invariant(self);
            use_type_invariant(other);
        }
        dalek_sub(self, other)
    }

    /// `self * other` modulo `ℓ`.
    pub fn mul(&self, other: &Scalar) -> (r: Scalar)
        ensures
            r@ == (self@ * other@) % group_order(),
    {
        proof {
            use_type_invariant(self);
            use_type_invariant(other);
        }
        dalek_mul(self, other)
    }

    /// `-self` modulo `ℓ`.
    pub fn neg(&self) -> (r: Scalar)
        ensures
            r@ == (0 - self@) % (group_order() as int),
    {
        proof {
            use_type_invariant(self);
        }
        dalek_neg(self)
    }

    /// Whether the two scalars are equal.
    pub fn equals(&self, other: &Scalar) -> (r: bool)
        ensures
            r == (self@ == other@),
    {
        let r = bytes_equal(&self.bytes, &other.bytes);
        proof {
            if self@ == other@ {
                lemma_le_value_injective(self.bytes@, other.bytes@);
            }
        }
        r
    }
}

} // verus!

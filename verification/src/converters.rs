//! Conversions between integers, byte arrays and scalars.
use crate::bignat::{minimal_be, BigNat};
use crate::scalar::{group_order, Scalar};
use vstd::prelude::*;

verus! {

/// The natural number whose little-endian base-256 digits are `s`.
pub open spec fn le_value(s: Seq<u8>) -> nat
    decreases s.len(),
{
    if s.len() == 0 {
        0
    } else {
        (s[0] as nat) + 256 * le_value(s.drop_first())
    }
}

/// Two byte strings of the same length with the same value are equal.
pub proof fn lemma_le_value_injective(a: Seq<u8>, b: Seq<u8>)
    requires
        a.len() == b.len(),
        le_value(a) == le_value(b),
    ensures
        a == b,
    decreases a.len(),
{
    if a.len() > 0 {
        let ra = le_value(a.drop_first());
        let rb = le_value(b.drop_first());
        assert(a[0] as int == b[0] as int && ra == rb) by (nonlinear_arith)
            requires
                (a[0] as int) + 256 * ra == (b[0] as int) + 256 * rb,
                0 <= a[0] < 256,
                0 <= b[0] < 256,
                ra >= 0,
                rb >= 0,
        ;
        lemma_le_value_injective(a.drop_first(), b.drop_first());
        assert(a =~= b) by {
            assert forall|i: int| 0 <= i < a.len() implies a[i] == b[i] by {
                if i > 0 {
                    assert(a[i] == a.drop_first()[i - 1]);
                    assert(b[i] == b.drop_first()[i - 1]);
                }
            }
        }
    } else {
        assert(a =~= b);
    }
}

/// The 32-byte little-endian encoding of `x`: its four bytes, least
/// significant first, then zeros.
pub open spec fn u32_le_bytes(x: u32) -> Seq<u8> {
    seq![
        (x % 256) as u8,
        ((x / 256) % 256) as u8,
        ((x / 65536) % 256) as u8,
        (x / 16777216) as u8,
    ] + Seq::new(28, |i: int| 0u8)
}

/// A sequence of zero bytes has the value zero.
pub proof fn lemma_le_value_zeros(s: Seq<u8>)
    requires
        forall|i: int| 0 <= i < s.len() ==> s[i] == 0,
    ensures
        le_value(s) == 0,
    decreases s.len(),
{
    if s.len() > 0 {
        lemma_le_value_zeros(s.drop_first());
    }
}

/// The value of a sequence is that of its first four bytes when the rest are
/// zero.
pub proof fn lemma_le_value_four(s: Seq<u8>)
    requires
        s.len() >= 4,
        forall|i: int| 4 <= i < s.len() ==> s[i] == 0,
    ensures
        le_value(s) == s[0] + 256 * s[1] + 65536 * s[2] + 16777216 * s[3],
        le_value(s.subrange(0, 4)) == le_value(s),
{
    let t = s.drop_first().drop_first().drop_first().drop_first();
    assert(t =~= s.subrange(4, s.len() as int));
    lemma_le_value_zeros(t);
    let u = s.subrange(0, 4);
    reveal_with_fuel(le_value, 5);
    assert(u.drop_first().drop_first().drop_first().drop_first().len() == 0);
    assert(le_value(u.drop_first().drop_first().drop_first().drop_first()) == 0);
    assert(u.drop_first()[0] == s[1]);
    assert(u.drop_first().drop_first()[0] == s[2]);
    assert(u.drop_first().drop_first().drop_first()[0] == s[3]);
    assert(s.drop_first()[0] == s[1]);
    assert(s.drop_first().drop_first()[0] == s[2]);
    assert(s.drop_first().drop_first().drop_first()[0] == s[3]);
}

/// Reading back the first four bytes of the encoding of `x` gives `x`.
pub proof fn u32_encoding_round_trip(x: u32)
    ensures
        le_value(u32_le_bytes(x).subrange(0, 4)) == x,
        le_value(u32_le_bytes(x)) == x,
{
    let s = u32_le_bytes(x);
    assert(s.len() == 32);
    assert forall|i: int| 4 <= i < s.len() implies s[i] == 0 by {}
    lemma_le_value_four(s);
    assert(x == (x % 256) + 256 * ((x / 256) % 256) + 65536 * ((x / 65536) % 256) + 16777216 * (x
        / 16777216)) by (nonlinear_arith);
}

/// Whether two 32-byte arrays hold the same bytes.
pub fn bytes_equal(a: &[u8; 32], b: &[u8; 32]) -> (r: bool)
    ensures
        r == (a@ == b@),
{
    let mut i: usize = 0;
    while i < 32
        invariant
            i <= 32,
            forall|k: int| 0 <= k < i ==> a@[k] == b@[k],
        decreases 32 - i,
    {
        if a[i] != b[i] {
            return false;
        }
        i = i + 1;
    }
    assert(a@ =~= b@);
    true
}

/// The 32-byte little-endian encoding of `x`.
pub fn u32_to_bytes(x: u32) -> (r: [u8; 32])
    ensures
        r@ == u32_le_bytes(x),
        le_value(r@) == x,
{
    let b1: u8 = ((x >> 24) & 0xff) as u8;
    let b2: u8 = ((x >> 16) & 0xff) as u8;
    let b3: u8 = ((x >> 8) & 0xff) as u8;
    let b4: u8 = (x & 0xff) as u8;
    assert(b1 == (x / 16777216) as u8) by (bit_vector)
        requires
            b1 == ((x >> 24) & 0xff) as u8,
    ;
    assert(b2 == ((x / 65536) % 256) as u8) by (bit_vector)
        requires
            b2 == ((x >> 16) & 0xff) as u8,
    ;
    assert(b3 == ((x / 256) % 256) as u8) by (bit_vector)
        requires
            b3 == ((x >> 8) & 0xff) as u8,
    ;
    assert(b4 == (x % 256) as u8) by (bit_vector)
        requires
            b4 == (x & 0xff) as u8,
    ;
    let ans: [u8; 32] = [
        b4, b3, b2, b1, 0, 0, 0, 0, 0, 0, 0, 0, 0, 0, 0, 0,
        0, 0, 0, 0, 0, 0, 0, 0, 0, 0, 0, 0, 0, 0, 0, 0,
    ];
    assert(ans@ =~= u32_le_bytes(x));
    proof {
        u32_encoding_round_trip(x);
    }
    ans
}

/// The number held in the first four bytes of `array`, least significant
/// first.
pub fn as_u32_le(array: &[u8; 32]) -> (r: u32)
    ensures
        r == le_value(array@.subrange(0, 4)),
        r == array@[0] + 256 * array@[1] + 65536 * array@[2] + 16777216 * array@[3],
{
    let a0: u32 = array[0] as u32;
    let a1: u32 = array[1] as u32;
    let a2: u32 = array[2] as u32;
    let a3: u32 = array[3] as u32;
    assert(a1 << 8 == a1 * 256) by (bit_vector)
        requires
            a1 < 256,
    ;
    assert(a2 << 16 == a2 * 65536) by (bit_vector)
        requires
            a2 < 256,
    ;
    assert(a3 << 24 == a3 * 16777216) by (bit_vector)
        requires
            a3 < 256,
    ;
    assert(a0 << 0 == a0) by (bit_vector);
    let r = (a0 << 0) + (a1 << 8) + (a2 << 16) + (a3 << 24);
    proof {
        reveal_with_fuel(le_value, 5);
        let u = array@.subrange(0, 4);
        assert(u.drop_first().drop_first().drop_first().drop_first().len() == 0);
        assert(u.drop_first()[0] == array@[1]);
        assert(u.drop_first().drop_first()[0] == array@[2]);
        assert(u.drop_first().drop_first().drop_first()[0] == array@[3]);
    }
    r
}

/// The shortest big-endian bytes of `x`, at the start of a 32-byte array
/// filled up with zeros.
pub fn bignum_to_bytes(x: BigNat) -> (r: [u8; 32])
    requires
        minimal_be(x@).len() <= 32,
    ensures
        r@ == minimal_be(x@) + Seq::new((32 - minimal_be(x@).len()) as nat, |i: int| 0u8),
{
    let mut tmp: [u8; 32] = [0u8; 32];
    let bytes = x.to_vec();
    for i in 0..bytes.len()
        invariant
            bytes@ == minimal_be(x@),
            bytes.len() <= 32,
            forall|k: int| 0 <= k < i ==> tmp@[k] == bytes@[k],
            forall|k: int| i <= k < 32 ==> tmp@[k] == 0,
    {
        tmp.set(i, bytes[i]);
    }
    assert(tmp@ =~= minimal_be(x@) + Seq::new((32 - minimal_be(x@).len()) as nat, |i: int| 0u8));
    tmp
}

/// The sum modulo `ℓ` of the scalars whose canonical encodings are `a` and
/// `b`.
pub fn add_byte_arrays(a: &[u8; 32], b: &[u8; 32]) -> (r: Scalar)
    requires
        le_value(a@) < group_order(),
        le_value(b@) < group_order(),
    ensures
        r@ == (le_value(a@) + le_value(b@)) % group_order(),
{
    let _a = *a;
    let _b = *b;
    let x = Scalar::from_canonical_bytes(_a).unwrap();
    let y = Scalar::from_canonical_bytes(_b).unwrap();
    x.add(&y)
}

} // verus!

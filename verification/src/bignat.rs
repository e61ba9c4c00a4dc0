//! Arbitrary-precision natural numbers.
//!
//! A [`BigNat`] holds the big-endian bytes of a natural number, the same
//! encoding that `openssl::bn::BigNum::from_slice` reads and
//! `BigNum::to_vec` writes.  Its view is the number itself.  All arithmetic is
//! done by OpenSSL's `BIGNUM` routines; the functions below state what each
//! routine computes on the numbers.
//!
//! OpenSSL reports an error from the arithmetic routines used here only on
//! inputs that the `requires` clauses rule out (a zero modulus, an empty
//! range) or when it cannot allocate memory.  The trusted wrappers treat an
//! allocation failure like one of `Vec`: the program stops.
use openssl::bn::{BigNum, BigNumContext};
use openssl::error::ErrorStack;
use vstd::arithmetic::power::pow;
use vstd::prelude::*;

verus! {

/// OpenSSL's scratch space for `BIGNUM` computations; it is only handed
/// through to OpenSSL.
#[verifier::external_type_specification]
#[verifier::external_body]
pub struct ExBigNumContext(BigNumContext);

/// The error type of OpenSSL.
#[verifier::external_type_specification]
#[verifier::external_body]
pub struct ExErrorStack(ErrorStack);

/// Errors of the library.
#[derive(Debug, PartialEq, Eq)]
pub enum CryptoError {
    /// OpenSSL reported a failure.
    OpenSsl,
    /// An argument lies outside the range the operation accepts.
    InvalidArgument,
    /// No element of the wanted order turned up within the bound on random
    /// draws.
    NoGenerator,
}

/// The natural number whose big-endian base-256 digits are `s`.
pub open spec fn be_value(s: Seq<u8>) -> nat
    decreases s.len(),
{
    if s.len() == 0 {
        0
    } else {
        be_value(s.drop_last()) * 256 + (s.last() as nat)
    }
}

/// The shortest big-endian base-256 digits of `n`: none for zero, else no
/// leading zero byte.
pub open spec fn minimal_be(n: nat) -> Seq<u8>
    decreases n,
{
    if n == 0 {
        Seq::empty()
    } else {
        minimal_be(n / 256).push((n % 256) as u8)
    }
}

/// `p` is a prime.
pub open spec fn is_prime(p: nat) -> bool {
    p > 1 && forall|d: nat| 1 < d < p ==> #[trigger] (p % d) != 0
}

/// The decimal digits of `n`, most significant first, with no leading zero
/// (`"0"` for zero).
pub open spec fn decimal(n: nat) -> Seq<char>
    decreases n,
{
    let digit = seq!['0', '1', '2', '3', '4', '5', '6', '7', '8', '9'][(n % 10) as int];
    if n < 10 {
        seq![digit]
    } else {
        decimal(n / 10).push(digit)
    }
}

/// The fields `name: value` of `fields`, separated by `", "`, each value in
/// decimal.
pub open spec fn field_list(fields: Seq<(Seq<char>, nat)>) -> Seq<char>
    decreases fields.len(),
{
    if fields.len() == 0 {
        Seq::empty()
    } else if fields.len() == 1 {
        fields[0].0 + ": "@ + decimal(fields[0].1)
    } else {
        field_list(fields.drop_last()) + ", "@ + fields.last().0 + ": "@ + decimal(fields.last().1)
    }
}

/// The text `name { field: value, ... }` that Rust's `debug_struct` writes for
/// a structure with the given fields.
pub open spec fn struct_text(name: Seq<char>, fields: Seq<(Seq<char>, nat)>) -> Seq<char> {
    name + " { "@ + field_list(fields) + " }"@
}

/// A natural number of any size, stored as big-endian bytes.
#[derive(Debug)]
pub struct BigNat {
    bytes: Vec<u8>,
}

impl View for BigNat {
    type V = nat;

    closed spec fn view(&self) -> nat {
        be_value(self.bytes@)
    }
}

/// `BigNum::from_u32`: the number `x`.
#[verifier::external_body]
fn bn_from_u32(x: u32) -> (r: BigNat)
    ensures
        r@ == x,
{
    BigNat { bytes: BigNum::from_u32(x).unwrap().to_vec() }
}

/// `BigNumRef::checked_add`: `a + b`.
#[verifier::external_body]
fn bn_add(a: &BigNat, b: &BigNat) -> (r: BigNat)
    ensures
        r@ == a@ + b@,
{
    let mut r = BigNum::new().unwrap();
    r.checked_add(&BigNum::from_slice(&a.bytes).unwrap(), &BigNum::from_slice(&b.bytes).unwrap())
        .unwrap();
    BigNat { bytes: r.to_vec() }
}

/// `BigNumRef::checked_sub`: `a - b`, for `b <= a`.
#[verifier::external_body]
fn bn_sub(a: &BigNat, b: &BigNat) -> (r: BigNat)
    requires
        b@ <= a@,
    ensures
        r@ == a@ - b@,
{
    let mut r = BigNum::new().unwrap();
    r.checked_sub(&BigNum::from_slice(&a.bytes).unwrap(), &BigNum::from_slice(&b.bytes).unwrap())
        .unwrap();
    BigNat { bytes: r.to_vec() }
}

/// `Mul for &BigNum` (`BN_mul`): `a * b`.
#[verifier::external_body]
fn bn_mul(a: &BigNat, b: &BigNat) -> (r: BigNat)
    ensures
        r@ == a@ * b@,
{
    let r = &BigNum::from_slice(&a.bytes).unwrap() * &BigNum::from_slice(&b.bytes).unwrap();
    BigNat { bytes: r.to_vec() }
}

/// `Div for &BigNum` (`BN_div`): the quotient `a / b`, for `b > 0`.
#[verifier::external_body]
fn bn_div(a: &BigNat, b: &BigNat) -> (r: BigNat)
    requires
        b@ > 0,
    ensures
        r@ == a@ / b@,
{
    let r = &BigNum::from_slice(&a.bytes).unwrap() / &BigNum::from_slice(&b.bytes).unwrap();
    BigNat { bytes: r.to_vec() }
}

/// `Rem for &BigNum` (`BN_div`): the remainder `a % b`, for `b > 0`.
#[verifier::external_body]
fn bn_rem(a: &BigNat, b: &BigNat) -> (r: BigNat)
    requires
        b@ > 0,
    ensures
        r@ == a@ % b@,
{
    let r = &BigNum::from_slice(&a.bytes).unwrap() % &BigNum::from_slice(&b.bytes).unwrap();
    BigNat { bytes: r.to_vec() }
}

/// `BigNumRef::nnmod`: the non-negative residue of `a` modulo `m`, for `m > 0`.
#[verifier::external_body]
fn bn_nnmod(a: &BigNat, m: &BigNat, ctx: &mut BigNumContext) -> (r: BigNat)
    requires
        m@ > 0,
    ensures
        r@ == a@ % m@,
{
    let mut r = BigNum::new().unwrap();
    r.nnmod(&BigNum::from_slice(&a.bytes).unwrap(), &BigNum::from_slice(&m.bytes).unwrap(), ctx)
        .unwrap();
    BigNat { bytes: r.to_vec() }
}

/// `BigNumRef::mod_sub`: the non-negative residue of `a - b` modulo `m`, for `m > 0`.
#[verifier::external_body]
fn bn_mod_sub(a: &BigNat, b: &BigNat, m: &BigNat, ctx: &mut BigNumContext) -> (r: BigNat)
    requires
        m@ > 0,
    ensures
        r@ == (a@ - b@) % (m@ as int),
{
    let mut r = BigNum::new().unwrap();
    let (a, b) = (BigNum::from_slice(&a.bytes).unwrap(), BigNum::from_slice(&b.bytes).unwrap());
    r.mod_sub(&a, &b, &BigNum::from_slice(&m.bytes).unwrap(), ctx).unwrap();
    BigNat { bytes: r.to_vec() }
}

/// `BigNumRef::mod_mul`: `a * b` modulo `m`, for `m > 0`.
#[verifier::external_body]
fn bn_mod_mul(a: &BigNat, b: &BigNat, m: &BigNat, ctx: &mut BigNumContext) -> (r: BigNat)
    requires
        m@ > 0,
    ensures
        r@ == (a@ * b@) % m@,
{
    let mut r = BigNum::new().unwrap();
    let (a, b) = (BigNum::from_slice(&a.bytes).unwrap(), BigNum::from_slice(&b.bytes).unwrap());
    r.mod_mul(&a, &b, &BigNum::from_slice(&m.bytes).unwrap(), ctx).unwrap();
    BigNat { bytes: r.to_vec() }
}

/// `BigNumRef::mod_exp`: `a` to the power `e`, modulo `m`, for `m > 0`.
#[verifier::external_body]
fn bn_mod_exp(a: &BigNat, e: &BigNat, m: &BigNat, ctx: &mut BigNumContext) -> (r: BigNat)
    requires
        m@ > 0,
    ensures
        r@ == pow(a@ as int, e@) % (m@ as int),
{
    let mut r = BigNum::new().unwrap();
    let (a, e) = (BigNum::from_slice(&a.bytes).unwrap(), BigNum::from_slice(&e.bytes).unwrap());
    r.mod_exp(&a, &e, &BigNum::from_slice(&m.bytes).unwrap(), ctx).unwrap();
    BigNat { bytes: r.to_vec() }
}

/// `BigNumRef::to_vec` (`BN_bn2bin` into `BN_num_bytes` bytes): the shortest
/// big-endian bytes of the number.
#[verifier::external_body]
fn bn_to_vec(a: &BigNat) -> (r: Vec<u8>)
    ensures
        r@ == minimal_be(a@),
{
    BigNum::from_slice(&a.bytes).unwrap().to_vec()
}

/// `BigNumRef::to_dec_str`: the decimal representation of the number.
#[verifier::external_body]
fn bn_to_dec_string(a: &BigNat) -> (r: String)
    ensures
        r@ == decimal(a@),
{
    BigNum::from_slice(&a.bytes).unwrap().to_dec_str().unwrap().to_string()
}

/// `PartialEq for BigNum`: whether the two numbers are equal.
#[verifier::external_body]
fn bn_eq(a: &BigNat, b: &BigNat) -> (r: bool)
    ensures
        r == (a@ == b@),
{
    BigNum::from_slice(&a.bytes).unwrap() == BigNum::from_slice(&b.bytes).unwrap()
}

/// `PartialOrd for BigNum`: whether `a <= b`.
#[verifier::external_body]
fn bn_le(a: &BigNat, b: &BigNat) -> (r: bool)
    ensures
        r == (a@ <= b@),
{
    BigNum::from_slice(&a.bytes).unwrap() <= BigNum::from_slice(&b.bytes).unwrap()
}

/// `BigNumRef::rand_range`: a number drawn by OpenSSL's random generator
/// below `range`, for `range > 0`.  Which number comes back is chance: the
/// contract states only the bound.
#[verifier::external_body]
fn bn_rand_range(range: &BigNat) -> (r: BigNat)
    requires
        range@ > 0,
    ensures
        r@ < range@,
{
    let mut r = BigNum::new().unwrap();
    BigNum::from_slice(&range.bytes).unwrap().rand_range(&mut r).unwrap();
    BigNat { bytes: r.to_vec() }
}

/// `BigNumRef::generate_prime`: a random prime of at least `bits` bits, and a
/// safe prime `p`, with `(p - 1) / 2` prime too, when `safe` holds, as the
/// crate documents it.  OpenSSL refuses bit counts that are too small, and
/// the result is random, so only these properties of an `Ok` result are
/// stated; an upper bound on its length is left unsaid (the crate documents
/// the bit count as a lower bound).
#[verifier::external_body]
fn bn_generate_prime(bits: i32, safe: bool) -> (r: Result<BigNat, ErrorStack>)
    requires
        bits > 0,
    ensures
        r matches Ok(p) ==> pow(2, (bits - 1) as nat) <= p@ && is_prime(p@) && (safe ==> is_prime(
            ((p@ - 1) as nat) / 2,
        )),
{
    let mut p = BigNum::new()?;
    p.generate_prime(bits, safe, None, None)?;
    Ok(BigNat { bytes: p.to_vec() })
}

/// `BigNumContext::new`: a fresh scratch space, or OpenSSL's error.
#[verifier::external_body]
fn bn_context_new() -> (r: Result<BigNumContext, ErrorStack>) {
    BigNumContext::new()
}

/// The text `name { field: value, ... }` of a structure whose fields are
/// numbers, as Rust's `debug_struct` writes it.
pub fn describe_struct(name: &str, fields: &Vec<(&str, &BigNat)>) -> (r: String)
    ensures
        r@ == struct_text(name@, Seq::new(fields.len() as nat, |i: int| (fields[i].0@, fields[i].1@))),
{
    let ghost fs = Seq::new(fields.len() as nat, |i: int| (fields[i].0@, fields[i].1@));
    let mut out = String::from_str(name);
    out.append(" { ");
    let mut body = String::new();
    for i in 0..fields.len()
        invariant
            fs == Seq::new(fields.len() as nat, |i: int| (fields[i].0@, fields[i].1@)),
            body@ == field_list(fs.take(i as int)),
    {
        let (field_name, value) = fields[i];
        let digits = value.to_dec_string();
        if i > 0 {
            body.append(", ");
        }
        body.append(field_name);
        body.append(": ");
        body.append(digits.as_str());
        proof {
            let t = fs.take(i + 1);
            assert(t.drop_last() =~= fs.take(i as int));
            assert(t.last() == (field_name@, value@));
            if i == 0 {
                assert(fs.take(0 as int) =~= Seq::<(Seq<char>, nat)>::empty());
                assert(t.len() == 1);
            }
        }
    }
    assert(fs.take(fields.len() as int) =~= fs);
    out.append(body.as_str());
    out.append(" }");
    out
}

/// Turns OpenSSL's error into the library's error.
pub fn from_openssl_error(e: ErrorStack) -> (r: CryptoError)
    ensures
        r == CryptoError::OpenSsl,
{
    CryptoError::OpenSsl
}

/// A fresh OpenSSL scratch space.
pub fn new_context() -> (r: Result<BigNumContext, CryptoError>)
    ensures
        r matches Err(e) ==> e == CryptoError::OpenSsl,
{
    match bn_context_new() {
        Ok(ctx) => Ok(ctx),
        Err(e) => Err(from_openssl_error(e)),
    }
}

/// A random prime of at least `bits` bits (a safe prime `p`, with
/// `(p - 1) / 2` prime too, when `safe` holds).
pub fn generate_prime(bits: i32, safe: bool) -> (r: Result<BigNat, CryptoError>)
    requires
        bits > 0,
    ensures
        r matches Ok(p) ==> pow(2, (bits - 1) as nat) <= p@ && is_prime(p@) && (safe ==> is_prime(
            ((p@ - 1) as nat) / 2,
        )),
        r matches Err(e) ==> e == CryptoError::OpenSsl,
{
    match bn_generate_prime(bits, safe) {
        Ok(p) => Ok(p),
        Err(e) => Err(from_openssl_error(e)),
    }
}

impl BigNat {
    /// The number zero.
    pub fn zero() -> (r: BigNat)
        ensures
            r@ == 0,
    {
        let r = BigNat { bytes: Vec::new() };
        assert(r.bytes@.len() == 0);
        r
    }

    /// The number `x`.
    pub fn from_u32(x: u32) -> (r: BigNat)
        ensures
            r@ == x,
    {
        bn_from_u32(x)
    }

    /// The number whose big-endian bytes are `bytes`.
    pub fn from_bytes_be(bytes: &[u8]) -> (r: BigNat)
        ensures
            r@ == be_value(bytes@),
    {
        let mut v: Vec<u8> = Vec::new();
        for i in 0..bytes.len()
            invariant
                v@ == bytes@.subrange(0, i as int),
        {
            v.push(bytes[i]);
        }
        assert(v@ =~= bytes@);
        BigNat { bytes: v }
    }

    /// The big-endian bytes of this number, as stored.
    pub fn to_bytes_be(&self) -> (r: Vec<u8>)
        ensures
            be_value(r@) == self@,
    {
        let mut v: Vec<u8> = Vec::new();
        for i in 0..self.bytes.len()
            invariant
                v@ == self.bytes@.subrange(0, i as int),
        {
            v.push(self.bytes[i]);
        }
        assert(v@ =~= self.bytes@);
        v
    }

    /// The shortest big-endian bytes of this number (none for zero), as
    /// OpenSSL writes them.
    pub fn to_vec(&self) -> (r: Vec<u8>)
        ensures
            r@ == minimal_be(self@),
    {
        bn_to_vec(self)
    }

    /// The decimal representation of this number.
    pub fn to_dec_string(&self) -> (r: String)
        ensures
            r@ == decimal(self@),
    {
        bn_to_dec_string(self)
    }

    /// A copy of this number.
    pub fn copied(&self) -> (r: BigNat)
        ensures
            r@ == self@,
    {
        let v = self.to_bytes_be();
        BigNat { bytes: v }
    }

    /// `self + other`.
    pub fn add(&self, other: &BigNat) -> (r: BigNat)
        ensures
            r@ == self@ + other@,
    {
        bn_add(self, other)
    }

    /// `self - other`, for `other <= self`.
    pub fn sub(&self, other: &BigNat) -> (r: BigNat)
        requires
            other@ <= self@,
        ensures
            r@ == self@ - other@,
    {
        bn_sub(self, other)
    }

    /// `self * other`.
    pub fn mul(&self, other: &BigNat) -> (r: BigNat)
        ensures
            r@ == self@ * other@,
    {
        bn_mul(self, other)
    }

    /// The quotient `self / other`, for `other > 0`.
    pub fn div(&self, other: &BigNat) -> (r: BigNat)
        requires
            other@ > 0,
        ensures
            r@ == self@ / other@,
    {
        bn_div(self, other)
    }

    /// The remainder `self % m`, for `m > 0`.
    pub fn rem(&self, m: &BigNat) -> (r: BigNat)
        requires
            m@ > 0,
        ensures
            r@ == self@ % m@,
    {
        bn_rem(self, m)
    }

    /// The residue of `self` modulo `m`, for `m > 0`.
    pub fn nnmod(&self, m: &BigNat, ctx: &mut BigNumContext) -> (r: BigNat)
        requires
            m@ > 0,
        ensures
            r@ == self@ % m@,
    {
        bn_nnmod(self, m, ctx)
    }

    /// The residue of `self - other` modulo `m`, for `m > 0`.
    pub fn mod_sub(&self, other: &BigNat, m: &BigNat, ctx: &mut BigNumContext) -> (r: BigNat)
        requires
            m@ > 0,
        ensures
            r@ == (self@ - other@) % (m@ as int),
    {
        bn_mod_sub(self, other, m, ctx)
    }

    /// `self * other` modulo `m`, for `m > 0`.
    pub fn mod_mul(&self, other: &BigNat, m: &BigNat, ctx: &mut BigNumContext) -> (r: BigNat)
        requires
            m@ > 0,
        ensures
            r@ == (self@ * other@) % m@,
    {
        bn_mod_mul(self, other, m, ctx)
    }

    /// `self` to the power `e`, modulo `m`, for `m > 0`.
    pub fn mod_exp(&self, e: &BigNat, m: &BigNat, ctx: &mut BigNumContext) -> (r: BigNat)
        requires
            m@ > 0,
        ensures
            r@ == pow(self@ as int, e@) % (m@ as int),
    {
        bn_mod_exp(self, e, m, ctx)
    }

    /// Whether the two numbers are equal.
    pub fn equals(&self, other: &BigNat) -> (r: bool)
        ensures
            r == (self@ == other@),
    {
        bn_eq(self, other)
    }

    /// Whether `self <= other`.
    pub fn le(&self, other: &BigNat) -> (r: bool)
        ensures
            r == (self@ <= other@),
    {
        bn_le(self, other)
    }

    /// A random number below `range`, for `range > 0`.
    pub fn random_below(range: &BigNat) -> (r: BigNat)
        requires
            range@ > 0,
        ensures
            r@ < range@,
    {
        bn_rand_range(range)
    }
}

impl PartialEq for BigNat {
    fn eq(&self, other: &BigNat) -> (r: bool) {
        bn_eq(self, other)
    }
}

impl vstd::std_specs::cmp::PartialEqSpecImpl for BigNat {
    open spec fn obeys_eq_spec() -> bool {
        true
    }

    open spec fn eq_spec(&self, other: &BigNat) -> bool {
        self@ == other@
    }
}

} // verus!

//! Helpers on big numbers shared by the protocols: random sampling, modular
//! exponentiation, sums, and additive secret sharing modulo `q`.
use crate::bignat::{BigNat, CryptoError};
use openssl::bn::BigNumContext;
use vstd::arithmetic::div_mod::*;
use vstd::arithmetic::power::pow;
use vstd::prelude::*;

verus! {

/// The sum of a sequence of naturals.
pub open spec fn sum_nats(s: Seq<nat>) -> nat
    decreases s.len(),
{
    if s.len() == 0 {
        0
    } else {
        sum_nats(s.drop_last()) + s.last()
    }
}

/// The product of a sequence of naturals.
pub open spec fn product_nats(s: Seq<nat>) -> nat
    decreases s.len(),
{
    if s.len() == 0 {
        1
    } else {
        product_nats(s.drop_last()) * s.last()
    }
}

/// The numbers held by a sequence of [`BigNat`]s.
pub open spec fn nat_values(v: Seq<BigNat>) -> Seq<nat> {
    Seq::new(v.len(), |i: int| v[i]@)
}

/// The numbers held by a sequence of references to [`BigNat`]s.
pub open spec fn ref_values(v: Seq<&BigNat>) -> Seq<nat> {
    Seq::new(v.len(), |i: int| v[i]@)
}

/// The residue of `a - b` modulo `m`, as a natural; zero for a zero modulus,
/// where there is no residue (OpenSSL's `mod_sub` reports an error there).
pub open spec fn sub_mod(a: int, b: int, m: nat) -> nat {
    if m == 0 {
        0
    } else {
        ((a - b) % (m as int)) as nat
    }
}

/// What the sharing routines promise of `shares`, the additive shares of
/// `secret` among `n` parties modulo `q`: there are `n` of them (one when `n`
/// is zero), all but the last are drawn below `q - 1`, and the last is
/// `secret` minus the sum of the others, modulo `q`.
pub open spec fn is_additive_sharing(shares: Seq<nat>, secret: nat, q: nat, n: nat) -> bool {
    &&& shares.len() == (if n == 0 { 1 } else { n })
    &&& forall|i: int| 0 <= i < shares.len() - 1 ==> #[trigger] shares[i] < q - 1
    &&& shares.last() == sub_mod(secret as int, sum_nats(shares.drop_last()) as int, q)
}

/// Additive shares add up to the secret: whatever shares the sharing
/// routines drew, their sum modulo `q` is the secret modulo `q`.
pub proof fn additive_shares_sum_to_secret(shares: Seq<nat>, secret: nat, q: nat, n: nat)
    requires
        q > 0,
        is_additive_sharing(shares, secret, q, n),
    ensures
        sum_nats(shares) % q == secret % q,
{
    let prefix = sum_nats(shares.drop_last()) as int;
    let qi = q as int;
    assert(sum_nats(shares) == prefix + shares.last());
    lemma_add_mod_noop(prefix, secret - prefix, qi);
    lemma_mod_twice(secret - prefix, qi);
    lemma_add_mod_noop(prefix, (secret - prefix) % qi, qi);
}

/// The coordinate `i` of the one-hot encoding of `vote`.
pub open spec fn one_hot(vote: nat, i: nat) -> nat {
    if i == vote {
        1
    } else {
        0
    }
}

/// A shared vote reconstructs to its one-hot encoding: when coordinate `i`
/// of a vote is additively shared as `one_hot(vote, i)` modulo `q > 1`, the
/// shares of coordinate `i` add up, modulo `q`, to one for the chosen
/// candidate and to zero for every other.
pub proof fn shared_vote_reconstructs_one_hot(sharings: Seq<Seq<nat>>, vote: nat, q: nat, n: nat)
    requires
        q > 1,
        forall|i: int|
            0 <= i < sharings.len() ==> is_additive_sharing(#[trigger] sharings[i], one_hot(vote, i as nat), q, n),
    ensures
        forall|i: int|
            0 <= i < sharings.len() ==> sum_nats(#[trigger] sharings[i]) % q == one_hot(vote, i as nat),
{
    assert forall|i: int| 0 <= i < sharings.len() implies sum_nats(#[trigger] sharings[i]) % q == one_hot(
        vote,
        i as nat,
    ) by {
        additive_shares_sum_to_secret(sharings[i], one_hot(vote, i as nat), q, n);
        lemma_small_mod(one_hot(vote, i as nat), q);
    }
}

/// `sum_nats` of a prefix one longer adds the next element.
pub proof fn lemma_sum_prefix_step(s: Seq<nat>, i: int)
    requires
        0 <= i < s.len(),
    ensures
        sum_nats(s.subrange(0, i + 1)) == sum_nats(s.subrange(0, i)) + s[i],
{
    assert(s.subrange(0, i + 1).drop_last() =~= s.subrange(0, i));
}

/// `product_nats` of a prefix one longer multiplies by the next element.
pub proof fn lemma_product_prefix_step(s: Seq<nat>, i: int)
    requires
        0 <= i < s.len(),
    ensures
        product_nats(s.subrange(0, i + 1)) == product_nats(s.subrange(0, i)) * s[i],
{
    assert(s.subrange(0, i + 1).drop_last() =~= s.subrange(0, i));
}

/// The sum of all the numbers in `v`.
pub fn sum_all(v: &Vec<BigNat>) -> (r: BigNat)
    ensures
        r@ == sum_nats(nat_values(v@)),
{
    let mut acc = BigNat::zero();
    for i in 0..v.len()
        invariant
            acc@ == sum_nats(nat_values(v@).subrange(0, i as int)),
    {
        proof {
            lemma_sum_prefix_step(nat_values(v@), i as int);
        }
        acc = acc.add(&v[i]);
    }
    assert(nat_values(v@).subrange(0, v.len() as int) =~= nat_values(v@));
    acc
}

/// The sum of all the numbers that `v` refers to.
pub fn sum_refs(v: &[&BigNat]) -> (r: BigNat)
    ensures
        r@ == sum_nats(ref_values(v@)),
{
    let mut acc = BigNat::zero();
    for i in 0..v.len()
        invariant
            acc@ == sum_nats(ref_values(v@).subrange(0, i as int)),
    {
        proof {
            lemma_sum_prefix_step(ref_values(v@), i as int);
        }
        acc = acc.add(v[i]);
    }
    assert(ref_values(v@).subrange(0, v.len() as int) =~= ref_values(v@));
    acc
}

/// The product of all the numbers that `v` refers to.
pub fn product_refs(v: &[&BigNat]) -> (r: BigNat)
    ensures
        r@ == product_nats(ref_values(v@)),
{
    let mut acc = BigNat::from_u32(1);
    for i in 0..v.len()
        invariant
            acc@ == product_nats(ref_values(v@).subrange(0, i as int)),
    {
        proof {
            lemma_product_prefix_step(ref_values(v@), i as int);
        }
        acc = acc.mul(v[i]);
    }
    assert(ref_values(v@).subrange(0, v.len() as int) =~= ref_values(v@));
    acc
}

/// A random number below `limit - 1`; an error when `limit` is at most one,
/// as there is then no number to draw.
pub fn gen_random(limit: &BigNat) -> (r: Result<BigNat, CryptoError>)
    ensures
        r is Ok <==> limit@ > 1,
        r matches Ok(x) ==> x@ < limit@ - 1,
        r matches Err(e) ==> e == CryptoError::InvalidArgument,
{
    let one = BigNat::from_u32(1);
    if limit.le(&one) {
        return Err(CryptoError::InvalidArgument);
    }
    let range = limit.sub(&one);
    Ok(BigNat::random_below(&range))
}

/// A random `a` below `q - 1` with `a^q = 1 (mod p)`, drawn again until one
/// is found; `None` only once `u64::MAX` draws have all failed.
pub fn get_generator(p: &BigNat, q: &BigNat, ctx: &mut BigNumContext) -> (r: Option<BigNat>)
    requires
        p@ > 0,
        q@ > 1,
    ensures
        r matches Some(a) ==> a@ < q@ - 1 && pow(a@ as int, q@) % (p@ as int) == 1,
{
    let mut attempts: u64 = u64::MAX;
    while attempts > 0
        invariant
            p@ > 0,
            q@ > 1,
        decreases attempts,
    {
        let a = gen_random(q).unwrap();
        if let Some(g) = accept_generator(a, p, q, ctx) {
            return Some(g);
        }
        attempts = attempts - 1;
    }
    None
}

/// The test on each draw of [`get_generator`]: `a` when `a^q = 1 (mod p)`,
/// `None` otherwise.
pub fn accept_generator(a: BigNat, p: &BigNat, q: &BigNat, ctx: &mut BigNumContext) -> (r: Option<
    BigNat,
>)
    requires
        p@ > 0,
    ensures
        r == (if pow(a@ as int, q@) % (p@ as int) == 1 {
            Some(a)
        } else {
            None::<BigNat>
        }),
{
    let one = BigNat::from_u32(1);
    if mod_exp(&a, q, p, ctx).equals(&one) {
        Some(a)
    } else {
        None
    }
}

/// `q = (p - 1) / 2`, the order of the subgroup of squares when `p` is a
/// safe prime (zero when `p` is zero, as OpenSSL's division truncates).
pub fn calculate_q(p: &BigNat) -> (r: Result<BigNat, CryptoError>)
    ensures
        r matches Ok(q) && q@ == (if p@ == 0 { 0 } else { ((p@ - 1) as nat) / 2 }),
{
    let zero = BigNat::zero();
    if p.equals(&zero) {
        return Ok(zero);
    }
    let one = BigNat::from_u32(1);
    let two = BigNat::from_u32(2);
    Ok(p.sub(&one).div(&two))
}

/// The residue of `a - b` modulo `m`, and zero for a zero modulus, where
/// there is no residue and OpenSSL's `mod_sub` reports an error; the
/// library then answers zero rather than calling OpenSSL.
pub fn mod_sub_or_zero(a: &BigNat, b: &BigNat, m: &BigNat, ctx: &mut BigNumContext) -> (r: BigNat)
    ensures
        r@ == sub_mod(a@ as int, b@ as int, m@),
{
    if m.equals(&BigNat::zero()) {
        BigNat::zero()
    } else {
        a.mod_sub(b, m, ctx)
    }
}

/// `g` to the power `x`, modulo `q`, for `q > 0`.
pub fn mod_exp(g: &BigNat, x: &BigNat, q: &BigNat, ctx: &mut BigNumContext) -> (r: BigNat)
    requires
        q@ > 0,
    ensures
        r@ == pow(g@ as int, x@) % (q@ as int),
{
    g.mod_exp(x, q, ctx)
}

/// Splits `secret` into `num_shares` additive shares modulo `q` (one share,
/// the secret modulo `q`, when `num_shares` is zero): all but the last are
/// random, and the last makes the sum come to the secret.
pub fn additive_share(secret: &BigNat, q: &BigNat, num_shares: usize, ctx: &mut BigNumContext) -> (r: Vec<BigNat>)
    requires
        num_shares <= 1 || q@ > 1,
    ensures
        is_additive_sharing(nat_values(r@), secret@, q@, num_shares as nat),
{
    let mut shares: Vec<BigNat> = Vec::new();
    let mut k: usize = 1;
    while k < num_shares
        invariant
            num_shares <= 1 || q@ > 1,
            1 <= k <= num_shares || (k == 1 && num_shares == 0),
            shares.len() == k - 1,
            forall|i: int| 0 <= i < shares.len() ==> #[trigger] shares@[i]@ < q@ - 1,
        decreases num_shares - k,
    {
        shares.push(gen_random(q).unwrap());
        k = k + 1;
    }
    let total = sum_all(&shares);
    let last = mod_sub_or_zero(secret, &total, q, ctx);
    let ghost before = shares@;
    shares.push(last);
    proof {
        assert(nat_values(shares@).drop_last() =~= nat_values(before));
    }
    shares
}

} // verus!

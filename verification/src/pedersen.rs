//! The mathematics of Pedersen commitments `g^x h^r (mod m)` over the
//! integers modulo `m`, and the laws that the commitment schemes of this
//! crate rest on.
use crate::bignat::is_prime;
use crate::utils::{is_additive_sharing, product_nats, sum_nats};
use vstd::arithmetic::div_mod::*;
use vstd::arithmetic::mul::*;
use vstd::arithmetic::power::*;
use vstd::prelude::*;

verus! {

/// The Pedersen commitment `g^x * h^r mod m` to `x` with randomness `r`.
pub open spec fn pedersen(g: nat, h: nat, x: nat, r: nat, m: nat) -> nat {
    ((pow(g as int, x) * pow(h as int, r)) % (m as int)) as nat
}

/// What the committed sharing routines promise: `shares` are an additive
/// sharing of `secret` among `n` parties modulo `q`, and commitment `i` is
/// the Pedersen commitment modulo `m` to share `i` with randomness `i`,
/// drawn below `q - 1`.
pub open spec fn is_committed_sharing_of(
    shares: Seq<nat>,
    randomness: Seq<nat>,
    commitments: Seq<nat>,
    secret: nat,
    g: nat,
    h: nat,
    m: nat,
    q: nat,
    n: nat,
) -> bool {
    &&& is_additive_sharing(shares, secret, q, n)
    &&& commitments.len() == shares.len()
    &&& randomness.len() == shares.len()
    &&& forall|i: int|
        0 <= i < shares.len() ==> {
            &&& #[trigger] randomness[i] < q - 1
            &&& commitments[i] == pedersen(g, h, shares[i], randomness[i], m)
        }
}

/// A commitment opens with the message and the randomness it was made
/// with: opening sums the randomness given, and the sum of the single
/// randomness `r` is `r`.
pub proof fn commitment_opens_with_its_randomness(g: nat, h: nat, x: nat, r: nat, m: nat)
    ensures
        pedersen(g, h, x, sum_nats(seq![r]), m) == pedersen(g, h, x, r, m),
{
    assert(seq![r].drop_last() =~= Seq::<nat>::empty());
    assert(sum_nats(Seq::<nat>::empty()) == 0);
    assert(sum_nats(seq![r]) == r);
}

/// Reducing both factors first gives the same commitment:
/// `((g^x mod m) * (h^r mod m)) mod m = g^x h^r mod m`.
pub proof fn lemma_pedersen_reduced(g: nat, h: nat, x: nat, r: nat, m: nat)
    requires
        m > 0,
    ensures
        ((pow(g as int, x) % (m as int)) * (pow(h as int, r) % (m as int))) % (m as int)
            == pedersen(g, h, x, r, m) as int,
{
    lemma_mul_mod_noop(pow(g as int, x), pow(h as int, r), m as int);
    lemma_mod_bound(pow(g as int, x) * pow(h as int, r), m as int);
}

/// Two Pedersen commitments multiply to the commitment of the sum of the
/// messages with the sum of the randomness.
pub proof fn pedersen_is_homomorphic(g: nat, h: nat, x1: nat, r1: nat, x2: nat, r2: nat, m: nat)
    requires
        m > 0,
    ensures
        (pedersen(g, h, x1, r1, m) * pedersen(g, h, x2, r2, m)) % m == pedersen(
            g,
            h,
            x1 + x2,
            r1 + r2,
            m,
        ),
{
    let mi = m as int;
    let a = pow(g as int, x1);
    let b = pow(h as int, r1);
    let c = pow(g as int, x2);
    let d = pow(h as int, r2);
    lemma_mod_bound(a * b, mi);
    lemma_mod_bound(c * d, mi);
    lemma_mul_mod_noop(a * b, c * d, mi);
    lemma_pow_adds(g as int, x1, x2);
    lemma_pow_adds(h as int, r1, r2);
    assert((a * b) * (c * d) == (a * c) * (b * d)) by (nonlinear_arith);
    lemma_mod_bound((a * c) * (b * d), mi);
}

/// The product of Pedersen commitments is the commitment of the sum of the
/// messages with the sum of the randomness: commitments to shares multiply
/// to a commitment to the sum of the shares.
pub proof fn pedersen_products_commit_to_sums(
    g: nat,
    h: nat,
    m: nat,
    xs: Seq<nat>,
    rs: Seq<nat>,
    cs: Seq<nat>,
)
    requires
        m > 0,
        xs.len() == cs.len(),
        rs.len() == cs.len(),
        forall|i: int| 0 <= i < cs.len() ==> #[trigger] cs[i] == pedersen(g, h, xs[i], rs[i], m),
    ensures
        product_nats(cs) % m == pedersen(g, h, sum_nats(xs), sum_nats(rs), m),
    decreases cs.len(),
{
    let mi = m as int;
    if cs.len() == 0 {
        lemma_pow0(g as int);
        lemma_pow0(h as int);
    } else {
        let n = cs.len() - 1;
        pedersen_products_commit_to_sums(g, h, m, xs.drop_last(), rs.drop_last(), cs.drop_last());
        let p = product_nats(cs.drop_last());
        let acc = pedersen(g, h, sum_nats(xs.drop_last()), sum_nats(rs.drop_last()), m);
        assert(product_nats(cs) == p * cs[n]);
        lemma_mul_mod_noop_left(p as int, cs[n] as int, mi);
        pedersen_is_homomorphic(
            g,
            h,
            sum_nats(xs.drop_last()),
            sum_nats(rs.drop_last()),
            xs[n],
            rs[n],
            m,
        );
    }
}

/// `b^e = b^(e mod q) (mod m)` when `b^q = 1 (mod m)`.
proof fn lemma_pow_reduce_exponent(b: nat, e: nat, q: nat, m: nat)
    requires
        m > 0,
        q > 0,
        pow(b as int, q) % (m as int) == 1int % (m as int),
    ensures
        pow(b as int, e) % (m as int) == pow(b as int, e % q) % (m as int),
{
    let mi = m as int;
    let k = e / q;
    let rem = e % q;
    lemma_fundamental_div_mod(e as int, q as int);
    assert(e == q * k + rem);
    lemma_pow_adds(b as int, (q * k) as nat, rem);
    lemma_pow_multiplies(b as int, q, k);
    lemma_pow_mod_noop(pow(b as int, q), k, mi);
    lemma_pow_mod_noop(1, k, mi);
    lemma1_pow(k);
    lemma_mul_mod_noop_left(pow(pow(b as int, q), k), pow(b as int, rem), mi);
    lemma_mul_mod_noop_left(1, pow(b as int, rem), mi);
}

/// When `g` and `h` have order dividing `q` modulo `m` (`g^q = h^q = 1`),
/// a commitment depends on the message and the randomness only modulo `q`:
/// the commitment to `x` with randomness `r` is that to `x mod q` with
/// randomness `r mod q`.
pub proof fn pedersen_reduces_modulo_the_order(g: nat, h: nat, x: nat, r: nat, q: nat, m: nat)
    requires
        m > 0,
        q > 0,
        pow(g as int, q) % (m as int) == 1int % (m as int),
        pow(h as int, q) % (m as int) == 1int % (m as int),
    ensures
        pedersen(g, h, x, r, m) == pedersen(g, h, x % q, r % q, m),
{
    let mi = m as int;
    lemma_pow_reduce_exponent(g, x, q, m);
    lemma_pow_reduce_exponent(h, r, q, m);
    lemma_mul_mod_noop(pow(g as int, x), pow(h as int, r), mi);
    lemma_mul_mod_noop(pow(g as int, x % q), pow(h as int, r % q), mi);
}

/// When `h` has order dividing `q` modulo `m` (`h^q = 1`), a commitment
/// depends on the randomness only modulo `q`.
pub proof fn pedersen_randomness_reduces_modulo_the_order(g: nat, h: nat, x: nat, r: nat, q: nat, m: nat)
    requires
        m > 0,
        q > 0,
        pow(h as int, q) % (m as int) == 1int % (m as int),
    ensures
        pedersen(g, h, x, r, m) == pedersen(g, h, x, r % q, m),
{
    let mi = m as int;
    lemma_pow_reduce_exponent(h, r, q, m);
    lemma_mul_mod_noop_right(pow(g as int, x), pow(h as int, r), mi);
    lemma_mul_mod_noop_right(pow(g as int, x), pow(h as int, r % q), mi);
}

/// Euclid's lemma: a prime dividing neither `a` nor `b` does not divide
/// `a b`.
pub proof fn lemma_prime_product_nonzero(p: nat, a: nat, b: nat)
    requires
        is_prime(p),
        0 < a < p,
        b % p != 0,
    ensures
        (a * b) % p != 0,
    decreases a,
{
    let pi = p as int;
    if a == 1 {
        assert(a * b == b);
    } else {
        let q = p / a;
        let r = p % a;
        lemma_fundamental_div_mod(p as int, a as int);
        assert(r != 0);
        assert(0 < r < a) by {
            lemma_mod_pos_bound(p as int, a as int);
        }
        lemma_prime_product_nonzero(p, r, b);
        // r b = p b - q (a b), so p divides r b whenever it divides a b
        if (a * b) % p == 0 {
            assert(r * b == p * b - q * (a * b)) by (nonlinear_arith)
                requires
                    p == a * q + r,
            ;
            lemma_mod_multiples_vanish(-(q * b) as int, (r * b) as int, pi);
            assert((a * b) as int == p * ((a * b) / p)) by {
                lemma_fundamental_div_mod((a * b) as int, pi);
            }
            assert(r * b == p * (b - q * ((a * b) / p))) by (nonlinear_arith)
                requires
                    r * b == p * b - q * (a * b),
                    (a * b) as int == p * ((a * b) / p),
            ;
            lemma_mod_multiples_basic((b - q * ((a * b) / p)) as int, pi);
            lemma_mul_is_commutative(pi, (b - q * ((a * b) / p)) as int);
        }
    }
}

/// A commitment that is not zero does not open to the next message: when
/// `p` is prime and `g` is not 1 modulo `p`, `g^(x+1) h^r` and `g^x h^r`
/// differ modulo `p`.
pub proof fn commitment_does_not_open_to_the_next_message(g: nat, h: nat, x: nat, r: nat, p: nat)
    requires
        is_prime(p),
        g % p != 1,
        pedersen(g, h, x, r, p) != 0,
    ensures
        pedersen(g, h, x + 1, r, p) != pedersen(g, h, x, r, p),
{
    let pi = p as int;
    let c = pedersen(g, h, x, r, p);
    let full = pow(g as int, x) * pow(h as int, r);
    lemma_pow_adds(g as int, 1, x);
    lemma_pow1(g as int);
    assert(pow(g as int, x + 1) * pow(h as int, r) == g * full) by (nonlinear_arith)
        requires
            pow(g as int, x + 1) == g * pow(g as int, x),
            full == pow(g as int, x) * pow(h as int, r),
    ;
    lemma_mul_mod_noop_right(g as int, full, pi);
    if pedersen(g, h, x + 1, r, p) == c {
        // (g c) mod p == c, so ((g - 1) c) mod p == 0
        let a = ((g as int - 1) % pi) as nat;
        assert(a != 0) by {
            if a == 0 {
                lemma_add_mod_noop(g as int - 1, 1, pi);
                lemma_small_mod(1, p);
                lemma_small_mod(0, p);
            }
        }
        lemma_small_mod(c, p);
        assert(c % p == c);
        assert(c < p);
        assert(pedersen(g, h, x + 1, r, p) == (g * c) % p);
        lemma_prime_product_nonzero(p, a, c);
        assert((a * c) % p != 0);
        lemma_mul_mod_noop_left(g as int - 1, c as int, pi);
        assert(((g as int - 1) * c) % pi != 0);
        assert((g as int - 1) * c == g * c - c) by (nonlinear_arith);
        lemma_sub_mod_noop((g * c) as int, c as int, pi);
        assert((g * c) % p == c);
        assert(0int % pi == 0);
        assert((((g * c) % p) as int - (c % p) as int) % pi == 0);
        assert(((g * c) as int - c) % pi == 0);
        assert(false);
    }
}

} // verus!

//! Arithmetic modulo a prime: Fermat's little theorem, which makes
//! `d^(p - 2)` the inverse of `d` modulo `p`.
use crate::bignat::is_prime;
use crate::linear::{lemma_cong_mod, lemma_cong_mul, lemma_cong_sub};
use crate::pedersen::lemma_prime_product_nonzero;
use vstd::arithmetic::div_mod::*;
use vstd::arithmetic::power::{lemma_pow0, lemma_pow_adds, lemma_pow1, pow};
use vstd::prelude::*;
use vstd::set_lib::{lemma_int_range, lemma_subset_equality, set_int_range};

verus! {

/// The product of the entries of `s`.
pub open spec fn seq_product(s: Seq<int>) -> int
    decreases s.len(),
{
    if s.len() == 0 {
        1
    } else {
        seq_product(s.drop_last()) * s.last()
    }
}

/// `m!`.
pub open spec fn factorial(m: nat) -> int
    decreases m,
{
    if m == 0 {
        1
    } else {
        factorial((m - 1) as nat) * m
    }
}

/// Taking one entry out of a product divides it out.
proof fn lemma_product_remove(s: Seq<int>, i: int)
    requires
        0 <= i < s.len(),
    ensures
        seq_product(s) == s[i] * seq_product(s.remove(i)),
    decreases s.len(),
{
    if i == s.len() - 1 {
        assert(s.remove(i) =~= s.drop_last());
        let a = seq_product(s.drop_last());
        let b = s.last();
        assert(a * b == b * a) by (nonlinear_arith);
    } else {
        lemma_product_remove(s.drop_last(), i);
        assert(s.remove(i).drop_last() =~= s.drop_last().remove(i));
        assert(s.remove(i).last() == s.last());
        let r = seq_product(s.drop_last().remove(i));
        let x = s[i];
        let l = s.last();
        assert((x * r) * l == x * (r * l)) by (nonlinear_arith);
    }
}

/// `m` distinct numbers taken from `1..=m` multiply to `m!`.
proof fn lemma_distinct_range_product(s: Seq<int>, m: nat)
    requires
        s.len() == m,
        s.no_duplicates(),
        forall|k: int| 0 <= k < s.len() ==> 1 <= #[trigger] s[k] <= m,
    ensures
        seq_product(s) == factorial(m),
    decreases m,
{
    if m > 0 {
        broadcast use vstd::seq_lib::seq_to_set_is_finite;

        s.unique_seq_to_set();
        lemma_int_range(1, m as int + 1);
        assert forall|x: int| s.to_set().contains(x) implies set_int_range(1, m as int + 1).contains(x) by {
            let k = choose|k: int| 0 <= k < s.len() && s[k] == x;
            assert(1 <= s[k] <= m);
        }
        lemma_subset_equality(s.to_set(), set_int_range(1, m as int + 1));
        assert(set_int_range(1, m as int + 1).contains(m as int));
        assert(s.contains(m as int));
        let i = choose|i: int| 0 <= i < s.len() && s[i] == m;
        let t = s.remove(i);
        assert forall|j: int| 0 <= j < t.len() implies #[trigger] t[j] == (if j < i {
            s[j]
        } else {
            s[j + 1]
        }) by {}
        assert forall|j: int| 0 <= j < t.len() implies 1 <= #[trigger] t[j] <= m - 1 by {
            if j < i {
                assert(t[j] == s[j]);
                assert(s[j] != s[i]);
            } else {
                assert(t[j] == s[j + 1]);
                assert(s[j + 1] != s[i]);
            }
        }
        assert(t.no_duplicates()) by {
            assert forall|j: int, l: int|
                0 <= j < t.len() && 0 <= l < t.len() && j != l implies t[j] != t[l] by {
                let sj = if j < i {
                    j
                } else {
                    j + 1
                };
                let sl = if l < i {
                    l
                } else {
                    l + 1
                };
                assert(t[j] == s[sj]);
                assert(t[l] == s[sl]);
            }
        }
        lemma_distinct_range_product(t, (m - 1) as nat);
        lemma_product_remove(s, i);
        let f = factorial((m - 1) as nat);
        assert((m as int) * f == f * (m as int)) by (nonlinear_arith);
    }
}

/// `m! mod p` is not zero below `p`.
proof fn lemma_factorial_nonzero(m: nat, p: nat)
    requires
        is_prime(p),
        m < p,
    ensures
        factorial(m) % (p as int) != 0,
    decreases m,
{
    if m == 0 {
        assert(1nat % p == 1) by {
            lemma_small_mod(1, p);
        }
    } else {
        lemma_factorial_nonzero((m - 1) as nat, p);
        let f = factorial((m - 1) as nat);
        assert(f > 0) by {
            lemma_factorial_positive((m - 1) as nat);
        }
        lemma_prime_product_nonzero(p, m, f as nat);
        assert(m * (f as nat) == f * (m as int)) by (nonlinear_arith)
            requires
                f > 0,
        ;
    }
}

/// `m!` is positive.
proof fn lemma_factorial_positive(m: nat)
    ensures
        factorial(m) > 0,
    decreases m,
{
    if m > 0 {
        lemma_factorial_positive((m - 1) as nat);
        let f = factorial((m - 1) as nat);
        assert(f * (m as int) > 0) by (nonlinear_arith)
            requires
                f > 0,
                m > 0,
        ;
    }
}

/// The residues of `b, 2b, ..., m b` modulo `p` multiply to `b^m m!`.
proof fn lemma_multiples_product(b: int, m: nat, p: int)
    requires
        p > 0,
    ensures
        seq_product(Seq::new(m, |k: int| (b * (k + 1)) % p)) % p == (pow(b, m) * factorial(m)) % p,
    decreases m,
{
    let s = Seq::new(m, |k: int| (b * (k + 1)) % p);
    if m == 0 {
        lemma_pow0(b);
    } else {
        let prev = Seq::new((m - 1) as nat, |k: int| (b * (k + 1)) % p);
        assert(s.drop_last() =~= prev);
        lemma_multiples_product(b, (m - 1) as nat, p);
        let pp = seq_product(prev);
        let pw = pow(b, (m - 1) as nat);
        let f = factorial((m - 1) as nat);
        // pp * ((b m) % p)  ~  (pw f) * (b m)
        lemma_cong_mod(b * m, p);
        lemma_cong_mul(pp, pw * f, (b * m) % p, b * m, p);
        lemma_pow_adds(b, (m - 1) as nat, 1);
        lemma_pow1(b);
        assert((pw * f) * (b * m) == (pw * b) * (f * m)) by (nonlinear_arith);
    }
}

/// Fermat's little theorem: `b^(p - 1) = 1` modulo a prime `p` that does not
/// divide `b`.
pub proof fn lemma_fermat_little(b: int, p: nat)
    requires
        is_prime(p),
        0 < b < p,
    ensures
        pow(b, (p - 1) as nat) % (p as int) == 1,
{
    let pi = p as int;
    let m = (p - 1) as nat;
    let s = Seq::new(m, |k: int| (b * (k + 1)) % pi);
    assert forall|k: int| 0 <= k < s.len() implies 1 <= #[trigger] s[k] <= m by {
        assert(((k + 1) as nat) % p == k + 1) by {
            lemma_small_mod((k + 1) as nat, p);
        }
        lemma_prime_product_nonzero(p, b as nat, (k + 1) as nat);
    }
    assert(s.no_duplicates()) by {
        assert forall|j: int, l: int|
            0 <= j < s.len() && 0 <= l < s.len() && j != l implies s[j] != s[l] by {
            if s[j] == s[l] {
                let (lo, hi) = if j < l {
                    (j, l)
                } else {
                    (l, j)
                };
                lemma_cong_sub(b * (hi + 1), b * (hi + 1), b * (lo + 1), b * (lo + 1), pi);
                lemma_sub_mod_noop(b * (hi + 1), b * (lo + 1), pi);
                assert(b * (hi + 1) - b * (lo + 1) == b * (hi - lo)) by (nonlinear_arith);
                assert((b * (hi - lo)) % pi == 0) by {
                    assert(((b * (hi + 1)) % pi - (b * (lo + 1)) % pi) == 0);
                    assert(0int % pi == 0);
                }
                assert(((hi - lo) as nat) % p == hi - lo) by {
                    lemma_small_mod((hi - lo) as nat, p);
                }
                lemma_prime_product_nonzero(p, b as nat, (hi - lo) as nat);
            }
        }
    }
    lemma_distinct_range_product(s, m);
    lemma_multiples_product(b, m, pi);
    let f = factorial(m);
    let e = pow(b, m);
    lemma_factorial_nonzero(m, p);
    lemma_factorial_positive(m);
    // e f = f (mod p), so (e - 1) f = 0 (mod p)
    assert(f % pi == (e * f) % pi) by {
        lemma_cong_mod(f, pi);
    }
    if e % pi != 1 {
        let c = (e - 1) % pi;
        assert(c != 0) by {
            lemma_sub_mod_noop(e, 1, pi);
            lemma_small_mod(1, p);
            let r = e % pi;
            assert(c == (r - 1) % pi);
            if r == 0 {
                lemma_mod_add_multiples_vanish(-1, pi);
                lemma_small_mod((pi - 1) as nat, p);
            } else {
                lemma_small_mod((r - 1) as nat, p);
            }
        }
        assert(0 <= c < pi);
        lemma_prime_product_nonzero(p, c as nat, f as nat);
        lemma_cong_mod(e - 1, pi);
        lemma_cong_mul(c, e - 1, f, f, pi);
        assert((e - 1) * f == e * f - f) by (nonlinear_arith);
        lemma_sub_mod_noop(e * f, f, pi);
        assert((e * f - f) % pi == 0) by {
            assert(((e * f) % pi - f % pi) == 0);
            assert(0int % pi == 0);
        }
        assert(false);
    }
}

/// Modulo a prime `p`, `d^(p - 2)` (of the residue of `d`) inverts every `d`
/// that `p` does not divide.
pub proof fn lemma_inverse_by_fermat(d: int, p: nat)
    requires
        is_prime(p),
        d % (p as int) != 0,
    ensures
        (d * pow(d % (p as int), (p - 2) as nat)) % (p as int) == 1,
{
    let pi = p as int;
    let r = d % pi;
    lemma_fermat_little(r, p);
    lemma_cong_mod(d, pi);
    let w = pow(r, (p - 2) as nat);
    lemma_cong_mul(d, r, w, w, pi);
    lemma_pow_adds(r, 1, (p - 2) as nat);
    lemma_pow1(r);
    assert(r * w == pow(r, (p - 1) as nat));
}

} // verus!

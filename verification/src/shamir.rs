//! Shamir's threshold secret sharing over the integers modulo a prime.
//!
//! A secret is the constant coefficient of a random polynomial of degree
//! `threshold`; party `j` (counted from zero) receives the value of the
//! polynomial at `j + 1`.  Any `threshold + 1` shares give the secret back by
//! Lagrange interpolation at zero.  All residues are taken in `0..prime`.
use crate::bignat::is_prime;
use crate::linear::{lemma_cong_add, lemma_cong_mod, lemma_cong_mul, lemma_cong_sub};
use crate::polynomial::{
    eval, lemma_eval_add, lemma_eval_mul_linear, lemma_eval_scale, lemma_product_not_divisible,
    lemma_vanishing_at_zero, mul_linear, poly_add, poly_scale,
};
use crate::prime_field::lemma_inverse_by_fermat;
use rand::distributions::Uniform;
use rand::Rng;
use vstd::arithmetic::power::{lemma_pow_adds, lemma_pow_mod_noop, lemma_pow_multiplies, pow};
use vstd::arithmetic::div_mod::{lemma_mod_add_multiples_vanish, lemma_small_mod, lemma_sub_mod_noop};
use vstd::prelude::*;

verus! {

/// The value at `x` of the polynomial whose coefficients, constant first,
/// are `c`.
pub open spec fn poly_eval(c: Seq<i64>, x: int) -> int
    decreases c.len(),
{
    if c.len() == 0 {
        0
    } else {
        c[0] + x * poly_eval(c.drop_first(), x)
    }
}

/// The shares of the polynomial `c` for `n` parties: its values at
/// `1, ..., n`, modulo `prime`.
pub open spec fn evaluations(c: Seq<i64>, n: nat, prime: int) -> Seq<i64> {
    Seq::new(n, |j: int| (poly_eval(c, j + 1) % prime) as i64)
}

/// The product of `xs[j]` over the `j < n` other than `i`.
pub open spec fn product_except(xs: Seq<i64>, i: int, n: nat) -> int
    decreases n,
{
    if n == 0 {
        1
    } else if n - 1 == i {
        product_except(xs, i, (n - 1) as nat)
    } else {
        product_except(xs, i, (n - 1) as nat) * xs[n - 1]
    }
}

/// The product of `xs[j] - xs[i]` over the `j < n` other than `i`.
pub open spec fn product_of_differences(xs: Seq<i64>, i: int, n: nat) -> int
    decreases n,
{
    if n == 0 {
        1
    } else if n - 1 == i {
        product_of_differences(xs, i, (n - 1) as nat)
    } else {
        product_of_differences(xs, i, (n - 1) as nat) * (xs[n - 1] - xs[i])
    }
}

/// The term of party `i` in the Lagrange interpolation at zero: its value
/// times the Lagrange basis polynomial at zero, whose denominator is inverted
/// as `d^(prime - 2)`, the inverse modulo a prime.
pub open spec fn lagrange_term(xs: Seq<i64>, ys: Seq<i64>, i: int, prime: int) -> int {
    (ys[i] * product_except(xs, i, xs.len()) * pow(
        product_of_differences(xs, i, xs.len()) % prime,
        (prime - 2) as nat,
    )) % prime
}

/// The sum, modulo `prime`, of the first `n` Lagrange terms.
pub open spec fn lagrange_sum(xs: Seq<i64>, ys: Seq<i64>, n: nat, prime: int) -> int
    decreases n,
{
    if n == 0 {
        0
    } else {
        (lagrange_sum(xs, ys, (n - 1) as nat, prime) + lagrange_term(xs, ys, n - 1, prime)) % prime
    }
}

/// The interpolation at zero, modulo `prime`, of the points `xs` with values
/// `ys`.
pub open spec fn lagrange_at_zero(xs: Seq<i64>, ys: Seq<i64>, prime: int) -> int {
    lagrange_sum(xs, ys, xs.len(), prime)
}

/// The points of the parties whose indices are `indices`: index plus one.
pub open spec fn party_points(indices: Seq<usize>) -> Seq<i64> {
    Seq::new(indices.len(), |k: int| (indices[k] + 1) as i64)
}

/// `count` numbers drawn uniformly from `0..bound` by `rand`'s thread-local
/// generator (`Uniform::from(0..bound)` sampled through `Rng::sample_iter`).
/// Which numbers come back is chance: the contract states only their number
/// and range.  `Uniform::from` panics on an empty range.
#[verifier::external_body]
fn sample_below(bound: i64, count: usize) -> (r: Vec<i64>)
    requires
        bound > 0,
    ensures
        r.len() == count,
        forall|i: int| 0 <= i < r.len() ==> 0 <= #[trigger] r[i] < bound,
{
    let range = Uniform::from(0..bound);
    rand::thread_rng().sample_iter(&range).take(count).collect()
}

/// The residue of `v` modulo `m`, in `0..m`.
fn residue(v: i128, m: i64) -> (r: i64)
    requires
        m > 0,
    ensures
        r == (v as int) % (m as int),
        0 <= r < m,
{
    let r = v.checked_rem_euclid(m as i128).unwrap();
    r as i64
}

/// The value at `point`, modulo `prime`, of the polynomial with the given
/// coefficients (constant first), by Horner's rule.
pub fn mod_evaluate_polynomial(coefficients: &[i64], point: i64, prime: i64) -> (r: i64)
    requires
        prime > 0,
    ensures
        r == poly_eval(coefficients@, point as int) % (prime as int),
{
    let ghost c = coefficients@;
    let mut acc: i64 = 0;
    let mut i: usize = coefficients.len();
    assert(c.subrange(i as int, c.len() as int).len() == 0);
    assert(0int % (prime as int) == 0);
    while i > 0
        invariant
            i <= c.len(),
            c == coefficients@,
            prime > 0,
            0 <= acc < prime,
            acc == poly_eval(c.subrange(i as int, c.len() as int), point as int) % (prime as int),
        decreases i,
    {
        let ghost tail = c.subrange(i as int, c.len() as int);
        let ghost whole = c.subrange(i - 1, c.len() as int);
        assert(whole.drop_first() =~= tail);
        assert(-0x7fff_ffff_ffff_ffff * 0x8000_0000_0000_0000 <= (acc as int) * (point as int)
            <= 0x7fff_ffff_ffff_ffff * 0x8000_0000_0000_0000) by (nonlinear_arith)
            requires
                0 <= acc < 0x7fff_ffff_ffff_ffff,
                -0x8000_0000_0000_0000 <= point < 0x8000_0000_0000_0000,
        ;
        let prod: i128 = (acc as i128) * (point as i128);
        let v: i128 = prod + (coefficients[i - 1] as i128);
        let next = residue(v, prime);
        proof {
            let pv = poly_eval(tail, point as int);
            lemma_cong_mod(pv, prime as int);
            lemma_cong_mul(acc as int, pv, point as int, point as int, prime as int);
            lemma_cong_add(
                acc * point,
                pv * point,
                c[i - 1] as int,
                c[i - 1] as int,
                prime as int,
            );
            assert(poly_eval(whole, point as int) == c[i - 1] + point * pv);
        }
        acc = next;
        i = i - 1;
    }
    assert(c.subrange(0, c.len() as int) =~= c);
    acc
}

/// `base` to the power `e`, modulo `m`, by repeated squaring.
fn mod_pow(base: i64, e: i64, m: i64) -> (r: i64)
    requires
        m > 0,
        0 <= base,
        0 <= e,
    ensures
        r == pow(base as int, e as nat) % (m as int),
        0 <= r < m,
{
    let mut result: i64 = residue(1, m);
    let mut b: i64 = residue(base as i128, m);
    let mut k: i64 = e;
    proof {
        lemma_pow_mod_noop(base as int, e as nat, m as int);
        lemma_cong_mod(1, m as int);
        lemma_cong_mul(
            result as int,
            1,
            pow(b as int, e as nat),
            pow(base as int, e as nat),
            m as int,
        );
    }
    while k > 0
        invariant
            m > 0,
            0 <= result < m,
            0 <= b < m,
            0 <= k,
            (result * pow(b as int, k as nat)) % (m as int) == pow(base as int, e as nat) % (m as int),
        decreases k,
    {
        let ghost k0 = k as nat;
        let ghost b0 = b as int;
        let ghost r0 = result as int;
        let ghost half = (k / 2) as nat;
        assert(b0 * b0 < 0x7fff_ffff_ffff_ffff * 0x7fff_ffff_ffff_ffff) by (nonlinear_arith)
            requires
                0 <= b0 < 0x7fff_ffff_ffff_ffff,
        ;
        proof {
            vstd::arithmetic::power::lemma_square_is_pow2(b0);
            lemma_pow_multiplies(b0, 2, half);
        }
        if k % 2 == 1 {
            assert(r0 * b0 < 0x7fff_ffff_ffff_ffff * 0x7fff_ffff_ffff_ffff) by (nonlinear_arith)
                requires
                    0 <= b0 < 0x7fff_ffff_ffff_ffff,
                    0 <= r0 < 0x7fff_ffff_ffff_ffff,
            ;
            result = residue((result as i128) * (b as i128), m);
            proof {
                lemma_pow_adds(b0, 1, (2 * half) as nat);
                assert(k0 == 1 + 2 * half);
                vstd::arithmetic::power::lemma_pow1(b0);
                // result * b^k = (result * b) * (b*b)^half
                assert(r0 * pow(b0, k0) == (r0 * b0) * pow(b0 * b0, half)) by (nonlinear_arith)
                    requires
                        pow(b0, k0) == pow(b0, 1) * pow(b0, (2 * half) as nat),
                        pow(b0, 1) == b0,
                        pow(b0, (2 * half) as nat) == pow(pow(b0, 2), half),
                        pow(b0, 2) == b0 * b0,
                ;
                lemma_cong_mod(r0 * b0, m as int);
                lemma_cong_mul(
                    (r0 * b0) % (m as int),
                    r0 * b0,
                    pow(b0 * b0, half),
                    pow(b0 * b0, half),
                    m as int,
                );
            }
        } else {
            proof {
                assert(k0 == 2 * half);
                assert(pow(b0, k0) == pow(b0 * b0, half));
            }
        }
        b = residue((b as i128) * (b as i128), m);
        k = k / 2;
        proof {
            lemma_pow_mod_noop(b0 * b0, half, m as int);
            lemma_cong_mod(pow(b0 * b0, half), m as int);
            lemma_cong_mul(
                result as int,
                result as int,
                pow(b as int, half),
                pow(b0 * b0, half),
                m as int,
            );
        }
    }
    assert(pow(b as int, 0) == 1) by {
        vstd::arithmetic::power::lemma_pow0(b as int);
    }
    assert((result as int) % (m as int) == result) by {
        vstd::arithmetic::div_mod::lemma_small_mod(result as nat, m as nat);
    }
    result
}

/// Interpolates at zero, modulo `prime`, the polynomial through the points
/// `points` with the values `values`.
pub fn lagrange_interpolation_at_zero(points: &[i64], values: &[i64], prime: i64) -> (r: i64)
    requires
        points.len() == values.len(),
        prime > 1,
    ensures
        r == lagrange_at_zero(points@, values@, prime as int),
{
    let ghost xs = points@;
    let ghost ys = values@;
    let n = values.len();
    let mut acc: i64 = 0;
    let mut i: usize = 0;
    while i < n
        invariant
            n == values.len(),
            n == points.len(),
            xs == points@,
            ys == values@,
            prime > 1,
            i <= n,
            0 <= acc < prime,
            acc == lagrange_sum(xs, ys, i as nat, prime as int),
        decreases n - i,
    {
        let xi = points[i];
        let yi = values[i];
        let mut num: i64 = residue(1, prime);
        let mut den: i64 = residue(1, prime);
        let mut j: usize = 0;
        while j < n
            invariant
                n == values.len(),
                n == points.len(),
                xs == points@,
                prime > 1,
                i < n,
                xi == xs[i as int],
                j <= n,
                0 <= num < prime,
                0 <= den < prime,
                num == product_except(xs, i as int, j as nat) % (prime as int),
                den == product_of_differences(xs, i as int, j as nat) % (prime as int),
            decreases n - j,
        {
            if j != i {
                let xj = points[j];
                let ghost pn = product_except(xs, i as int, j as nat);
                let ghost pd = product_of_differences(xs, i as int, j as nat);
                assert((num as int) * (xj as int) < 0x7fff_ffff_ffff_ffff * 0x8000_0000_0000_0000
                    && (num as int) * (xj as int) > -0x7fff_ffff_ffff_ffff * 0x8000_0000_0000_0000)
                    by (nonlinear_arith)
                    requires
                        0 <= num < 0x7fff_ffff_ffff_ffff,
                        -0x8000_0000_0000_0000 <= xj < 0x8000_0000_0000_0000,
                ;
                let diff: i128 = (xj as i128) - (xi as i128);
                assert((den as int) * (diff as int) < 0x7fff_ffff_ffff_ffff * 0x1_0000_0000_0000_0000
                    && (den as int) * (diff as int) > -0x7fff_ffff_ffff_ffff
                    * 0x1_0000_0000_0000_0000) by (nonlinear_arith)
                    requires
                        0 <= den < 0x7fff_ffff_ffff_ffff,
                        -0x1_0000_0000_0000_0000 < diff < 0x1_0000_0000_0000_0000,
                ;
                num = residue((num as i128) * (xj as i128), prime);
                den = residue((den as i128) * diff, prime);
                proof {
                    lemma_cong_mod(pn, prime as int);
                    lemma_cong_mul(pn % (prime as int), pn, xj as int, xj as int, prime as int);
                    lemma_cong_mod(pd, prime as int);
                    lemma_cong_mul(pd % (prime as int), pd, diff as int, diff as int, prime as int);
                }
            }
            j = j + 1;
        }
        let inv = mod_pow(den, prime - 2, prime);
        let y = residue(yi as i128, prime);
        assert((y as int) * (num as int) < 0x7fff_ffff_ffff_ffff * 0x7fff_ffff_ffff_ffff)
            by (nonlinear_arith)
            requires
                0 <= y < 0x7fff_ffff_ffff_ffff,
                0 <= num < 0x7fff_ffff_ffff_ffff,
        ;
        let yn = residue((y as i128) * (num as i128), prime);
        assert((yn as int) * (inv as int) < 0x7fff_ffff_ffff_ffff * 0x7fff_ffff_ffff_ffff)
            by (nonlinear_arith)
            requires
                0 <= yn < 0x7fff_ffff_ffff_ffff,
                0 <= inv < 0x7fff_ffff_ffff_ffff,
        ;
        let term = residue((yn as i128) * (inv as i128), prime);
        proof {
            let p = prime as int;
            let pn = product_except(xs, i as int, n as nat);
            let pw = pow(product_of_differences(xs, i as int, n as nat) % p, (p - 2) as nat);
            lemma_cong_mod(yi as int, p);
            lemma_cong_mod(pn, p);
            lemma_cong_mul(y as int, yi as int, num as int, pn, p);
            lemma_cong_mod((yi as int) * pn, p);
            lemma_cong_mod(pw, p);
            lemma_cong_mul(yn as int, (yi as int) * pn, inv as int, pw, p);
            assert(term == lagrange_term(xs, ys, i as int, p));
        }
        acc = residue((acc as i128) + (term as i128), prime);
        i = i + 1;
    }
    acc
}

/// Shamir's secret sharing with `num_shares` parties, of which any
/// `threshold + 1` can reconstruct, modulo `prime`.
pub struct ShamirsSecretSharing {
    pub threshold: usize,
    pub num_shares: usize,
    pub prime: i64,
}

impl ShamirsSecretSharing {
    /// Shares `secret`: the values at `1, ..., num_shares`, modulo `prime`, of
    /// a polynomial of degree `threshold` whose constant coefficient is the
    /// secret and whose other coefficients are drawn from `0..prime - 1`.
    pub fn share(&self, secret: i64) -> (r: Vec<i64>)
        requires
            self.prime > 1,
            self.num_shares < i64::MAX,
            self.num_shares < usize::MAX,
        ensures
            exists|c: Seq<i64>|
                {
                    &&& c.len() == self.threshold + 1
                    &&& c[0] == secret
                    &&& forall|k: int| 1 <= k < c.len() ==> 0 <= #[trigger] c[k] < self.prime - 1
                    &&& r@ == evaluations(c, self.num_shares as nat, self.prime as int)
                },
    {
        let poly = self.sample_polynomial(secret);
        self.evaluate_polynomial(&poly)
    }

    /// A polynomial of degree `threshold` with constant coefficient `secret`
    /// and other coefficients drawn from `0..prime - 1`.
    fn sample_polynomial(&self, secret: i64) -> (r: Vec<i64>)
        requires
            self.prime > 1,
        ensures
            r.len() == self.threshold + 1,
            r[0] == secret,
            forall|k: int| 1 <= k < r.len() ==> 0 <= #[trigger] r[k] < self.prime - 1,
    {
        let mut coefficients: Vec<i64> = vec![secret];
        let vals = sample_below(self.prime - 1, self.threshold);
        let mut k: usize = 0;
        while k < vals.len()
            invariant
                k <= vals.len(),
                coefficients.len() == k + 1,
                coefficients[0] == secret,
                vals.len() == self.threshold,
                forall|i: int| 0 <= i < vals.len() ==> 0 <= #[trigger] vals[i] < self.prime - 1,
                forall|i: int| 1 <= i <= k ==> #[trigger] coefficients[i] == vals[i - 1],
            decreases vals.len() - k,
        {
            coefficients.push(vals[k]);
            k = k + 1;
        }
        assert(k == self.threshold);
        assert(coefficients.len() == self.threshold + 1);
        assert forall|i: int| 1 <= i < coefficients.len() implies 0 <= #[trigger] coefficients[i]
            < self.prime - 1 by {
            assert(coefficients[i] == vals[i - 1]);
        }
        coefficients
    }

    /// The shares of the polynomial `coefficients` (constant first): its
    /// values at `1, ..., num_shares`, modulo `prime`.
    pub fn evaluate_polynomial(&self, coefficients: &[i64]) -> (r: Vec<i64>)
        requires
            self.prime > 0,
            self.num_shares < i64::MAX,
            self.num_shares < usize::MAX,
        ensures
            r@ == evaluations(coefficients@, self.num_shares as nat, self.prime as int),
    {
        let mut out: Vec<i64> = Vec::new();
        let mut point: usize = 1;
        while point < self.num_shares + 1
            invariant
                self.prime > 0,
                self.num_shares < i64::MAX,
                self.num_shares < usize::MAX,
                1 <= point <= self.num_shares + 1,
                out.len() == point - 1,
                forall|j: int| 0 <= j < out.len() ==> #[trigger] out[j] == (poly_eval(coefficients@, j + 1)
                    % (self.prime as int)) as i64,
            decreases self.num_shares + 1 - point,
        {
            let v = mod_evaluate_polynomial(coefficients, point as i64, self.prime);
            out.push(v);
            point = point + 1;
        }
        assert(out@ =~= evaluations(coefficients@, self.num_shares as nat, self.prime as int));
        out
    }

    /// The secret interpolated, modulo `prime`, from the shares of the
    /// parties with the given indices (counted from zero).
    pub fn reconstruct(&self, indices: &[usize], shares: &[i64]) -> (r: i64)
        requires
            shares.len() == indices.len(),
            shares.len() >= self.threshold + 1,
            self.prime > 1,
            forall|k: int| 0 <= k < indices.len() ==> #[trigger] indices[k] < i64::MAX,
        ensures
            r == lagrange_at_zero(party_points(indices@), shares@, self.prime as int),
    {
        let mut points: Vec<i64> = Vec::new();
        let mut k: usize = 0;
        while k < indices.len()
            invariant
                k <= indices.len(),
                forall|m: int| 0 <= m < indices.len() ==> #[trigger] indices[m] < i64::MAX,
                points@ =~= party_points(indices@).subrange(0, k as int),
            decreases indices.len() - k,
        {
            points.push((indices[k] as i64) + 1i64);
            k = k + 1;
        }
        assert(points@ =~= party_points(indices@));
        lagrange_interpolation_at_zero(points.as_slice(), shares, self.prime)
    }
}


/// `s` with the entries at `a` and `a + 1` exchanged.
pub open spec fn swap_adjacent<A>(s: Seq<A>, a: int) -> Seq<A> {
    s.update(a, s[a + 1]).update(a + 1, s[a])
}

/// The position that `k` comes from when the entries at `a` and `a + 1` are
/// exchanged.
pub open spec fn swapped_index(a: int, k: int) -> int {
    if k == a {
        a + 1
    } else if k == a + 1 {
        a
    } else {
        k
    }
}

/// The product of `f(k)` over `k < n`.
spec fn prefix_prod(f: spec_fn(int) -> int, n: nat) -> int
    decreases n,
{
    if n == 0 {
        1
    } else {
        prefix_prod(f, (n - 1) as nat) * f(n - 1)
    }
}

/// The sum modulo `p`, reduced at each step, of `f(k)` over `k < n`.
spec fn prefix_sum_mod(f: spec_fn(int) -> int, n: nat, p: int) -> int
    decreases n,
{
    if n == 0 {
        0
    } else {
        (prefix_sum_mod(f, (n - 1) as nat, p) + f(n - 1)) % p
    }
}

/// A product over a prefix that covers both or neither of two adjacent
/// positions does not change when their factors are exchanged.
proof fn lemma_prefix_prod_swap(f: spec_fn(int) -> int, g: spec_fn(int) -> int, a: int, n: nat)
    requires
        0 <= a,
        n <= a || n >= a + 2,
        forall|k: int| 0 <= k < n ==> #[trigger] g(k) == f(swapped_index(a, k)),
    ensures
        prefix_prod(g, n) == prefix_prod(f, n),
    decreases n,
{
    if n == 0 {
    } else if n <= a || n > a + 2 {
        lemma_prefix_prod_swap(f, g, a, (n - 1) as nat);
        assert(g(n - 1) == f(swapped_index(a, n - 1)));
    } else {
        lemma_prefix_prod_swap(f, g, a, a as nat);
        assert(g(a) == f(a + 1));
        assert(g(a + 1) == f(a));
        let base = prefix_prod(f, a as nat);
        assert(prefix_prod(g, (a + 1) as nat) == base * g(a));
        assert(prefix_prod(f, (a + 1) as nat) == base * f(a));
        assert(base * f(a + 1) * f(a) == base * f(a) * f(a + 1)) by (nonlinear_arith);
    }
}

/// A sum modulo `p` over a prefix that covers both or neither of two adjacent
/// positions does not change when their terms are exchanged.
proof fn lemma_prefix_sum_mod_swap(f: spec_fn(int) -> int, g: spec_fn(int) -> int, a: int, n: nat, p: int)
    requires
        0 <= a,
        p > 0,
        n <= a || n >= a + 2,
        forall|k: int| 0 <= k < n ==> #[trigger] g(k) == f(swapped_index(a, k)),
    ensures
        prefix_sum_mod(g, n, p) == prefix_sum_mod(f, n, p),
    decreases n,
{
    if n == 0 {
    } else if n <= a || n > a + 2 {
        lemma_prefix_sum_mod_swap(f, g, a, (n - 1) as nat, p);
        assert(g(n - 1) == f(swapped_index(a, n - 1)));
    } else {
        lemma_prefix_sum_mod_swap(f, g, a, a as nat, p);
        assert(g(a) == f(a + 1));
        assert(g(a + 1) == f(a));
        let base = prefix_sum_mod(f, a as nat, p);
        assert(prefix_sum_mod(g, (a + 1) as nat, p) == (base + f(a + 1)) % p);
        assert(prefix_sum_mod(g, (a + 2) as nat, p) == ((base + f(a + 1)) % p + f(a)) % p);
        assert(prefix_sum_mod(f, (a + 1) as nat, p) == (base + f(a)) % p);
        assert(prefix_sum_mod(f, (a + 2) as nat, p) == ((base + f(a)) % p + f(a + 1)) % p);
        lemma_cong_mod(base + f(a + 1), p);
        lemma_cong_add((base + f(a + 1)) % p, base + f(a + 1), f(a), f(a), p);
        lemma_cong_mod(base + f(a), p);
        lemma_cong_add((base + f(a)) % p, base + f(a), f(a + 1), f(a + 1), p);
        assert(base + f(a + 1) + f(a) == base + f(a) + f(a + 1));
    }
}

/// `product_except` is a prefix product.
proof fn lemma_product_except_is_prefix_prod(xs: Seq<i64>, i: int, n: nat)
    ensures
        product_except(xs, i, n) == prefix_prod(|k: int| if k == i { 1 } else { xs[k] as int }, n),
    decreases n,
{
    if n > 0 {
        lemma_product_except_is_prefix_prod(xs, i, (n - 1) as nat);
    }
}

/// `product_of_differences` is a prefix product.
proof fn lemma_product_of_differences_is_prefix_prod(xs: Seq<i64>, i: int, n: nat)
    ensures
        product_of_differences(xs, i, n) == prefix_prod(
            |k: int| if k == i { 1 } else { xs[k] - xs[i] },
            n,
        ),
    decreases n,
{
    if n > 0 {
        lemma_product_of_differences_is_prefix_prod(xs, i, (n - 1) as nat);
    }
}

/// `lagrange_sum` is a prefix sum of the Lagrange terms.
proof fn lemma_lagrange_sum_is_prefix_sum(xs: Seq<i64>, ys: Seq<i64>, n: nat, p: int)
    ensures
        lagrange_sum(xs, ys, n, p) == prefix_sum_mod(|k: int| lagrange_term(xs, ys, k, p), n, p),
    decreases n,
{
    if n > 0 {
        lemma_lagrange_sum_is_prefix_sum(xs, ys, (n - 1) as nat, p);
    }
}

/// Exchanging two adjacent points (with their values) moves their Lagrange
/// terms and leaves every term the same.
proof fn lemma_lagrange_term_swap(xs: Seq<i64>, ys: Seq<i64>, a: int, i: int, p: int)
    requires
        xs.len() == ys.len(),
        0 <= a,
        a + 1 < xs.len(),
        0 <= i < xs.len(),
    ensures
        lagrange_term(swap_adjacent(xs, a), swap_adjacent(ys, a), i, p) == lagrange_term(
            xs,
            ys,
            swapped_index(a, i),
            p,
        ),
{
    let xs2 = swap_adjacent(xs, a);
    let ys2 = swap_adjacent(ys, a);
    let si = swapped_index(a, i);
    let n = xs.len();
    assert(xs2.len() == n);
    assert forall|k: int| 0 <= k < n implies #[trigger] xs2[k] == xs[swapped_index(a, k)] by {}
    lemma_product_except_is_prefix_prod(xs2, i, n);
    lemma_product_except_is_prefix_prod(xs, si, n);
    let f1 = |k: int| if k == si { 1 } else { xs[k] as int };
    let g1 = |k: int| if k == i { 1 } else { xs2[k] as int };
    assert forall|k: int| 0 <= k < n implies #[trigger] g1(k) == f1(swapped_index(a, k)) by {
        assert(xs2[k] == xs[swapped_index(a, k)]);
    }
    lemma_prefix_prod_swap(f1, g1, a, n);
    lemma_product_of_differences_is_prefix_prod(xs2, i, n);
    lemma_product_of_differences_is_prefix_prod(xs, si, n);
    let f2 = |k: int| if k == si { 1 } else { xs[k] - xs[si] };
    let g2 = |k: int| if k == i { 1 } else { xs2[k] - xs2[i] };
    assert forall|k: int| 0 <= k < n implies #[trigger] g2(k) == f2(swapped_index(a, k)) by {
        assert(xs2[k] == xs[swapped_index(a, k)]);
        assert(xs2[i] == xs[si]);
    }
    lemma_prefix_prod_swap(f2, g2, a, n);
    assert(ys2[i] == ys[si]);
}

/// The interpolation at zero does not depend on the order in which the
/// points are given: exchanging two adjacent points together with their
/// values leaves it unchanged (and, exchange after exchange, so does any
/// reordering).
pub proof fn interpolation_ignores_the_order_of_the_points(xs: Seq<i64>, ys: Seq<i64>, a: int, p: int)
    requires
        xs.len() == ys.len(),
        0 <= a,
        a + 1 < xs.len(),
        p > 0,
    ensures
        lagrange_at_zero(swap_adjacent(xs, a), swap_adjacent(ys, a), p) == lagrange_at_zero(
            xs,
            ys,
            p,
        ),
{
    let xs2 = swap_adjacent(xs, a);
    let ys2 = swap_adjacent(ys, a);
    let n = xs.len();
    lemma_lagrange_sum_is_prefix_sum(xs2, ys2, n, p);
    lemma_lagrange_sum_is_prefix_sum(xs, ys, n, p);
    let f = |k: int| lagrange_term(xs, ys, k, p);
    let g = |k: int| lagrange_term(xs2, ys2, k, p);
    assert forall|k: int| 0 <= k < n implies #[trigger] g(k) == f(swapped_index(a, k)) by {
        lemma_lagrange_term_swap(xs, ys, a, k, p);
    }
    lemma_prefix_sum_mod_swap(f, g, a, n, p);
}

/// Reconstruction does not depend on the order in which the parties are
/// listed: exchanging two adjacent parties together with their shares gives
/// the same secret.
pub proof fn reconstruction_ignores_the_order_of_the_parties(
    indices: Seq<usize>,
    shares: Seq<i64>,
    a: int,
    prime: int,
)
    requires
        indices.len() == shares.len(),
        0 <= a,
        a + 1 < indices.len(),
        prime > 0,
    ensures
        lagrange_at_zero(party_points(swap_adjacent(indices, a)), swap_adjacent(shares, a), prime)
            == lagrange_at_zero(party_points(indices), shares, prime),
{
    assert(party_points(swap_adjacent(indices, a)) =~= swap_adjacent(party_points(indices), a));
    interpolation_ignores_the_order_of_the_points(party_points(indices), shares, a, prime);
}


/// With a single point, interpolation at zero gives its value back, modulo
/// `p`: a polynomial of degree zero is its constant term.
pub proof fn interpolation_of_one_point(x: i64, y: i64, p: int)
    requires
        p > 1,
    ensures
        lagrange_at_zero(seq![x], seq![y], p) == (y as int) % p,
{
    let xs = seq![x];
    let ys = seq![y];
    reveal_with_fuel(product_except, 2);
    reveal_with_fuel(product_of_differences, 2);
    assert(product_except(xs, 0, 1) == 1);
    assert(product_of_differences(xs, 0, 1) == 1);
    vstd::arithmetic::div_mod::lemma_small_mod(1, p as nat);
    vstd::arithmetic::power::lemma1_pow((p - 2) as nat);
    assert(lagrange_term(xs, ys, 0, p) == (y as int) % p);
    lemma_cong_mod(y as int, p);
    assert(lagrange_sum(xs, ys, 0, p) == 0);
}

/// Interpolation at zero is linear in the values: for values `ys3` that are
/// the sums of `ys1` and `ys2` modulo `p`, at the same points, the result is
/// the sum of the two results modulo `p`.
pub proof fn interpolation_is_linear_in_the_values(
    xs: Seq<i64>,
    ys1: Seq<i64>,
    ys2: Seq<i64>,
    ys3: Seq<i64>,
    p: int,
)
    requires
        p > 0,
        ys1.len() == xs.len(),
        ys2.len() == xs.len(),
        ys3.len() == xs.len(),
        forall|i: int|
            0 <= i < xs.len() ==> (#[trigger] ys3[i] as int) % p == (ys1[i] + ys2[i]) % p,
    ensures
        lagrange_at_zero(xs, ys3, p) == (lagrange_at_zero(xs, ys1, p) + lagrange_at_zero(xs, ys2, p))
            % p,
{
    lemma_interpolation_linear_prefix(xs, ys1, ys2, ys3, p, xs.len());
}

/// The prefix sums of the Lagrange terms are linear in the values.
proof fn lemma_interpolation_linear_prefix(
    xs: Seq<i64>,
    ys1: Seq<i64>,
    ys2: Seq<i64>,
    ys3: Seq<i64>,
    p: int,
    n: nat,
)
    requires
        p > 0,
        n <= xs.len(),
        ys1.len() == xs.len(),
        ys2.len() == xs.len(),
        ys3.len() == xs.len(),
        forall|i: int|
            0 <= i < xs.len() ==> (#[trigger] ys3[i] as int) % p == (ys1[i] + ys2[i]) % p,
    ensures
        lagrange_sum(xs, ys3, n, p) == (lagrange_sum(xs, ys1, n, p) + lagrange_sum(xs, ys2, n, p))
            % p,
    decreases n,
{
    if n == 0 {
        assert(0int % p == 0);
    } else {
        let k = n - 1;
        lemma_interpolation_linear_prefix(xs, ys1, ys2, ys3, p, (n - 1) as nat);
        let aa = product_except(xs, k, xs.len());
        let bb = pow(product_of_differences(xs, k, xs.len()) % p, (p - 2) as nat);
        let w = aa * bb;
        let t1 = lagrange_term(xs, ys1, k, p);
        let t2 = lagrange_term(xs, ys2, k, p);
        let t3 = lagrange_term(xs, ys3, k, p);
        let y1 = ys1[k] as int;
        let y2 = ys2[k] as int;
        let y3 = ys3[k] as int;
        assert(y1 * aa * bb == y1 * (aa * bb)) by (nonlinear_arith);
        assert(y2 * aa * bb == y2 * (aa * bb)) by (nonlinear_arith);
        assert(y3 * aa * bb == y3 * (aa * bb)) by (nonlinear_arith);
        assert(t1 == (y1 * w) % p);
        assert(t2 == (y2 * w) % p);
        assert(t3 == (y3 * w) % p);
        // t3 = (y1 + y2) w = t1 + t2 (mod p)
        lemma_cong_mul(y3, y1 + y2, w, w, p);
        assert((y1 + y2) * w == y1 * w + y2 * w) by (nonlinear_arith);
        lemma_cong_mod(y1 * w, p);
        lemma_cong_mod(y2 * w, p);
        lemma_cong_mod(y3 * w, p);
        lemma_cong_add(t1, y1 * w, t2, y2 * w, p);
        assert(t3 % p == (t1 + t2) % p);
        // sums
        let s1 = lagrange_sum(xs, ys1, (n - 1) as nat, p);
        let s2 = lagrange_sum(xs, ys2, (n - 1) as nat, p);
        let s3 = lagrange_sum(xs, ys3, (n - 1) as nat, p);
        lemma_cong_mod(s1 + s2, p);
        lemma_cong_add(s3, s1 + s2, t3, t1 + t2, p);
        lemma_cong_mod(s1 + t1, p);
        lemma_cong_mod(s2 + t2, p);
        lemma_cong_add((s1 + t1) % p, s1 + t1, (s2 + t2) % p, s2 + t2, p);
        assert(s1 + s2 + (t1 + t2) == (s1 + t1) + (s2 + t2));
        lemma_cong_mod(s3 + t3, p);
    }
}

/// The product of `z - xs[j]` over the `j < m` other than `i`.
pub open spec fn vanishing_product(xs: Seq<i64>, i: int, m: nat, z: int) -> int
    decreases m,
{
    if m == 0 {
        1
    } else if m - 1 == i {
        vanishing_product(xs, i, (m - 1) as nat, z)
    } else {
        vanishing_product(xs, i, (m - 1) as nat, z) * (z - xs[m - 1])
    }
}

/// The coefficients of `vanishing_product(xs, i, m, z)` as a polynomial in `z`.
spec fn basis_polynomial(xs: Seq<i64>, i: int, m: nat) -> Seq<int>
    decreases m,
{
    if m == 0 {
        seq![1int]
    } else if m - 1 == i {
        basis_polynomial(xs, i, (m - 1) as nat)
    } else {
        mul_linear(basis_polynomial(xs, i, (m - 1) as nat), xs[m - 1] as int)
    }
}

/// `-1` to the number of `j < m` other than `i`.
spec fn basis_sign(i: int, m: nat) -> int
    decreases m,
{
    if m == 0 {
        1
    } else if m - 1 == i {
        basis_sign(i, (m - 1) as nat)
    } else {
        -basis_sign(i, (m - 1) as nat)
    }
}

/// The weights that make the Lagrange polynomial a combination of the
/// vanishing products: each value times the sign and the inverse of its
/// denominator.
spec fn interpolation_weights(xs: Seq<i64>, ys: Seq<i64>, p: int) -> Seq<int> {
    Seq::new(
        xs.len(),
        |i: int|
            basis_sign(i, xs.len()) * ys[i] * pow(
                product_of_differences(xs, i, xs.len()) % p,
                (p - 2) as nat,
            ),
    )
}

/// The polynomial `sum_{i < m} cs[i] vanishing_product(xs, i, |xs|, z)`.
spec fn interpolant(xs: Seq<i64>, cs: Seq<int>, m: nat) -> Seq<int>
    decreases m,
{
    if m == 0 {
        Seq::empty()
    } else {
        poly_add(
            interpolant(xs, cs, (m - 1) as nat),
            poly_scale(cs[m - 1], basis_polynomial(xs, m - 1, xs.len())),
        )
    }
}

/// The value of `interpolant(xs, cs, m)` at `z`.
spec fn basis_combination(xs: Seq<i64>, cs: Seq<int>, m: nat, z: int) -> int
    decreases m,
{
    if m == 0 {
        0
    } else {
        basis_combination(xs, cs, (m - 1) as nat, z) + cs[m - 1] * vanishing_product(
            xs,
            m - 1,
            xs.len(),
            z,
        )
    }
}

/// The coefficients `c` as integers.
spec fn integer_coefficients(c: Seq<i64>) -> Seq<int> {
    Seq::new(c.len(), |k: int| c[k] as int)
}

proof fn lemma_integer_coefficients(c: Seq<i64>, x: int)
    ensures
        eval(integer_coefficients(c), x) == poly_eval(c, x),
    decreases c.len(),
{
    if c.len() > 0 {
        assert(integer_coefficients(c).drop_first() =~= integer_coefficients(c.drop_first()));
        lemma_integer_coefficients(c.drop_first(), x);
    }
}

proof fn lemma_basis_polynomial(xs: Seq<i64>, i: int, m: nat, z: int)
    requires
        0 <= i,
    ensures
        eval(basis_polynomial(xs, i, m), z) == vanishing_product(xs, i, m, z),
        basis_polynomial(xs, i, m).len() == (if i < m {
            m as int
        } else {
            m + 1int
        }),
    decreases m,
{
    if m == 0 {
        let one = seq![1int];
        assert(one.drop_first().len() == 0);
        assert(eval(one, z) == 1 + z * eval(one.drop_first(), z));
        assert(z * 0 == 0) by (nonlinear_arith);
    } else {
        lemma_basis_polynomial(xs, i, (m - 1) as nat, z);
        if m - 1 != i {
            lemma_eval_mul_linear(basis_polynomial(xs, i, (m - 1) as nat), xs[m - 1] as int, z);
            let v = vanishing_product(xs, i, (m - 1) as nat, z);
            let f = z - xs[m - 1];
            assert(f * v == v * f) by (nonlinear_arith);
        }
    }
}

/// At its own point the vanishing product is the product of differences, and
/// at zero the product of the other points, both up to the same sign.
proof fn lemma_vanishing_product_values(xs: Seq<i64>, i: int, m: nat)
    requires
        0 <= i,
    ensures
        vanishing_product(xs, i, m, xs[i] as int) == basis_sign(i, m) * product_of_differences(
            xs,
            i,
            m,
        ),
        vanishing_product(xs, i, m, 0) == basis_sign(i, m) * product_except(xs, i, m),
        basis_sign(i, m) * basis_sign(i, m) == 1,
    decreases m,
{
    if m > 0 {
        lemma_vanishing_product_values(xs, i, (m - 1) as nat);
        if m - 1 != i {
            let s = basis_sign(i, (m - 1) as nat);
            let d = product_of_differences(xs, i, (m - 1) as nat);
            let e = product_except(xs, i, (m - 1) as nat);
            let xi = xs[i] as int;
            let xl = xs[m - 1] as int;
            assert((s * d) * (xi - xl) == (-s) * (d * (xl - xi))) by (nonlinear_arith);
            assert((s * e) * (0 - xl) == (-s) * (e * xl)) by (nonlinear_arith);
            assert((-s) * (-s) == s * s) by (nonlinear_arith);
        }
    }
}

/// The vanishing product of `i` is zero at every other point.
proof fn lemma_vanishing_product_zero(xs: Seq<i64>, i: int, m: nat, k: int)
    requires
        0 <= k < m,
        k != i,
    ensures
        vanishing_product(xs, i, m, xs[k] as int) == 0,
    decreases m,
{
    let prev = vanishing_product(xs, i, (m - 1) as nat, xs[k] as int);
    if m - 1 == k {
        assert(prev * 0 == 0) by (nonlinear_arith);
    } else {
        lemma_vanishing_product_zero(xs, i, (m - 1) as nat, k);
        let f = xs[k] - xs[m - 1];
        assert(0 * f == 0) by (nonlinear_arith);
    }
}

proof fn lemma_interpolant(xs: Seq<i64>, cs: Seq<int>, m: nat, z: int)
    requires
        m <= xs.len(),
    ensures
        eval(interpolant(xs, cs, m), z) == basis_combination(xs, cs, m, z),
        interpolant(xs, cs, m).len() <= xs.len(),
    decreases m,
{
    if m > 0 {
        lemma_interpolant(xs, cs, (m - 1) as nat, z);
        let b = basis_polynomial(xs, m - 1, xs.len());
        lemma_basis_polynomial(xs, m - 1, xs.len(), z);
        lemma_eval_scale(cs[m - 1], b, z);
        lemma_eval_add(interpolant(xs, cs, (m - 1) as nat), poly_scale(cs[m - 1], b), z);
    }
}

/// At a point, only that point's term of the combination survives.
proof fn lemma_combination_at_point(xs: Seq<i64>, cs: Seq<int>, m: nat, k: int)
    requires
        m <= xs.len(),
        0 <= k < xs.len(),
    ensures
        basis_combination(xs, cs, m, xs[k] as int) == (if k < m {
            cs[k] * vanishing_product(xs, k, xs.len(), xs[k] as int)
        } else {
            0
        }),
    decreases m,
{
    if m > 0 {
        lemma_combination_at_point(xs, cs, (m - 1) as nat, k);
        if m - 1 != k {
            lemma_vanishing_product_zero(xs, m - 1, xs.len(), k);
            let w = cs[m - 1];
            assert(w * 0 == 0) by (nonlinear_arith);
        }
    }
}

/// At zero, the combination with the interpolation weights is the Lagrange
/// sum, modulo `p`.
proof fn lemma_combination_at_zero(xs: Seq<i64>, ys: Seq<i64>, p: int, m: nat)
    requires
        p > 0,
        m <= xs.len(),
        ys.len() == xs.len(),
    ensures
        lagrange_sum(xs, ys, m, p) == basis_combination(xs, interpolation_weights(xs, ys, p), m, 0)
            % p,
    decreases m,
{
    let cs = interpolation_weights(xs, ys, p);
    if m == 0 {
        assert(0int % p == 0);
    } else {
        lemma_combination_at_zero(xs, ys, p, (m - 1) as nat);
        let i = m - 1;
        let n = xs.len();
        lemma_vanishing_product_values(xs, i, n);
        let s = basis_sign(i, n);
        let w = pow(product_of_differences(xs, i, n) % p, (p - 2) as nat);
        let e = product_except(xs, i, n);
        let y = ys[i] as int;
        let v = vanishing_product(xs, i, n, 0);
        assert(cs[i] == s * y * w);
        assert(cs[i] * v == y * e * w) by (nonlinear_arith)
            requires
                cs[i] == s * y * w,
                v == s * e,
                s * s == 1,
        ;
        let prev = basis_combination(xs, cs, (m - 1) as nat, 0);
        lemma_cong_mod(prev, p);
        lemma_cong_mod(y * e * w, p);
        lemma_cong_add(prev % p, prev, (y * e * w) % p, y * e * w, p);
    }
}

/// Modulo a prime, the product of the differences to a point is not zero when
/// the point differs from all the others.
proof fn lemma_differences_not_divisible(xs: Seq<i64>, i: int, m: nat, p: nat)
    requires
        is_prime(p),
        0 <= i < xs.len(),
        m <= xs.len(),
        forall|j: int| 0 <= j < xs.len() && j != i ==> (#[trigger] xs[j] - xs[i]) % (p as int) != 0,
    ensures
        product_of_differences(xs, i, m) % (p as int) != 0,
    decreases m,
{
    if m == 0 {
        lemma_small_mod(1, p);
    } else {
        lemma_differences_not_divisible(xs, i, (m - 1) as nat, p);
        if m - 1 != i {
            assert((xs[m - 1] - xs[i]) % (p as int) != 0);
            lemma_product_not_divisible(
                product_of_differences(xs, i, (m - 1) as nat),
                xs[m - 1] - xs[i],
                p,
            );
        }
    }
}

/// Different residues differ by a number that the modulus does not divide.
proof fn lemma_distinct_residues(u: int, v: int, p: int)
    requires
        p > 0,
        u % p != v % p,
    ensures
        (u - v) % p != 0,
{
    lemma_sub_mod_noop(u, v, p);
    let d = u % p - v % p;
    if d > 0 {
        lemma_small_mod(d as nat, p as nat);
    } else {
        lemma_mod_add_multiples_vanish(d, p);
        lemma_small_mod((p + d) as nat, p as nat);
    }
}

/// Interpolation recovers the polynomial: for points pairwise distinct modulo
/// a prime `p`, with values that are, modulo `p`, those of a polynomial `c`
/// (constant first) with no more coefficients than there are points, the
/// interpolation at zero is the constant coefficient of `c` modulo `p`.
pub proof fn interpolation_gives_the_constant_coefficient(
    c: Seq<i64>,
    xs: Seq<i64>,
    ys: Seq<i64>,
    p: nat,
)
    requires
        is_prime(p),
        1 <= c.len() <= xs.len(),
        ys.len() == xs.len(),
        forall|i: int, j: int|
            0 <= i < xs.len() && 0 <= j < xs.len() && i != j ==> (#[trigger] xs[i] as int) % (
            p as int) != (#[trigger] xs[j] as int) % (p as int),
        forall|k: int|
            0 <= k < xs.len() ==> (#[trigger] ys[k] as int) % (p as int) == poly_eval(
                c,
                xs[k] as int,
            ) % (p as int),
    ensures
        lagrange_at_zero(xs, ys, p as int) == (c[0] as int) % (p as int),
{
    let pi = p as int;
    let n = xs.len();
    let cs = interpolation_weights(xs, ys, pi);
    let big_p = integer_coefficients(c);
    let l = interpolant(xs, cs, n);
    let q = poly_add(big_p, poly_scale(-1, l));
    let pts = Seq::new(n, |k: int| xs[k] as int);
    lemma_interpolant(xs, cs, n, 0);
    assert(q.len() <= n);
    assert forall|i: int, j: int| 0 <= i < n && 0 <= j < n && i != j implies (#[trigger] pts[i]
        - #[trigger] pts[j]) % pi != 0 by {
        lemma_distinct_residues(xs[i] as int, xs[j] as int, pi);
    }
    assert forall|k: int| 0 <= k < n implies #[trigger] eval(q, pts[k]) % pi == 0 by {
        let x = xs[k] as int;
        assert(pts[k] == x);
        lemma_interpolant(xs, cs, n, x);
        lemma_combination_at_point(xs, cs, n, k);
        lemma_vanishing_product_values(xs, k, n);
        assert forall|j: int| 0 <= j < n && j != k implies (#[trigger] xs[j] - xs[k]) % pi != 0 by {
            lemma_distinct_residues(xs[j] as int, xs[k] as int, pi);
        }
        lemma_differences_not_divisible(xs, k, n, p);
        let d = product_of_differences(xs, k, n);
        let w = pow(d % pi, (p - 2) as nat);
        lemma_inverse_by_fermat(d, p);
        let s = basis_sign(k, n);
        let y = ys[k] as int;
        let v = vanishing_product(xs, k, n, x);
        assert(cs[k] == s * y * w);
        assert(cs[k] * v == y * (d * w)) by (nonlinear_arith)
            requires
                cs[k] == s * y * w,
                v == s * d,
                s * s == 1,
        ;
        lemma_cong_mod(y, pi);
        lemma_small_mod(1, p);
        lemma_cong_mul(y, y, d * w, 1, pi);
        lemma_eval_add(big_p, poly_scale(-1, l), x);
        lemma_eval_scale(-1, l, x);
        lemma_integer_coefficients(c, x);
        lemma_cong_sub(poly_eval(c, x), y, eval(l, x), y, pi);
        assert(0int % pi == 0);
    }
    lemma_vanishing_at_zero(q, pts, p);
    lemma_eval_add(big_p, poly_scale(-1, l), 0);
    lemma_eval_scale(-1, l, 0);
    lemma_integer_coefficients(c, 0);
    lemma_combination_at_zero(xs, ys, pi, n);
    assert(poly_eval(c, 0) == c[0] + 0 * poly_eval(c.drop_first(), 0));
    let p0 = poly_eval(c, 0);
    let l0 = eval(l, 0);
    assert(0int % pi == 0);
    lemma_cong_add(p0 - l0, 0, l0, l0, pi);
}

/// Reconstruction recovers the secret: the shares of the polynomial `c`
/// handed to `num_shares` parties, taken from distinct parties in any order,
/// at least as many as `c` has coefficients, give back the constant
/// coefficient of `c` modulo the prime (the parties' points, index plus one,
/// staying below the prime).
pub proof fn reconstruction_gives_the_secret(
    c: Seq<i64>,
    num_shares: nat,
    indices: Seq<usize>,
    shares: Seq<i64>,
    prime: nat,
)
    requires
        is_prime(prime),
        prime <= i64::MAX,
        1 <= c.len() <= indices.len(),
        shares.len() == indices.len(),
        indices.no_duplicates(),
        forall|k: int|
            0 <= k < indices.len() ==> #[trigger] indices[k] < num_shares && indices[k] + 1 < prime,
        forall|k: int|
            0 <= k < indices.len() ==> #[trigger] shares[k] == evaluations(
                c,
                num_shares,
                prime as int,
            )[indices[k] as int],
    ensures
        lagrange_at_zero(party_points(indices), shares, prime as int) == (c[0] as int) % (
        prime as int),
{
    let xs = party_points(indices);
    let pi = prime as int;
    assert forall|i: int, j: int| 0 <= i < xs.len() && 0 <= j < xs.len() && i != j implies (
    #[trigger] xs[i] as int) % pi != (#[trigger] xs[j] as int) % pi by {
        assert(xs[i] == indices[i] + 1);
        assert(xs[j] == indices[j] + 1);
        lemma_small_mod(xs[i] as nat, prime);
        lemma_small_mod(xs[j] as nat, prime);
        assert(indices[i] != indices[j]);
    }
    assert forall|k: int| 0 <= k < xs.len() implies (#[trigger] shares[k] as int) % pi == poly_eval(
        c,
        xs[k] as int,
    ) % pi by {
        assert(indices[k] < num_shares);
        let v = poly_eval(c, indices[k] + 1);
        assert(xs[k] == indices[k] + 1);
        assert(shares[k] == (v % pi) as i64);
        lemma_cong_mod(v, pi);
    }
    interpolation_gives_the_constant_coefficient(c, xs, shares, prime);
}

} // verus!

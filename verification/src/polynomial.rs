//! Polynomials with integer coefficients, held as coefficient sequences with
//! the constant first, and the fact behind interpolation: a polynomial with
//! fewer than `n` coefficients that vanishes modulo a prime at `n` points,
//! pairwise distinct modulo that prime, vanishes there at zero too.
use crate::bignat::is_prime;
use crate::linear::{lemma_cong_add, lemma_cong_mod, lemma_cong_mul};
use crate::pedersen::lemma_prime_product_nonzero;
use vstd::arithmetic::div_mod::*;
use vstd::prelude::*;

verus! {

/// The value at `x` of the polynomial with coefficients `q`.
pub open spec fn eval(q: Seq<int>, x: int) -> int
    decreases q.len(),
{
    if q.len() == 0 {
        0
    } else {
        q[0] + x * eval(q.drop_first(), x)
    }
}

/// The coefficient of `x^j` in `q` (zero past its end).
pub open spec fn coeff(q: Seq<int>, j: int) -> int {
    if 0 <= j < q.len() {
        q[j]
    } else {
        0
    }
}

/// `q` without its constant coefficient (the empty polynomial stays empty).
pub open spec fn tail(q: Seq<int>) -> Seq<int> {
    if q.len() == 0 {
        q
    } else {
        q.drop_first()
    }
}

/// The sum of two polynomials.
pub open spec fn poly_add(q1: Seq<int>, q2: Seq<int>) -> Seq<int> {
    Seq::new(
        if q1.len() >= q2.len() {
            q1.len()
        } else {
            q2.len()
        },
        |j: int| coeff(q1, j) + coeff(q2, j),
    )
}

/// `k` times a polynomial.
pub open spec fn poly_scale(k: int, q: Seq<int>) -> Seq<int> {
    Seq::new(q.len(), |j: int| k * q[j])
}

/// `q` with `k` added to its constant coefficient.
pub open spec fn plus_const(q: Seq<int>, k: int) -> Seq<int> {
    if q.len() == 0 {
        seq![k]
    } else {
        q.update(0, q[0] + k)
    }
}

/// The product of `q` with `x - a`.
pub open spec fn mul_linear(q: Seq<int>, a: int) -> Seq<int>
    decreases q.len(),
{
    if q.len() == 0 {
        Seq::empty()
    } else {
        seq![-a * q[0]] + plus_const(mul_linear(q.drop_first(), a), q[0])
    }
}

/// The quotient of `q - q(a)` by `x - a`.
pub open spec fn synthetic_division(q: Seq<int>, a: int) -> Seq<int>
    decreases q.len(),
{
    if q.len() <= 1 {
        Seq::empty()
    } else {
        seq![eval(q.drop_first(), a)] + synthetic_division(q.drop_first(), a)
    }
}

proof fn lemma_eval_unfold(q: Seq<int>, x: int)
    ensures
        eval(q, x) == coeff(q, 0) + x * eval(tail(q), x),
{
    if q.len() == 0 {
        assert(x * 0 == 0) by (nonlinear_arith);
    }
}

/// Evaluation adds.
pub proof fn lemma_eval_add(q1: Seq<int>, q2: Seq<int>, x: int)
    ensures
        eval(poly_add(q1, q2), x) == eval(q1, x) + eval(q2, x),
    decreases q1.len() + q2.len(),
{
    let s = poly_add(q1, q2);
    if s.len() > 0 {
        assert(tail(s) =~= poly_add(tail(q1), tail(q2)));
        lemma_eval_add(tail(q1), tail(q2), x);
        lemma_eval_unfold(s, x);
        lemma_eval_unfold(q1, x);
        lemma_eval_unfold(q2, x);
        let e1 = eval(tail(q1), x);
        let e2 = eval(tail(q2), x);
        assert(x * (e1 + e2) == x * e1 + x * e2) by (nonlinear_arith);
    }
}

/// Evaluation commutes with scaling.
pub proof fn lemma_eval_scale(k: int, q: Seq<int>, x: int)
    ensures
        eval(poly_scale(k, q), x) == k * eval(q, x),
        poly_scale(k, q).len() == q.len(),
    decreases q.len(),
{
    if q.len() > 0 {
        assert(poly_scale(k, q).drop_first() =~= poly_scale(k, q.drop_first()));
        lemma_eval_scale(k, q.drop_first(), x);
        let e = eval(q.drop_first(), x);
        assert(k * q[0] + x * (k * e) == k * (q[0] + x * e)) by (nonlinear_arith);
    }
}

/// Multiplying by `x - a` multiplies the value by `x - a`, and adds one
/// coefficient.
pub proof fn lemma_eval_mul_linear(q: Seq<int>, a: int, x: int)
    ensures
        eval(mul_linear(q, a), x) == (x - a) * eval(q, x),
        mul_linear(q, a).len() == (if q.len() == 0 {
            0
        } else {
            q.len() + 1
        }),
    decreases q.len(),
{
    if q.len() > 0 {
        let t = q.drop_first();
        let m = mul_linear(t, a);
        lemma_eval_mul_linear(t, a, x);
        let pc = plus_const(m, q[0]);
        if m.len() == 0 {
            assert(pc.drop_first().len() == 0);
            assert(eval(pc, x) == q[0] + x * eval(pc.drop_first(), x));
            assert(eval(m, x) == 0);
            assert(x * 0 == 0) by (nonlinear_arith);
        } else {
            assert(pc.drop_first() =~= m.drop_first());
        }
        assert(eval(pc, x) == eval(m, x) + q[0]);
        let r = mul_linear(q, a);
        assert(r.drop_first() =~= pc);
        let et = eval(t, x);
        let q0 = q[0];
        assert(-a * q0 + x * ((x - a) * et + q0) == (x - a) * (q0 + x * et)) by (nonlinear_arith);
    }
}

/// `q(x) = (x - a) d(x) + q(a)` for the synthetic quotient `d`, which is
/// shorter than `q`.
pub proof fn lemma_synthetic_division(q: Seq<int>, a: int, x: int)
    ensures
        eval(q, x) == (x - a) * eval(synthetic_division(q, a), x) + eval(q, a),
        q.len() == 0 || synthetic_division(q, a).len() < q.len(),
    decreases q.len(),
{
    if q.len() == 1 {
        assert(eval(q.drop_first(), x) == 0);
        assert(eval(q.drop_first(), a) == 0);
        assert(x * 0 == 0 && a * 0 == 0 && (x - a) * 0 == 0) by (nonlinear_arith);
    } else if q.len() > 1 {
        let t = q.drop_first();
        let s = synthetic_division(t, a);
        lemma_synthetic_division(t, a, x);
        let r = synthetic_division(q, a);
        assert(r.drop_first() =~= s);
        let ta = eval(t, a);
        let es = eval(s, x);
        let q0 = q[0];
        assert(eval(r, x) == ta + x * es);
        assert(q0 + x * ((x - a) * es + ta) == (x - a) * (ta + x * es) + (q0 + a * ta))
            by (nonlinear_arith);
    }
}

/// Modulo a prime, a product of two numbers that it does not divide is not
/// divisible by it.
pub proof fn lemma_product_not_divisible(u: int, v: int, p: nat)
    requires
        is_prime(p),
        u % (p as int) != 0,
        v % (p as int) != 0,
    ensures
        (u * v) % (p as int) != 0,
{
    let pi = p as int;
    let a = u % pi;
    let b = v % pi;
    lemma_cong_mod(u, pi);
    lemma_cong_mod(v, pi);
    lemma_prime_product_nonzero(p, a as nat, b as nat);
    lemma_cong_mul(a, u, b, v, pi);
}

/// A polynomial with no more coefficients than there are points, pairwise
/// distinct modulo a prime, that vanishes modulo the prime at each point
/// vanishes modulo the prime at zero.
pub proof fn lemma_vanishing_at_zero(q: Seq<int>, xs: Seq<int>, p: nat)
    requires
        is_prime(p),
        q.len() <= xs.len(),
        forall|i: int, j: int|
            0 <= i < xs.len() && 0 <= j < xs.len() && i != j ==> (#[trigger] xs[i]
                - #[trigger] xs[j]) % (p as int) != 0,
        forall|i: int| 0 <= i < xs.len() ==> #[trigger] eval(q, xs[i]) % (p as int) == 0,
    ensures
        eval(q, 0) % (p as int) == 0,
    decreases xs.len(),
{
    let pi = p as int;
    if xs.len() == 0 {
        assert(q.len() == 0);
        assert(0int % pi == 0);
    } else {
        let n = xs.len();
        let a = xs[n - 1];
        let r = synthetic_division(q, a);
        let ys = xs.drop_last();
        lemma_synthetic_division(q, a, 0);
        assert(eval(q, xs[n - 1]) % pi == 0);
        assert(0int % pi == 0);
        assert forall|i: int| 0 <= i < ys.len() implies #[trigger] eval(r, ys[i]) % pi == 0 by {
            assert(ys[i] == xs[i]);
            lemma_synthetic_division(q, a, xs[i]);
            assert(eval(q, xs[i]) % pi == 0);
            let d = xs[i] - a;
            assert(d % pi != 0) by {
                assert(xs[i] - xs[n - 1] == d);
            }
            if eval(r, xs[i]) % pi != 0 {
                lemma_product_not_divisible(d, eval(r, xs[i]), p);
                lemma_sub_mod_noop(eval(q, xs[i]), eval(q, a), pi);
                assert(d * eval(r, xs[i]) == eval(q, xs[i]) - eval(q, a));
                assert(false);
            }
        }
        assert forall|i: int, j: int|
            0 <= i < ys.len() && 0 <= j < ys.len() && i != j implies (#[trigger] ys[i]
                - #[trigger] ys[j]) % pi != 0 by {
            assert(ys[i] == xs[i] && ys[j] == xs[j]);
        }
        lemma_vanishing_at_zero(r, ys, p);
        let r0 = eval(r, 0);
        lemma_cong_mul(-a, -a, r0, 0, pi);
        lemma_cong_add(-a * r0, -a * 0, eval(q, a), 0, pi);
        assert(-a * 0 == 0) by (nonlinear_arith);
        assert((0 - a) * r0 == -a * r0) by (nonlinear_arith);
    }
}

} // verus!

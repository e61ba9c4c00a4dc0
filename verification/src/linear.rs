//! Inner products of vectors of naturals, plain and reduced modulo `q` the
//! way the servers compute them, with the lemmas that relate them.
use crate::bignat::BigNat;
use crate::utils::{nat_values, one_hot, sub_mod, sum_nats};
use openssl::bn::BigNumContext;
use vstd::arithmetic::div_mod::*;
use vstd::arithmetic::mul::*;
use vstd::prelude::*;

verus! {

/// `x[0] w[0] + ... + x[k-1] w[k-1]`.
pub open spec fn dot(x: Seq<nat>, w: Seq<nat>, k: nat) -> nat
    decreases k,
{
    if k == 0 {
        0
    } else {
        dot(x, w, (k - 1) as nat) + x[k - 1] * w[k - 1]
    }
}

/// The inner product of the first `k` coordinates computed as the servers
/// do: each product is reduced modulo `q`, and so is each partial sum.
pub open spec fn dot_mod(x: Seq<nat>, w: Seq<nat>, k: nat, q: nat) -> nat
    decreases k,
{
    if k == 0 {
        0
    } else {
        (dot_mod(x, w, (k - 1) as nat, q) + (x[k - 1] * w[k - 1]) % q) % q
    }
}

/// The squares of the entries of `r`.
pub open spec fn squares(r: Seq<nat>) -> Seq<nat> {
    Seq::new(r.len(), |j: int| r[j] * r[j])
}

/// The coordinate-wise sum of the first `s` vectors of `xs` (all entries).
pub open spec fn column_sums(xs: Seq<Seq<nat>>, s: nat, m: nat) -> Seq<nat>
    decreases s,
{
    if s == 0 {
        Seq::new(m, |j: int| 0nat)
    } else {
        let prev = column_sums(xs, (s - 1) as nat, m);
        Seq::new(m, |j: int| prev[j] + xs[s - 1][j])
    }
}

/// The reduced inner product is the inner product reduced.
pub proof fn lemma_dot_mod(x: Seq<nat>, w: Seq<nat>, k: nat, q: nat)
    requires
        q > 0,
    ensures
        dot_mod(x, w, k, q) == dot(x, w, k) % q,
    decreases k,
{
    if k > 0 {
        lemma_dot_mod(x, w, (k - 1) as nat, q);
        let prev = dot(x, w, (k - 1) as nat) as int;
        let t = (x[k - 1] * w[k - 1]) as int;
        lemma_add_mod_noop(prev, t, q as int);
        assert(dot_mod(x, w, k, q) == (dot_mod(x, w, (k - 1) as nat, q) + (x[k - 1] * w[k - 1]) % q) % q);
        assert(dot(x, w, k) == prev + t);
        assert(((prev % (q as int)) + (t % (q as int))) % (q as int) == (prev + t) % (q as int));
    } else {
        lemma_small_mod(0, q);
    }
}

/// The inner product is linear in its first argument.
pub proof fn lemma_dot_add(u: Seq<nat>, v: Seq<nat>, s: Seq<nat>, w: Seq<nat>, k: nat)
    requires
        k <= u.len(),
        k <= v.len(),
        k <= s.len(),
        forall|j: int| 0 <= j < k ==> #[trigger] s[j] == u[j] + v[j],
    ensures
        dot(s, w, k) == dot(u, w, k) + dot(v, w, k),
    decreases k,
{
    if k > 0 {
        lemma_dot_add(u, v, s, w, (k - 1) as nat);
        let j = k - 1;
        lemma_mul_is_distributive_add_other_way(w[j] as int, u[j] as int, v[j] as int);
    }
}

/// The inner products of the vectors of all servers add up to the inner
/// product of their coordinate-wise sum.
pub proof fn lemma_dot_of_column_sums(xs: Seq<Seq<nat>>, w: Seq<nat>, s: nat, m: nat)
    requires
        s <= xs.len(),
        forall|i: int| 0 <= i < xs.len() ==> #[trigger] xs[i].len() >= m,
    ensures
        column_sums(xs, s, m).len() == m,
        dot(column_sums(xs, s, m), w, m) == sum_dots(xs, w, s, m),
    decreases s,
{
    if s == 0 {
        lemma_dot_zero(column_sums(xs, 0, m), w, m);
    } else {
        lemma_dot_of_column_sums(xs, w, (s - 1) as nat, m);
        let prev = column_sums(xs, (s - 1) as nat, m);
        lemma_dot_add(prev, xs[s - 1], column_sums(xs, s, m), w, m);
    }
}

/// `dot(xs[0], w) + ... + dot(xs[s-1], w)` over the first `m` coordinates.
pub open spec fn sum_dots(xs: Seq<Seq<nat>>, w: Seq<nat>, s: nat, m: nat) -> nat
    decreases s,
{
    if s == 0 {
        0
    } else {
        sum_dots(xs, w, (s - 1) as nat, m) + dot(xs[s - 1], w, m)
    }
}

/// The inner product of a zero vector is zero.
pub proof fn lemma_dot_zero(x: Seq<nat>, w: Seq<nat>, k: nat)
    requires
        k <= x.len(),
        forall|j: int| 0 <= j < k ==> #[trigger] x[j] == 0,
    ensures
        dot(x, w, k) == 0,
    decreases k,
{
    if k > 0 {
        lemma_dot_zero(x, w, (k - 1) as nat);
    }
}

/// Congruent vectors have congruent inner products.
pub proof fn lemma_dot_congruent(x: Seq<nat>, y: Seq<nat>, w: Seq<nat>, k: nat, q: nat)
    requires
        q > 0,
        k <= x.len(),
        k <= y.len(),
        forall|j: int| 0 <= j < k ==> #[trigger] x[j] % q == y[j] % q,
    ensures
        dot(x, w, k) % q == dot(y, w, k) % q,
    decreases k,
{
    if k > 0 {
        let j = k - 1;
        lemma_dot_congruent(x, y, w, (k - 1) as nat, q);
        let qi = q as int;
        lemma_mul_mod_noop_left(x[j] as int, w[j] as int, qi);
        lemma_mul_mod_noop_left(y[j] as int, w[j] as int, qi);
        lemma_add_mod_noop(dot(x, w, (k - 1) as nat) as int, (x[j] * w[j]) as int, qi);
        lemma_add_mod_noop(dot(y, w, (k - 1) as nat) as int, (y[j] * w[j]) as int, qi);
    }
}

/// The inner product with a one-hot vector picks one coordinate.
pub proof fn lemma_dot_one_hot(w: Seq<nat>, vote: nat, k: nat)
    requires
        vote < k,
    ensures
        dot(Seq::new(k, |j: int| one_hot(vote, j as nat)), w, k) == w[vote as int],
{
    lemma_dot_one_hot_prefix(w, vote, k, k);
}

proof fn lemma_dot_one_hot_prefix(w: Seq<nat>, vote: nat, k: nat, n: nat)
    requires
        k <= n,
    ensures
        dot(Seq::new(n, |j: int| one_hot(vote, j as nat)), w, k) == (if vote < k { w[vote as int] } else { 0 }),
    decreases k,
{
    if k > 0 {
        lemma_dot_one_hot_prefix(w, vote, (k - 1) as nat, n);
        let e = Seq::new(n, |j: int| one_hot(vote, j as nat));
        assert(e[k - 1] == one_hot(vote, (k - 1) as nat));
        if k - 1 == vote {
            assert(e[k - 1] * w[k - 1] == w[k - 1]);
        } else {
            assert(e[k - 1] * w[k - 1] == 0);
        }
    }
}

/// Congruence modulo `q` is kept by addition.
pub proof fn lemma_cong_add(a: int, a2: int, b: int, b2: int, q: int)
    requires
        q > 0,
        a % q == a2 % q,
        b % q == b2 % q,
    ensures
        (a + b) % q == (a2 + b2) % q,
{
    lemma_add_mod_noop(a, b, q);
    lemma_add_mod_noop(a2, b2, q);
}

/// Congruence modulo `q` is kept by subtraction.
pub proof fn lemma_cong_sub(a: int, a2: int, b: int, b2: int, q: int)
    requires
        q > 0,
        a % q == a2 % q,
        b % q == b2 % q,
    ensures
        (a - b) % q == (a2 - b2) % q,
{
    lemma_sub_mod_noop(a, b, q);
    lemma_sub_mod_noop(a2, b2, q);
}

/// Congruence modulo `q` is kept by multiplication.
pub proof fn lemma_cong_mul(a: int, a2: int, b: int, b2: int, q: int)
    requires
        q > 0,
        a % q == a2 % q,
        b % q == b2 % q,
    ensures
        (a * b) % q == (a2 * b2) % q,
{
    lemma_mul_mod_noop(a, b, q);
    lemma_mul_mod_noop(a2, b2, q);
}

/// A number is congruent to its residue.
pub proof fn lemma_cong_mod(a: int, q: int)
    requires
        q > 0,
    ensures
        (a % q) % q == a % q,
{
    lemma_mod_twice(a, q);
}

/// Shares computed as `x_i - a_i mod q` add up, modulo `q`, to the
/// difference of the sums.
pub proof fn lemma_sum_sub_mod(xs: Seq<nat>, ys: Seq<nat>, ds: Seq<nat>, q: nat)
    requires
        q > 0,
        xs.len() == ds.len(),
        ys.len() == ds.len(),
        forall|i: int| 0 <= i < ds.len() ==> #[trigger] ds[i] == sub_mod(xs[i] as int, ys[i] as int, q),
    ensures
        sum_nats(ds) % q == (sum_nats(xs) - sum_nats(ys)) % (q as int),
    decreases ds.len(),
{
    let qi = q as int;
    if ds.len() == 0 {
        lemma_small_mod(0, q);
    } else {
        let n = ds.len() - 1;
        lemma_sum_sub_mod(xs.drop_last(), ys.drop_last(), ds.drop_last(), q);
        assert(sum_nats(ds) == sum_nats(ds.drop_last()) + ds[n]);
        assert(sum_nats(xs) == sum_nats(xs.drop_last()) + xs[n]);
        assert(sum_nats(ys) == sum_nats(ys.drop_last()) + ys[n]);
        lemma_cong_mod(xs[n] - ys[n], qi);
        lemma_cong_add(
            sum_nats(ds.drop_last()) as int,
            sum_nats(xs.drop_last()) - sum_nats(ys.drop_last()),
            ds[n] as int,
            xs[n] - ys[n],
            qi,
        );
        assert((sum_nats(xs.drop_last()) - sum_nats(ys.drop_last())) + (xs[n] - ys[n]) == sum_nats(xs)
            - sum_nats(ys));
    }
}

/// Shares of the form `(d b_i + e a_i + c_i) mod q` add up, modulo `q`, to
/// `d B + e A + C` for the sums `A`, `B`, `C`.
pub proof fn lemma_sum_affine_mod(
    as_: Seq<nat>,
    bs: Seq<nat>,
    cs: Seq<nat>,
    outs: Seq<nat>,
    d: nat,
    e: nat,
    q: nat,
)
    requires
        q > 0,
        as_.len() == outs.len(),
        bs.len() == outs.len(),
        cs.len() == outs.len(),
        forall|i: int| 0 <= i < outs.len() ==> #[trigger] outs[i] == (d * bs[i] + e * as_[i] + cs[i]) % q,
    ensures
        sum_nats(outs) % q == (d * sum_nats(bs) + e * sum_nats(as_) + sum_nats(cs)) % q,
    decreases outs.len(),
{
    let qi = q as int;
    if outs.len() == 0 {
        lemma_small_mod(0, q);
    } else {
        let n = outs.len() - 1;
        lemma_sum_affine_mod(as_.drop_last(), bs.drop_last(), cs.drop_last(), outs.drop_last(), d, e, q);
        assert(sum_nats(outs) == sum_nats(outs.drop_last()) + outs[n]);
        assert(sum_nats(as_) == sum_nats(as_.drop_last()) + as_[n]);
        assert(sum_nats(bs) == sum_nats(bs.drop_last()) + bs[n]);
        assert(sum_nats(cs) == sum_nats(cs.drop_last()) + cs[n]);
        let prev = d * sum_nats(bs.drop_last()) + e * sum_nats(as_.drop_last()) + sum_nats(cs.drop_last());
        let term = d * bs[n] + e * as_[n] + cs[n];
        lemma_cong_mod(term as int, qi);
        lemma_cong_add(sum_nats(outs.drop_last()) as int, prev as int, outs[n] as int, term as int, qi);
        assert(prev + term == d * sum_nats(bs) + e * sum_nats(as_) + sum_nats(cs)) by (nonlinear_arith)
            requires
                prev == d * sum_nats(bs.drop_last()) + e * sum_nats(as_.drop_last()) + sum_nats(cs.drop_last()),
                term == d * bs[n] + e * as_[n] + cs[n],
                sum_nats(as_) == sum_nats(as_.drop_last()) + as_[n],
                sum_nats(bs) == sum_nats(bs.drop_last()) + bs[n],
                sum_nats(cs) == sum_nats(cs.drop_last()) + cs[n],
        ;
    }
}

/// The servers' reduced inner products add up, modulo `q`, to the sum of
/// the inner products.
pub proof fn lemma_sum_of_reduced_dots(xs: Seq<Seq<nat>>, w: Seq<nat>, n: nat, m: nat, q: nat)
    requires
        q > 0,
        n <= xs.len(),
    ensures
        sum_nats(Seq::new(n, |i: int| dot_mod(xs[i], w, m, q))) % q == sum_dots(xs, w, n, m) % q,
    decreases n,
{
    let qi = q as int;
    let zs = Seq::new(n, |i: int| dot_mod(xs[i], w, m, q));
    if n == 0 {
        lemma_small_mod(0, q);
    } else {
        lemma_sum_of_reduced_dots(xs, w, (n - 1) as nat, m, q);
        assert(zs.drop_last() =~= Seq::new((n - 1) as nat, |i: int| dot_mod(xs[i], w, m, q)));
        assert(sum_nats(zs) == sum_nats(zs.drop_last()) + zs[n - 1]);
        lemma_dot_mod(xs[n - 1], w, m, q);
        let dn = dot(xs[n - 1], w, m) as int;
        lemma_cong_mod(dn, qi);
        lemma_cong_add(
            sum_nats(zs.drop_last()) as int,
            sum_dots(xs, w, (n - 1) as nat, m) as int,
            zs[n - 1] as int,
            dn,
            qi,
        );
    }
}

/// The inner product with a scaled one-hot vector picks one coordinate,
/// scaled.
pub proof fn lemma_dot_scaled_one_hot(w: Seq<nat>, vote: nat, c: nat, k: nat, n: nat)
    requires
        k <= n,
    ensures
        dot(Seq::new(n, |j: int| c * one_hot(vote, j as nat)), w, k) == (if vote < k { c * w[vote as int] } else { 0 }),
    decreases k,
{
    if k > 0 {
        lemma_dot_scaled_one_hot(w, vote, c, (k - 1) as nat, n);
        let e = Seq::new(n, |j: int| c * one_hot(vote, j as nat));
        assert(e[k - 1] == c * one_hot(vote, (k - 1) as nat));
        if k - 1 == vote {
            assert(e[k - 1] == c);
            assert(e[k - 1] * w[k - 1] == c * w[k - 1]);
        } else {
            assert(c * 0 == 0);
            assert(e[k - 1] == 0);
            assert(0 * w[k - 1] == 0);
            assert(e[k - 1] * w[k - 1] == 0);
        }
    }
}

/// The servers' reduced inner products of their shares of `c` times a
/// one-hot vote with a weight vector `w` add up, modulo `q`, to `c` times
/// the weight of the chosen candidate.
pub proof fn lemma_shared_scaled_one_hot_dot(xs: Seq<Seq<nat>>, w: Seq<nat>, m: nat, vote: nat, c: nat, q: nat)
    requires
        q > 0,
        vote < m,
        w.len() >= m,
        forall|i: int| 0 <= i < xs.len() ==> #[trigger] xs[i].len() >= m,
        forall|j: int|
            0 <= j < m ==> #[trigger] column_sums(xs, xs.len(), m)[j] % q == (c * one_hot(vote, j as nat)) % q,
    ensures
        sum_nats(Seq::new(xs.len(), |i: int| dot_mod(xs[i], w, m, q))) % q == (c * w[vote as int]) % q,
{
    let n = xs.len();
    let e = Seq::new(m, |j: int| c * one_hot(vote, j as nat));
    lemma_sum_of_reduced_dots(xs, w, n, m, q);
    lemma_dot_of_column_sums(xs, w, n, m);
    let col = column_sums(xs, n, m);
    assert forall|j: int| 0 <= j < m implies #[trigger] col[j] % q == e[j] % q by {}
    lemma_dot_congruent(col, e, w, m, q);
    lemma_dot_scaled_one_hot(w, vote, c, m, m);
}

/// `sum_j x_j w_j (mod q)` over the first `m` coordinates, reducing each
/// product and each partial sum, where `w_j` is `r_j`, or `r_j^2` when
/// `square` holds.
pub fn reduced_inner_product(
    x: &Vec<BigNat>,
    r: &Vec<BigNat>,
    square: bool,
    m: usize,
    q: &BigNat,
    ctx: &mut BigNumContext,
) -> (z: BigNat)
    requires
        q@ > 0,
        x@.len() >= m,
        r@.len() >= m,
    ensures
        z@ == dot_mod(nat_values(x@), if square { squares(nat_values(r@)) } else { nat_values(r@) }, m as nat, q@),
{
    let ghost xv = nat_values(x@);
    let ghost w = if square { squares(nat_values(r@)) } else { nat_values(r@) };
    let mut z = BigNat::zero();
    for i in 0..m
        invariant
            q@ > 0,
            x@.len() >= m,
            r@.len() >= m,
            xv == nat_values(x@),
            w == (if square { squares(nat_values(r@)) } else { nat_values(r@) }),
            z@ == dot_mod(xv, w, i as nat, q@),
    {
        let tmp = if square {
            let r2 = r[i].mul(&r[i]);
            x[i].mod_mul(&r2, q, ctx)
        } else {
            x[i].mod_mul(&r[i], q, ctx)
        };
        assert(tmp@ == (xv[i as int] * w[i as int]) % q@);
        z = z.add(&tmp).rem(q);
    }
    z
}

} // verus!

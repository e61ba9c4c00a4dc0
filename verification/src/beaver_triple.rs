//! Beaver triples: additive sharings of random `a`, `b` and of `c = ab mod q`,
//! used by the servers to multiply shared values.
use crate::bignat::BigNat;
use crate::linear::{lemma_cong_add, lemma_cong_mod, lemma_cong_mul, lemma_sum_affine_mod, lemma_sum_sub_mod};
use crate::prio::{multiply_first_spec, multiply_second_spec};
use crate::utils::{additive_share, gen_random, is_additive_sharing, nat_values, sum_nats};
use openssl::bn::BigNumContext;
use vstd::prelude::*;

verus! {

/// The shares of a Beaver triple `(a, b, ab mod q)`, one entry per server.
pub struct BeaverTriple {
    pub a_shares: Vec<BigNat>,
    pub b_shares: Vec<BigNat>,
    pub c_shares: Vec<BigNat>,
}

/// What `BeaverTriple::new` promises: the three vectors share, among `n`
/// servers modulo `q`, some `a` and `b` drawn below `q - 1` and their product
/// `ab mod q`.
pub open spec fn is_beaver_triple(t: BeaverTriple, q: nat, n: nat) -> bool {
    exists|a: nat, b: nat|
        #![trigger is_additive_sharing(nat_values(t.a_shares@), a, q, n), is_additive_sharing(nat_values(t.b_shares@), b, q, n)]
        {
            &&& a < q - 1
            &&& b < q - 1
            &&& is_additive_sharing(nat_values(t.a_shares@), a, q, n)
            &&& is_additive_sharing(nat_values(t.b_shares@), b, q, n)
            &&& is_additive_sharing(nat_values(t.c_shares@), (a * b) % q, q, n)
        }
}

impl BeaverTriple {
    /// Draws `a` and `b` below `q - 1` and shares `a`, `b` and `ab mod q`
    /// among `num_shares` servers.
    pub fn new(num_shares: usize, q: &BigNat, ctx: &mut BigNumContext) -> (r: BeaverTriple)
        requires
            q@ > 1,
        ensures
            is_beaver_triple(r, q@, num_shares as nat),
    {
        let a = gen_random(q).unwrap();
        let b = gen_random(q).unwrap();
        let c = a.mul(&b).rem(q);
        let a_shares = additive_share(&a, q, num_shares, ctx);
        let b_shares = additive_share(&b, q, num_shares, ctx);
        let c_shares = additive_share(&c, q, num_shares, ctx);
        let r = BeaverTriple { a_shares, b_shares, c_shares };
        assert(is_additive_sharing(nat_values(r.a_shares@), a@, q@, num_shares as nat));
        assert(is_additive_sharing(nat_values(r.b_shares@), b@, q@, num_shares as nat));
        assert(is_additive_sharing(nat_values(r.c_shares@), (a@ * b@) % q@, q@, num_shares as nat));
        r
    }
}

/// Beaver multiplication is correct: when the servers hold additive shares
/// `x_i`, `y_i` of `X` and `Y` and shares `a_i`, `b_i`, `c_i` of a triple
/// with `C = AB (mod q)`, open `d` and `e` as the sums of their first-round
/// shares (`multiply_first`), and compute their second-round shares
/// (`multiply_second`), then those shares plus `d e` add up to `XY` modulo
/// `q`.
pub proof fn beaver_multiplication_is_correct(
    xs: Seq<nat>,
    ys: Seq<nat>,
    as_: Seq<nat>,
    bs: Seq<nat>,
    cs: Seq<nat>,
    ds: Seq<nat>,
    es: Seq<nat>,
    outs: Seq<nat>,
    d: nat,
    e: nat,
    q: nat,
)
    requires
        q > 0,
        ys.len() == xs.len(),
        as_.len() == xs.len(),
        bs.len() == xs.len(),
        cs.len() == xs.len(),
        ds.len() == xs.len(),
        es.len() == xs.len(),
        outs.len() == xs.len(),
        sum_nats(cs) % q == (sum_nats(as_) * sum_nats(bs)) % q,
        forall|i: int|
            0 <= i < xs.len() ==> (#[trigger] ds[i], es[i]) == multiply_first_spec(xs[i], ys[i], as_[i], bs[i], q),
        d == sum_nats(ds) % q,
        e == sum_nats(es) % q,
        forall|i: int|
            0 <= i < xs.len() ==> #[trigger] outs[i] == multiply_second_spec(as_[i], bs[i], cs[i], e, d, q),
    ensures
        (sum_nats(outs) + d * e) % q == (sum_nats(xs) * sum_nats(ys)) % q,
{
    let qi = q as int;
    let x = sum_nats(xs) as int;
    let y = sum_nats(ys) as int;
    let a = sum_nats(as_) as int;
    let b = sum_nats(bs) as int;
    let c = sum_nats(cs) as int;
    assert forall|i: int| 0 <= i < ds.len() implies #[trigger] ds[i] == crate::utils::sub_mod(
        xs[i] as int,
        as_[i] as int,
        q,
    ) by {
        assert((ds[i], es[i]) == multiply_first_spec(xs[i], ys[i], as_[i], bs[i], q));
    }
    assert forall|i: int| 0 <= i < es.len() implies #[trigger] es[i] == crate::utils::sub_mod(
        ys[i] as int,
        bs[i] as int,
        q,
    ) by {
        assert((ds[i], es[i]) == multiply_first_spec(xs[i], ys[i], as_[i], bs[i], q));
    }
    lemma_sum_sub_mod(xs, as_, ds, q);
    lemma_sum_sub_mod(ys, bs, es, q);
    lemma_cong_mod(sum_nats(ds) as int, qi);
    lemma_cong_mod(sum_nats(es) as int, qi);
    // d = X - A and e = Y - B (mod q)
    assert((d as int) % qi == (x - a) % qi);
    assert((e as int) % qi == (y - b) % qi);
    assert forall|i: int| 0 <= i < outs.len() implies #[trigger] outs[i] == (d * bs[i] + e * as_[i] + cs[i]) % q by {
        assert(outs[i] == multiply_second_spec(as_[i], bs[i], cs[i], e, d, q));
    }
    lemma_sum_affine_mod(as_, bs, cs, outs, d, e, q);
    lemma_cong_mul(d as int, x - a, b, b, qi);
    lemma_cong_mul(e as int, y - b, a, a, qi);
    lemma_cong_mul(d as int, x - a, e as int, y - b, qi);
    lemma_cong_add(d * b, (x - a) * b, e * a, (y - b) * a, qi);
    lemma_cong_add(d * b + e * a, (x - a) * b + (y - b) * a, c, a * b, qi);
    lemma_cong_add(
        sum_nats(outs) as int,
        (x - a) * b + (y - b) * a + a * b,
        (d * e) as int,
        (x - a) * (y - b),
        qi,
    );
    assert((x - a) * b + (y - b) * a + a * b + (x - a) * (y - b) == x * y) by (nonlinear_arith);
}

} // verus!

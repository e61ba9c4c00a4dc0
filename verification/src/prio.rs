//! A Prio-style server: it aggregates additive shares of votes and, with a
//! Beaver triple, helps check that a shared vote is one-hot by the sketch
//! `(sum_j x_j r_j)^2 - sum_j x_j r_j^2 = 0 (mod q)`.
use crate::bignat::{describe_struct, struct_text, BigNat};
use crate::beaver_triple::beaver_multiplication_is_correct;
use crate::linear::{
    column_sums, dot, dot_mod, lemma_cong_add, lemma_cong_mul, lemma_cong_sub, lemma_dot_congruent,
    lemma_dot_of_column_sums, lemma_dot_one_hot, lemma_sum_of_reduced_dots, lemma_sum_sub_mod, reduced_inner_product,
    squares,
};
use crate::utils::{gen_random, mod_sub_or_zero, nat_values, one_hot, sub_mod, sum_nats};
use vstd::arithmetic::div_mod::*;
use openssl::bn::BigNumContext;
use vstd::prelude::*;

verus! {

/// A server of the Prio-style protocol.
pub struct Server {
    pub agg_shares: Vec<BigNat>,
    pub agg_randomness: Vec<BigNat>,
    pub last_received_shares: Vec<BigNat>,
    pub last_received_randomness: Vec<BigNat>,
    pub p: BigNat,
    pub q: BigNat,
    pub g: BigNat,
    pub h: BigNat,
    pub ans: Vec<BigNat>,
    pub num_candidates: usize,
}

/// The shares of one coordinate of a vote, with commitments and randomness.
pub struct Share {
    pub commitments: Vec<BigNat>,
    pub randomness: Vec<BigNat>,
    pub shares: Vec<BigNat>,
}

/// First round of a Beaver multiplication of shared `x` and `y` with the
/// triple shares `a`, `b`: the server's shares `x - a` and `y - b` of the
/// masked values, modulo `q`.
pub open spec fn multiply_first_spec(x: nat, y: nat, a: nat, b: nat, q: nat) -> (nat, nat) {
    (sub_mod(x as int, a as int, q), sub_mod(y as int, b as int, q))
}

/// Second round of a Beaver multiplication: from the opened masks `d` and
/// `e`, the server's share `d b + e a + c` of the product (the sum of these
/// shares plus `d e` is the product).
pub open spec fn multiply_second_spec(a: nat, b: nat, c: nat, e: nat, d: nat, q: nat) -> nat {
    (d * b + e * a + c) % q
}

/// The server's share of the inner product of the vote with the
/// randomness, reduced modulo `q`.
pub open spec fn sketch_z(x: Seq<nat>, r: Seq<nat>, m: nat, q: nat) -> nat {
    dot_mod(x, r, m, q)
}

/// The server's share of the inner product of the vote with the squared
/// randomness, reduced modulo `q`.
pub open spec fn sketch_z_star(x: Seq<nat>, r: Seq<nat>, m: nat, q: nat) -> nat {
    dot_mod(x, squares(r), m, q)
}

/// What `create_sketch_share_two` returns: the share of `z^2` minus the
/// share of `z*`, modulo `q`.
pub open spec fn sketch_two_spec(
    x: Seq<nat>,
    r: Seq<nat>,
    a: nat,
    b: nat,
    c: nat,
    e: nat,
    d: nat,
    m: nat,
    q: nat,
) -> nat {
    sub_mod(multiply_second_spec(a, b, c, e, d, q) as int, sketch_z_star(x, r, m, q) as int, q)
}

/// The servers' reduced inner products of their shares of a one-hot vote
/// with a weight vector `w` add up, modulo `q`, to the weight of the chosen
/// candidate.
pub proof fn lemma_shared_one_hot_dot(xs: Seq<Seq<nat>>, w: Seq<nat>, m: nat, vote: nat, q: nat)
    requires
        q > 1,
        vote < m,
        w.len() >= m,
        forall|i: int| 0 <= i < xs.len() ==> #[trigger] xs[i].len() >= m,
        forall|j: int| 0 <= j < m ==> #[trigger] column_sums(xs, xs.len(), m)[j] % q == one_hot(vote, j as nat),
    ensures
        sum_nats(Seq::new(xs.len(), |i: int| dot_mod(xs[i], w, m, q))) % q == w[vote as int] % q,
{
    let n = xs.len();
    let e = Seq::new(m, |j: int| one_hot(vote, j as nat));
    lemma_sum_of_reduced_dots(xs, w, n, m, q);
    lemma_dot_of_column_sums(xs, w, n, m);
    let col = column_sums(xs, n, m);
    assert forall|j: int| 0 <= j < m implies #[trigger] col[j] % q == e[j] % q by {
        lemma_small_mod(one_hot(vote, j as nat), q);
    }
    lemma_dot_congruent(col, e, w, m, q);
    lemma_dot_one_hot(w, vote, m);
}

/// Prio's sketch accepts a well-formed vote: when the servers hold additive
/// shares `xs[i]` of a one-hot vote (the shares of each coordinate add up to
/// one for the chosen candidate and to zero for the others, modulo `q`),
/// shares of a Beaver triple, and a common random vector `r`, then the
/// shares of `z^2 - z*` that `create_sketch_share_one` and
/// `create_sketch_share_two` produce, plus `d e`, add up to zero modulo `q`.
pub proof fn prio_sketch_accepts_one_hot_votes(
    xs: Seq<Seq<nat>>,
    r: Seq<nat>,
    m: nat,
    vote: nat,
    as_: Seq<nat>,
    bs: Seq<nat>,
    cs: Seq<nat>,
    ds: Seq<nat>,
    es: Seq<nat>,
    d: nat,
    e: nat,
    outs: Seq<nat>,
    q: nat,
)
    requires
        q > 1,
        vote < m,
        r.len() >= m,
        forall|i: int| 0 <= i < xs.len() ==> #[trigger] xs[i].len() >= m,
        forall|j: int| 0 <= j < m ==> #[trigger] column_sums(xs, xs.len(), m)[j] % q == one_hot(vote, j as nat),
        as_.len() == xs.len(),
        bs.len() == xs.len(),
        cs.len() == xs.len(),
        ds.len() == xs.len(),
        es.len() == xs.len(),
        outs.len() == xs.len(),
        sum_nats(cs) % q == (sum_nats(as_) * sum_nats(bs)) % q,
        forall|i: int|
            0 <= i < xs.len() ==> (#[trigger] ds[i], es[i]) == multiply_first_spec(
                sketch_z(xs[i], r, m, q),
                sketch_z(xs[i], r, m, q),
                as_[i],
                bs[i],
                q,
            ),
        d == sum_nats(ds) % q,
        e == sum_nats(es) % q,
        forall|i: int|
            0 <= i < xs.len() ==> #[trigger] outs[i] == sketch_two_spec(
                xs[i],
                r,
                as_[i],
                bs[i],
                cs[i],
                e,
                d,
                m,
                q,
            ),
    ensures
        (sum_nats(outs) + d * e) % q == 0,
{
    let n = xs.len();
    let qi = q as int;
    let zs = Seq::new(n, |i: int| dot_mod(xs[i], r, m, q));
    let zstars = Seq::new(n, |i: int| dot_mod(xs[i], squares(r), m, q));
    let ms = Seq::new(n, |i: int| multiply_second_spec(as_[i], bs[i], cs[i], e, d, q));
    assert forall|i: int| 0 <= i < n implies (#[trigger] ds[i], es[i]) == multiply_first_spec(
        zs[i],
        zs[i],
        as_[i],
        bs[i],
        q,
    ) by {
        assert((ds[i], es[i]) == multiply_first_spec(
            sketch_z(xs[i], r, m, q),
            sketch_z(xs[i], r, m, q),
            as_[i],
            bs[i],
            q,
        ));
    }
    assert forall|i: int| 0 <= i < n implies #[trigger] ms[i] == multiply_second_spec(
        as_[i],
        bs[i],
        cs[i],
        e,
        d,
        q,
    ) by {}
    beaver_multiplication_is_correct(zs, zs, as_, bs, cs, ds, es, ms, d, e, q);
    assert forall|i: int| 0 <= i < n implies #[trigger] outs[i] == sub_mod(ms[i] as int, zstars[i] as int, q) by {
        assert(outs[i] == sketch_two_spec(xs[i], r, as_[i], bs[i], cs[i], e, d, m, q));
    }
    lemma_sum_sub_mod(ms, zstars, outs, q);
    // the shares of z and of z* add up to r[vote] and r[vote]^2
    lemma_shared_one_hot_dot(xs, r, m, vote, q);
    lemma_shared_one_hot_dot(xs, squares(r), m, vote, q);
    let z = sum_nats(zs) as int;
    let zstar = sum_nats(zstars) as int;
    let rv = r[vote as int] as int;
    assert(squares(r)[vote as int] == r[vote as int] * r[vote as int]);
    lemma_cong_mul(z, rv, z, rv, qi);
    // sum(outs) + d e = (sum(ms) + d e) - z* = z^2 - z* = rv^2 - rv^2
    lemma_cong_add(sum_nats(outs) as int, sum_nats(ms) - zstar, (d * e) as int, (d * e) as int, qi);
    lemma_cong_sub((sum_nats(ms) + d * e) as int, z * z, zstar, rv * rv, qi);
    lemma_cong_sub(z * z, rv * rv, rv * rv, rv * rv, qi);
    assert((sum_nats(ms) - zstar) + d * e == (sum_nats(ms) + d * e) - zstar);
    lemma_small_mod(0, q);
}

impl Server {
    /// The text that the `Display` impl writes: `Server { p: .., q: .., g: .., h: .. }`,
    /// each number in decimal.
    pub fn to_string(&self) -> (r: String)
        ensures
            r@ == struct_text("Server"@, seq![("p"@, self.p@), ("q"@, self.q@), ("g"@, self.g@), ("h"@, self.h@)]),
    {
        let fields: Vec<(&str, &BigNat)> = vec![("p", &self.p), ("q", &self.q), ("g", &self.g), ("h", &self.h)];
        let r = describe_struct("Server", &fields);
        assert(Seq::new(fields.len() as nat, |i: int| (fields[i].0@, fields[i].1@)) =~= seq![("p"@, self.p@), ("q"@, self.q@), ("g"@, self.g@), ("h"@, self.h@)]);
        r
    }

    /// A server for `num_candidates` candidates with the given parameters and
    /// nothing received yet.
    pub fn new(num_servers: usize, num_candidates: usize, _p: &BigNat, _q: &BigNat, _g: &BigNat, _h: &BigNat) -> (r: Server)
        ensures
            r.p@ == _p@,
            r.q@ == _q@,
            r.g@ == _g@,
            r.h@ == _h@,
            r.num_candidates == num_candidates,
            r.agg_shares@.len() == 0,
            r.agg_randomness@.len() == 0,
            r.last_received_shares@.len() == 0,
            r.last_received_randomness@.len() == 0,
            r.ans@.len() == 0,
    {
        Server {
            agg_shares: Vec::new(),
            agg_randomness: Vec::new(),
            last_received_shares: Vec::new(),
            last_received_randomness: Vec::new(),
            p: _p.copied(),
            q: _q.copied(),
            g: _g.copied(),
            h: _h.copied(),
            ans: Vec::new(),
            num_candidates,
        }
    }

    /// First round of a Beaver multiplication: the shares `x_i - a_i` and
    /// `y_i - b_i` modulo `q` (zeros when `q` is zero).
    pub fn multiply_first(&self, x_i: &BigNat, y_i: &BigNat, a_i: &BigNat, b_i: &BigNat, ctx: &mut BigNumContext) -> (r: (BigNat, BigNat))
        ensures
            (r.0@, r.1@) == multiply_first_spec(x_i@, y_i@, a_i@, b_i@, self.q@),
    {
        let d_i = mod_sub_or_zero(x_i, a_i, &self.q, ctx);
        let e_i = mod_sub_or_zero(y_i, b_i, &self.q, ctx);
        (d_i, e_i)
    }

    /// Second round of a Beaver multiplication: `d b_i + e a_i + c_i` modulo
    /// `q`.
    pub fn multiply_second(&self, a_i: &BigNat, b_i: &BigNat, c_i: &BigNat, e: &BigNat, d: &BigNat) -> (r: BigNat)
        requires
            self.q@ > 0,
        ensures
            r@ == multiply_second_spec(a_i@, b_i@, c_i@, e@, d@, self.q@),
    {
        let db = d.mul(b_i);
        let ea = e.mul(a_i);
        db.add(&ea).add(c_i).rem(&self.q)
    }

    /// One random number below `q - 1` per candidate, shared by all servers
    /// to check the inputs.
    pub fn generate_fresh_randomness(&self) -> (r: Vec<BigNat>)
        requires
            self.num_candidates == 0 || self.q@ > 1,
        ensures
            r@.len() == self.num_candidates,
            forall|i: int| 0 <= i < r@.len() ==> #[trigger] r@[i]@ < self.q@ - 1,
    {
        let mut r_vec: Vec<BigNat> = Vec::new();
        for _i in 0..self.num_candidates
            invariant
                self.num_candidates == 0 || self.q@ > 1,
                r_vec@.len() == _i,
                forall|j: int| 0 <= j < r_vec@.len() ==> #[trigger] r_vec@[j]@ < self.q@ - 1,
        {
            r_vec.push(gen_random(&self.q).unwrap());
        }
        r_vec
    }

    /// The server's share `z_i = sum_j x_j r_j (mod q)` of the sketch, masked
    /// for the Beaver multiplication of `z` by itself: returns
    /// `(z_i - a_i, z_i - b_i) mod q`.
    pub fn create_sketch_share_one(
        &self,
        x: &Vec<BigNat>,
        randomness: &Vec<BigNat>,
        a_i: &BigNat,
        b_i: &BigNat,
        ctx: &mut BigNumContext,
    ) -> (r: (BigNat, BigNat))
        requires
            self.q@ > 0,
            x@.len() >= self.num_candidates,
            randomness@.len() >= self.num_candidates,
        ensures
            ({
                let z = sketch_z(nat_values(x@), nat_values(randomness@), self.num_candidates as nat, self.q@);
                (r.0@, r.1@) == multiply_first_spec(z, z, a_i@, b_i@, self.q@)
            }),
    {
        let z = reduced_inner_product(x, randomness, false, self.num_candidates, &self.q, ctx);
        self.multiply_first(&z, &z, a_i, b_i, ctx)
    }

    /// The server's share of `z^2 - z*`, where `z^2` comes from the second
    /// round of the Beaver multiplication and `z*_i = sum_j x_j r_j^2 (mod q)`.
    pub fn create_sketch_share_two(
        &self,
        x: &Vec<BigNat>,
        randomness: &Vec<BigNat>,
        a_i: &BigNat,
        b_i: &BigNat,
        c_i: &BigNat,
        e: &BigNat,
        d: &BigNat,
        ctx: &mut BigNumContext,
    ) -> (r: BigNat)
        requires
            self.q@ > 0,
            x@.len() >= self.num_candidates,
            randomness@.len() >= self.num_candidates,
        ensures
            r@ == sketch_two_spec(
                nat_values(x@),
                nat_values(randomness@),
                a_i@,
                b_i@,
                c_i@,
                e@,
                d@,
                self.num_candidates as nat,
                self.q@,
            ),
    {
        let z_squared_share = self.multiply_second(a_i, b_i, c_i, e, d);
        let z_star = reduced_inner_product(x, randomness, true, self.num_candidates, &self.q, ctx);
        z_squared_share.mod_sub(&z_star, &self.q, ctx)
    }
}

} // verus!

//! A Poplar-style server: it checks that a shared vote `v` is one-hot with
//! the help of the shared vote scaled by the client's secret `kappa` and the
//! client's correction terms `A` and `B` (Appendix C of Poplar).
use crate::bignat::{describe_struct, struct_text, BigNat};
use crate::linear::{
    column_sums, dot_mod, lemma_cong_add, lemma_cong_mul, lemma_cong_sub, lemma_shared_scaled_one_hot_dot,
    lemma_sum_affine_mod, reduced_inner_product, squares,
};
use crate::prio::{multiply_first_spec, multiply_second_spec};
use crate::utils::{gen_random, mod_sub_or_zero, nat_values, one_hot, sum_nats};
use openssl::bn::BigNumContext;
use vstd::arithmetic::div_mod::*;
use vstd::prelude::*;

verus! {

/// A server of the Poplar-style protocol.
pub struct Server {
    pub q: BigNat,
    pub num_candidates: usize,
    pub num_servers: usize,
}

/// The additive shares of one value.
pub struct Share {
    pub shares: Vec<BigNat>,
}

/// What `round_one_verification` returns for the server's shares `v` of the
/// vote and `kv` of the scaled vote, the common randomness `r` and the
/// server's triple shares `a`, `b`, `c`: `(z + a, z* + b, z** + c) mod q`
/// with `z = sum_j v_j r_j`, `z* = sum_j v_j r_j^2` and `z** = sum_j kv_j r_j`
/// (each reduced modulo `q`).
pub open spec fn round_one_spec(
    v: Seq<nat>,
    kv: Seq<nat>,
    r: Seq<nat>,
    a: nat,
    b: nat,
    c: nat,
    m: nat,
    q: nat,
) -> (nat, nat, nat) {
    (
        (dot_mod(v, r, m, q) + a) % q,
        (dot_mod(v, squares(r), m, q) + b) % q,
        (dot_mod(kv, r, m, q) + c) % q,
    )
}

/// What `round_two_verification` returns: `A_i Z + B_i mod q`.
pub open spec fn round_two_spec(ucase_a_i: nat, ucase_b_i: nat, ucase_z: nat, q: nat) -> nat {
    (ucase_a_i * ucase_z + ucase_b_i) % q
}

/// Shares of the form `(u_i + v_i) mod q` add up, modulo `q`, to the sum of
/// the two sums.
proof fn lemma_sum_add_mod(us: Seq<nat>, vs: Seq<nat>, outs: Seq<nat>, q: nat)
    requires
        q > 0,
        us.len() == outs.len(),
        vs.len() == outs.len(),
        forall|i: int| 0 <= i < outs.len() ==> #[trigger] outs[i] == (us[i] + vs[i]) % q,
    ensures
        sum_nats(outs) % q == (sum_nats(us) + sum_nats(vs)) % q,
{
    assert forall|i: int| 0 <= i < outs.len() implies #[trigger] outs[i] == (1 * us[i] + 0 * us[i] + vs[i]) % q by {}
    lemma_sum_affine_mod(us, us, vs, outs, 1, 0, q);
}

/// Poplar's check accepts a well-formed vote: when the servers hold additive
/// shares `vs[i]` of a one-hot vote and `kvs[i]` of the same vote scaled by
/// `kappa`, shares of `a`, `b`, `c`, and shares of the client's terms
/// `A = kappa - 2a` and `B = a^2 + b + c - a kappa`, and they open `Z`, `Z*`
/// and `Z**` as the sums of their first-round messages, then their
/// second-round messages plus `Z^2 - Z* - Z**` add up to zero modulo `q`.
pub proof fn poplar_check_accepts_one_hot_votes(
    vs: Seq<Seq<nat>>,
    kvs: Seq<Seq<nat>>,
    r: Seq<nat>,
    m: nat,
    vote: nat,
    kappa: nat,
    as_: Seq<nat>,
    bs: Seq<nat>,
    cs: Seq<nat>,
    ucase_as: Seq<nat>,
    ucase_bs: Seq<nat>,
    round_one: Seq<(nat, nat, nat)>,
    ucase_z: nat,
    ucase_z_star: nat,
    ucase_z_star_star: nat,
    outs: Seq<nat>,
    q: nat,
)
    requires
        q > 1,
        vote < m,
        r.len() >= m,
        kvs.len() == vs.len(),
        forall|i: int| 0 <= i < vs.len() ==> #[trigger] vs[i].len() >= m,
        forall|i: int| 0 <= i < kvs.len() ==> #[trigger] kvs[i].len() >= m,
        forall|j: int| 0 <= j < m ==> #[trigger] column_sums(vs, vs.len(), m)[j] % q == (1 * one_hot(vote, j as nat)) % q,
        forall|j: int|
            0 <= j < m ==> #[trigger] column_sums(kvs, kvs.len(), m)[j] % q == (kappa * one_hot(vote, j as nat)) % q,
        as_.len() == vs.len(),
        bs.len() == vs.len(),
        cs.len() == vs.len(),
        ucase_as.len() == vs.len(),
        ucase_bs.len() == vs.len(),
        round_one.len() == vs.len(),
        outs.len() == vs.len(),
        sum_nats(ucase_as) % q == (kappa - 2 * sum_nats(as_)) % (q as int),
        sum_nats(ucase_bs) % q == (sum_nats(as_) * sum_nats(as_) + sum_nats(bs) + sum_nats(cs) - sum_nats(as_)
            * kappa) % (q as int),
        forall|i: int|
            0 <= i < vs.len() ==> #[trigger] round_one[i] == round_one_spec(vs[i], kvs[i], r, as_[i], bs[i], cs[i], m, q),
        ucase_z == sum_nats(Seq::new(vs.len(), |i: int| round_one[i].0)) % q,
        ucase_z_star == sum_nats(Seq::new(vs.len(), |i: int| round_one[i].1)) % q,
        ucase_z_star_star == sum_nats(Seq::new(vs.len(), |i: int| round_one[i].2)) % q,
        forall|i: int| 0 <= i < vs.len() ==> #[trigger] outs[i] == round_two_spec(ucase_as[i], ucase_bs[i], ucase_z, q),
    ensures
        (sum_nats(outs) + ucase_z * ucase_z - ucase_z_star - ucase_z_star_star) % (q as int) == 0,
{
    let n = vs.len();
    let qi = q as int;
    let z1 = Seq::new(n, |i: int| round_one[i].0);
    let z2 = Seq::new(n, |i: int| round_one[i].1);
    let z3 = Seq::new(n, |i: int| round_one[i].2);
    let d1 = Seq::new(n, |i: int| dot_mod(vs[i], r, m, q));
    let d2 = Seq::new(n, |i: int| dot_mod(vs[i], squares(r), m, q));
    let d3 = Seq::new(n, |i: int| dot_mod(kvs[i], r, m, q));
    assert forall|i: int| 0 <= i < n implies #[trigger] z1[i] == (d1[i] + as_[i]) % q by {
        assert(round_one[i] == round_one_spec(vs[i], kvs[i], r, as_[i], bs[i], cs[i], m, q));
    }
    assert forall|i: int| 0 <= i < n implies #[trigger] z2[i] == (d2[i] + bs[i]) % q by {
        assert(round_one[i] == round_one_spec(vs[i], kvs[i], r, as_[i], bs[i], cs[i], m, q));
    }
    assert forall|i: int| 0 <= i < n implies #[trigger] z3[i] == (d3[i] + cs[i]) % q by {
        assert(round_one[i] == round_one_spec(vs[i], kvs[i], r, as_[i], bs[i], cs[i], m, q));
    }
    lemma_sum_add_mod(d1, as_, z1, q);
    lemma_sum_add_mod(d2, bs, z2, q);
    lemma_sum_add_mod(d3, cs, z3, q);
    // the inner products add up to rho = r[vote], rho^2 and kappa rho
    lemma_shared_scaled_one_hot_dot(vs, r, m, vote, 1, q);
    lemma_shared_scaled_one_hot_dot(vs, squares(r), m, vote, 1, q);
    lemma_shared_scaled_one_hot_dot(kvs, r, m, vote, kappa, q);
    let rho = r[vote as int] as int;
    assert(squares(r)[vote as int] == r[vote as int] * r[vote as int]);
    let a = sum_nats(as_) as int;
    let b = sum_nats(bs) as int;
    let c = sum_nats(cs) as int;
    let z = ucase_z as int;
    let zs = ucase_z_star as int;
    let zss = ucase_z_star_star as int;
    lemma_mod_twice(sum_nats(z1) as int, qi);
    lemma_mod_twice(sum_nats(z2) as int, qi);
    lemma_mod_twice(sum_nats(z3) as int, qi);
    lemma_cong_add(sum_nats(d1) as int, 1 * rho, a, a, qi);
    lemma_cong_add(sum_nats(d2) as int, 1 * (rho * rho), b, b, qi);
    lemma_cong_add(sum_nats(d3) as int, kappa * rho, c, c, qi);
    assert(z % qi == (rho + a) % qi);
    assert(zs % qi == (rho * rho + b) % qi);
    assert(zss % qi == (kappa * rho + c) % qi);
    // the second-round messages add up to A Z + B
    assert forall|i: int| 0 <= i < n implies #[trigger] outs[i] == (ucase_z * ucase_bs[i] * 0 + ucase_z
        * ucase_as[i] + ucase_bs[i]) % q by {
        assert(outs[i] == round_two_spec(ucase_as[i], ucase_bs[i], ucase_z, q));
        assert(ucase_as[i] * ucase_z == ucase_z * ucase_as[i]) by (nonlinear_arith);
    }
    lemma_sum_affine_mod(ucase_bs, ucase_as, ucase_bs, outs, ucase_z, 0, q);
    assert(sum_nats(outs) % q == (ucase_z * sum_nats(ucase_as) + sum_nats(ucase_bs)) % q);
    let ua = sum_nats(ucase_as) as int;
    let ub = sum_nats(ucase_bs) as int;
    lemma_cong_mul(z, rho + a, ua, kappa - 2 * a, qi);
    lemma_cong_add(z * ua, (rho + a) * (kappa - 2 * a), ub, a * a + b + c - a * kappa, qi);
    lemma_cong_mul(z, rho + a, z, rho + a, qi);
    let lhs1 = (rho + a) * (kappa - 2 * a) + (a * a + b + c - a * kappa);
    lemma_cong_add(sum_nats(outs) as int, lhs1, z * z, (rho + a) * (rho + a), qi);
    lemma_cong_sub(
        sum_nats(outs) + z * z,
        lhs1 + (rho + a) * (rho + a),
        zs,
        rho * rho + b,
        qi,
    );
    lemma_cong_sub(
        sum_nats(outs) + z * z - zs,
        lhs1 + (rho + a) * (rho + a) - (rho * rho + b),
        zss,
        kappa * rho + c,
        qi,
    );
    assert(lhs1 + (rho + a) * (rho + a) - (rho * rho + b) - (kappa * rho + c) == 0) by (nonlinear_arith)
        requires
            lhs1 == (rho + a) * (kappa - 2 * a) + (a * a + b + c - a * kappa),
    ;
    lemma_small_mod(0, q);
}

impl Server {
    /// The text that the `Display` impl writes: `Server { q: .. }`,
    /// each number in decimal.
    pub fn to_string(&self) -> (r: String)
        ensures
            r@ == struct_text("Server"@, seq![("q"@, self.q@)]),
    {
        let fields: Vec<(&str, &BigNat)> = vec![("q", &self.q)];
        let r = describe_struct("Server", &fields);
        assert(Seq::new(fields.len() as nat, |i: int| (fields[i].0@, fields[i].1@)) =~= seq![("q"@, self.q@)]);
        r
    }

    /// A server for `num_candidates` candidates and `num_servers` servers.
    pub fn new(num_servers: usize, num_candidates: usize, _q: &BigNat) -> (r: Server)
        ensures
            r.q@ == _q@,
            r.num_candidates == num_candidates,
            r.num_servers == num_servers,
    {
        Server { q: _q.copied(), num_candidates, num_servers }
    }

    /// First round of a Beaver multiplication: the shares `x_i - a_i` and
    /// `y_i - b_i` modulo `q` (zeros when `q` is zero).
    pub fn multiply_first(&self, x_i: &BigNat, y_i: &BigNat, a_i: &BigNat, b_i: &BigNat, ctx: &mut BigNumContext) -> (r: (BigNat, BigNat))
        ensures
            (r.0@, r.1@) == multiply_first_spec(x_i@, y_i@, a_i@, b_i@, self.q@),
    {
        let d_i = mod_sub_or_zero(x_i, a_i, &self.q, ctx);
        let e_i = mod_sub_or_zero(y_i, b_i, &self.q, ctx);
        (d_i, e_i)
    }

    /// Second round of a Beaver multiplication: `d b_i + e a_i + c_i` modulo
    /// `q`.
    pub fn multiply_second(&self, a_i: &BigNat, b_i: &BigNat, c_i: &BigNat, e: &BigNat, d: &BigNat) -> (r: BigNat)
        requires
            self.q@ > 0,
        ensures
            r@ == multiply_second_spec(a_i@, b_i@, c_i@, e@, d@, self.q@),
    {
        let db = d.mul(b_i);
        let ea = e.mul(a_i);
        db.add(&ea).add(c_i).rem(&self.q)
    }

    /// One random number below `q - 1` per candidate, shared by all servers
    /// to check the inputs.
    pub fn generate_fresh_randomness(&self) -> (r: Vec<BigNat>)
        requires
            self.num_candidates == 0 || self.q@ > 1,
        ensures
            r@.len() == self.num_candidates,
            forall|i: int| 0 <= i < r@.len() ==> #[trigger] r@[i]@ < self.q@ - 1,
    {
        let mut r_vec: Vec<BigNat> = Vec::new();
        for _i in 0..self.num_candidates
            invariant
                self.num_candidates == 0 || self.q@ > 1,
                r_vec@.len() == _i,
                forall|j: int| 0 <= j < r_vec@.len() ==> #[trigger] r_vec@[j]@ < self.q@ - 1,
        {
            r_vec.push(gen_random(&self.q).unwrap());
        }
        r_vec
    }

    /// The server's first-round message `(z_i + a_i, z*_i + b_i, z**_i + c_i)`
    /// modulo `q`, from its shares `v` of the vote and `kv` of the scaled
    /// vote and the common `randomness`.
    pub fn round_one_verification(
        &self,
        v: &Vec<BigNat>,
        kv: &Vec<BigNat>,
        randomness: &Vec<BigNat>,
        a_i: &BigNat,
        b_i: &BigNat,
        c_i: &BigNat,
        ctx: &mut BigNumContext,
    ) -> (r: (BigNat, BigNat, BigNat))
        requires
            self.q@ > 0,
            v@.len() >= self.num_candidates,
            kv@.len() >= self.num_candidates,
            randomness@.len() >= self.num_candidates,
        ensures
            (r.0@, r.1@, r.2@) == round_one_spec(
                nat_values(v@),
                nat_values(kv@),
                nat_values(randomness@),
                a_i@,
                b_i@,
                c_i@,
                self.num_candidates as nat,
                self.q@,
            ),
    {
        let z = reduced_inner_product(v, randomness, false, self.num_candidates, &self.q, ctx);
        let z_star = reduced_inner_product(v, randomness, true, self.num_candidates, &self.q, ctx);
        let z_star_star = reduced_inner_product(kv, randomness, false, self.num_candidates, &self.q, ctx);
        (z.add(a_i).rem(&self.q), z_star.add(b_i).rem(&self.q), z_star_star.add(c_i).rem(&self.q))
    }

    /// The server's second-round message `A_i Z + B_i mod q`.
    pub fn round_two_verification(&self, ucase_a_i: &BigNat, ucase_b_i: &BigNat, ucase_z: &BigNat) -> (r: BigNat)
        requires
            self.q@ > 0,
        ensures
            r@ == round_two_spec(ucase_a_i@, ucase_b_i@, ucase_z@, self.q@),
    {
        ucase_a_i.mul(ucase_z).add(ucase_b_i).rem(&self.q)
    }
}

} // verus!

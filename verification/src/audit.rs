//! The public board of the finite-field protocol: it multiplies the servers'
//! commitments into the commitment of the total, and checks a Fiat-Shamir
//! OR-proof that this total commits to a bit.
use crate::bignat::{be_value, minimal_be, BigNat};
use crate::digest::{sha3_256, sha3_256_digest};
use crate::linear::{lemma_cong_mod, lemma_cong_mul};
use crate::pedersen::{
    pedersen, pedersen_randomness_reduces_modulo_the_order, pedersen_reduces_modulo_the_order,
};
use crate::utils::{nat_values, product_nats};
use openssl::bn::BigNumContext;
use vstd::arithmetic::div_mod::{
    lemma_add_mod_noop, lemma_mod_add_multiples_vanish, lemma_mod_bound, lemma_mod_multiples_basic,
    lemma_small_mod,
};
use vstd::arithmetic::power::{
    lemma_pow0, lemma_pow_adds, lemma_pow_distributes, lemma_pow_mod_noop, lemma_pow_multiplies, pow,
};
use vstd::prelude::*;

verus! {

/// The commitment of the total: the product, modulo `p`, of the given
/// commitments; one when there are none.
pub open spec fn reconstructed_commitment(coms: Seq<nat>, p: nat) -> nat {
    if coms.len() == 0 {
        1
    } else {
        product_nats(coms) % p
    }
}

/// The Fiat-Shamir challenge of a proof about the commitment `c` with first
/// messages `d0` and `d1`: the SHA3-256 digest of their shortest big-endian
/// bytes, read as a big-endian number, modulo `q`.
pub open spec fn fiat_shamir_challenge(c: nat, d0: nat, d1: nat, q: nat) -> nat {
    be_value(sha3_256(minimal_be(c) + minimal_be(d0) + minimal_be(d1))) % q
}

/// The public board: the servers' commitments, the group (`p`, `q`, `g`,
/// `h`) and the transcript `(d0, d1, e, e0, e1, v0, v1)` of an OR-proof that
/// the product of the commitments commits to 0 or 1.
pub struct Board {
    pub coms: Vec<BigNat>,
    pub p: BigNat,
    pub q: BigNat,
    pub g: BigNat,
    pub h: BigNat,
    pub e0: BigNat,
    pub e1: BigNat,
    pub e: BigNat,
    pub v0: BigNat,
    pub v1: BigNat,
    pub d0: BigNat,
    pub d1: BigNat,
    pub num_shares: usize,
}

impl Board {
    /// The commitment of the total of the first `num_shares` commitments.
    pub open spec fn spec_total_commitment(&self) -> nat {
        reconstructed_commitment(
            nat_values(self.coms@.take(self.num_shares as int)),
            self.p@,
        )
    }

    /// Whether the transcript passes the checks of the board: the challenge
    /// is the hash of the commitment and first messages, it splits as
    /// `e = e0 + e1 (mod q)`, and `d0 c^e0 = h^v0`, `d1 c^e1 = g^e1 h^v1`
    /// modulo `p`, where `c` is the commitment of the total.
    pub open spec fn transcript_holds(&self) -> bool {
        let c = self.spec_total_commitment();
        let p = self.p@ as int;
        &&& fiat_shamir_challenge(c, self.d0@, self.d1@, self.q@) == self.e@
        &&& self.e@ == (self.e0@ + self.e1@) % self.q@
        &&& (self.d0@ * pow(c as int, self.e0@)) % p == pow(self.h@ as int, self.v0@) % p
        &&& (self.d1@ * pow(c as int, self.e1@)) % p == (pow(self.g@ as int, self.e1@) * pow(
            self.h@ as int,
            self.v1@,
        )) % p
    }

    /// A board holding copies of the first `num_shares` commitments and of
    /// the group and transcript.
    pub fn new(
        _coms: &Vec<BigNat>,
        _p: &BigNat,
        _q: &BigNat,
        _g: &BigNat,
        _h: &BigNat,
        _e0: &BigNat,
        _e1: &BigNat,
        _e: &BigNat,
        _v0: &BigNat,
        _v1: &BigNat,
        _d0: &BigNat,
        _d1: &BigNat,
        num_shares: usize,
    ) -> (r: Board)
        requires
            _coms.len() >= num_shares,
        ensures
            r.coms.len() == num_shares,
            nat_values(r.coms@) == nat_values(_coms@.take(num_shares as int)),
            r.p@ == _p@,
            r.q@ == _q@,
            r.g@ == _g@,
            r.h@ == _h@,
            r.e0@ == _e0@,
            r.e1@ == _e1@,
            r.e@ == _e@,
            r.v0@ == _v0@,
            r.v1@ == _v1@,
            r.d0@ == _d0@,
            r.d1@ == _d1@,
            r.num_shares == num_shares,
    {
        let p = _p.copied();
        let q = _q.copied();
        let g = _g.copied();
        let h = _h.copied();
        let e0 = _e0.copied();
        let e1 = _e1.copied();
        let e = _e.copied();
        let v0 = _v0.copied();
        let v1 = _v1.copied();
        let d0 = _d0.copied();
        let d1 = _d1.copied();
        let mut coms: Vec<BigNat> = Vec::new();
        for i in 0..num_shares
            invariant
                _coms.len() >= num_shares,
                coms.len() == i,
                forall|k: int| 0 <= k < i ==> #[trigger] coms[k]@ == _coms[k]@,
        {
            coms.push(_coms[i].copied());
        }
        assert(nat_values(coms@) =~= nat_values(_coms@.take(num_shares as int)));
        Board { coms, p, q, g, h, e0, e1, e, v0, v1, d0, d1, num_shares }
    }

    /// Runs the checks of the board on its transcript.
    fn evaluate(&self, ctx: &mut BigNumContext) -> (r: bool)
        requires
            self.p@ > 0,
            self.q@ > 0,
            self.coms.len() >= self.num_shares,
        ensures
            r == self.transcript_holds(),
    {
        let ghost cs = nat_values(self.coms@.take(self.num_shares as int));
        let mut recons_com = BigNat::from_u32(1);
        for server_idx in 0..self.num_shares
            invariant
                self.p@ > 0,
                self.coms.len() >= self.num_shares,
                cs == nat_values(self.coms@.take(self.num_shares as int)),
                recons_com@ == reconstructed_commitment(cs.take(server_idx as int), self.p@),
        {
            let next = recons_com.mul(&self.coms[server_idx]).rem(&self.p);
            proof {
                let pre = cs.take(server_idx as int);
                let post = cs.take(server_idx + 1);
                assert(post.drop_last() =~= pre);
                assert(post.last() == self.coms[server_idx as int]@);
                if server_idx > 0 {
                    lemma_cong_mod(product_nats(pre) as int, self.p@ as int);
                    lemma_cong_mul(
                        recons_com@ as int,
                        product_nats(pre) as int,
                        self.coms[server_idx as int]@ as int,
                        self.coms[server_idx as int]@ as int,
                        self.p@ as int,
                    );
                } else {
                    assert(pre.len() == 0);
                    assert(product_nats(post) == product_nats(pre) * post.last());
                }
            }
            recons_com = next;
        }
        assert(cs.take(self.num_shares as int) =~= cs);
        let ghost c = recons_com@;
        let mut input_to_rom = recons_com.to_vec();
        let mut d0_bytes = self.d0.to_vec();
        let mut d1_bytes = self.d1.to_vec();
        input_to_rom.append(&mut d0_bytes);
        input_to_rom.append(&mut d1_bytes);
        let result = sha3_256_digest(&input_to_rom);
        let e_retrieved = BigNat::from_bytes_be(result.as_slice()).rem(&self.q);
        let hash_ok = e_retrieved.equals(&self.e);
        let split_ok = self.e.equals(&self.e0.add(&self.e1).rem(&self.q));

        let tmp = recons_com.mod_exp(&self.e0, &self.p, ctx);
        let tmp2 = self.h.mod_exp(&self.v0, &self.p, ctx);
        let first_ok = self.d0.mul(&tmp).rem(&self.p).equals(&tmp2);

        let tmp = recons_com.mod_exp(&self.e1, &self.p, ctx);
        let tmp3 = self.g.mod_exp(&self.e1, &self.p, ctx);
        let tmp2 = self.h.mod_exp(&self.v1, &self.p, ctx);
        let second_ok = self.d1.mul(&tmp).rem(&self.p).equals(&tmp3.mul(&tmp2).rem(&self.p));
        proof {
            let p = self.p@ as int;
            let pc0 = pow(c as int, self.e0@);
            let pc1 = pow(c as int, self.e1@);
            let pg = pow(self.g@ as int, self.e1@);
            let ph = pow(self.h@ as int, self.v1@);
            lemma_cong_mod(pc0, p);
            lemma_cong_mul(self.d0@ as int, self.d0@ as int, pc0 % p, pc0, p);
            lemma_cong_mod(pc1, p);
            lemma_cong_mul(self.d1@ as int, self.d1@ as int, pc1 % p, pc1, p);
            lemma_cong_mod(pg, p);
            lemma_cong_mod(ph, p);
            lemma_cong_mul(pg % p, pg, ph % p, ph, p);
        }
        hash_ok && split_ok && first_ok && second_ok
    }

    /// Checks the transcript on the board.  Each failed check is a panic
    /// (an assertion), so the function is only for transcripts that pass;
    /// [`Board::accepts`] answers for any transcript.
    pub fn verify(&self, ctx: &mut BigNumContext) -> (r: bool)
        requires
            self.p@ > 0,
            self.q@ > 0,
            self.coms.len() >= self.num_shares,
            self.transcript_holds(),
        ensures
            r,
    {
        self.evaluate(ctx)
    }

    /// Whether the transcript on the board passes all of its checks.
    pub fn accepts(&self, ctx: &mut BigNumContext) -> (r: bool)
        requires
            self.p@ > 0,
            self.q@ > 0,
            self.coms.len() >= self.num_shares,
        ensures
            r == self.transcript_holds(),
    {
        if self.evaluate(ctx) {
            self.verify(ctx)
        } else {
            false
        }
    }
}

/// For a modulus above one, the total commitment is the product of the
/// commitments reduced modulo `p`: a residue below `p`, congruent to the
/// product.
pub proof fn total_commitment_is_the_product_modulo_p(coms: Seq<nat>, p: nat)
    requires
        p > 1,
    ensures
        reconstructed_commitment(coms, p) == product_nats(coms) % p,
        reconstructed_commitment(coms, p) < p,
        reconstructed_commitment(coms, p) % p == product_nats(coms) % p,
{
    if coms.len() == 0 {
        assert(product_nats(coms) == 1);
        vstd::arithmetic::div_mod::lemma_small_mod(1, p);
    }
    vstd::arithmetic::div_mod::lemma_mod_twice(product_nats(coms) as int, p as int);
}

/// Whether the board accepts depends on the commitments only through their
/// product modulo `p`: two boards with the same group and transcript whose
/// commitments multiply to congruent numbers modulo `p` (for instance one
/// commitment replaced by a congruent one, or one commitment split among
/// servers) hash and check the same total, and accept alike.
pub proof fn acceptance_depends_on_the_product_modulo_p(b1: Board, b2: Board)
    requires
        b1.p@ > 1,
        b1.coms.len() >= b1.num_shares,
        b2.coms.len() >= b2.num_shares,
        b2.p@ == b1.p@,
        b2.q@ == b1.q@,
        b2.g@ == b1.g@,
        b2.h@ == b1.h@,
        b2.e@ == b1.e@,
        b2.e0@ == b1.e0@,
        b2.e1@ == b1.e1@,
        b2.v0@ == b1.v0@,
        b2.v1@ == b1.v1@,
        b2.d0@ == b1.d0@,
        b2.d1@ == b1.d1@,
        product_nats(nat_values(b1.coms@.take(b1.num_shares as int))) % b1.p@ == product_nats(
            nat_values(b2.coms@.take(b2.num_shares as int)),
        ) % b1.p@,
    ensures
        b1.spec_total_commitment() == b2.spec_total_commitment(),
        b1.spec_total_commitment() < b1.p@,
        b1.transcript_holds() == b2.transcript_holds(),
{
    total_commitment_is_the_product_modulo_p(nat_values(b1.coms@.take(b1.num_shares as int)), b1.p@);
    total_commitment_is_the_product_modulo_p(nat_values(b2.coms@.take(b2.num_shares as int)), b1.p@);
}

/// A commitment raised to `k` commits to `k` times its message with `k` times
/// its randomness.
proof fn lemma_pedersen_power(g: nat, h: nat, x: nat, r: nat, k: nat, m: nat)
    requires
        m > 0,
    ensures
        pow(pedersen(g, h, x, r, m) as int, k) % (m as int) == pedersen(g, h, x * k, r * k, m)
            as int,
{
    let mi = m as int;
    let a = pow(g as int, x);
    let b = pow(h as int, r);
    lemma_mod_bound(a * b, mi);
    lemma_pow_mod_noop(a * b, k, mi);
    lemma_pow_distributes(a, b, k);
    lemma_pow_multiplies(g as int, x, k);
    lemma_pow_multiplies(h as int, r, k);
    lemma_mod_bound(pow(g as int, x * k) * pow(h as int, r * k), mi);
}

/// A commitment made with elements of order `q` has order `q` too.
proof fn lemma_pedersen_order(g: nat, h: nat, x: nat, r: nat, q: nat, m: nat)
    requires
        m > 1,
        q > 0,
        pow(g as int, q) % (m as int) == 1,
        pow(h as int, q) % (m as int) == 1,
    ensures
        pow(pedersen(g, h, x, r, m) as int, q) % (m as int) == 1,
{
    let mi = m as int;
    lemma_small_mod(1, m);
    lemma_pedersen_power(g, h, x, r, q, m);
    pedersen_reduces_modulo_the_order(g, h, x * q, r * q, q, m);
    lemma_mod_multiples_basic(x as int, q as int);
    lemma_mod_multiples_basic(r as int, q as int);
    lemma_pow0(g as int);
    lemma_pow0(h as int);
}

/// Multiplying by `c^(q - e)` is undone by `c^e` when `c` has order `q`.
proof fn lemma_cancel_by_order(base: int, c: int, e: nat, q: nat, m: int)
    requires
        m > 1,
        e <= q,
        pow(c, q) % m == 1,
    ensures
        (((base * pow(c, (q - e) as nat)) % m) * pow(c, e)) % m == base % m,
{
    let x = base * pow(c, (q - e) as nat);
    lemma_cong_mod(x, m);
    lemma_cong_mul(x % m, x, pow(c, e), pow(c, e), m);
    lemma_pow_adds(c, (q - e) as nat, e);
    assert(x * pow(c, e) == base * pow(c, q)) by (nonlinear_arith)
        requires
            x == base * pow(c, (q - e) as nat),
            pow(c, q) == pow(c, (q - e) as nat) * pow(c, e),
    ;
    lemma_small_mod(1, m as nat);
    lemma_cong_mul(base, base, pow(c, q), 1, m);
}

/// `(a + (e + q - a) mod q) mod q = e` for `a` and `e` below `q`.
proof fn lemma_challenge_split(a: nat, e: nat, q: nat)
    requires
        a < q,
        e < q,
    ensures
        (a + (e + q - a) % (q as int)) % (q as int) == e,
        ((e + q - a) % (q as int) + a) % (q as int) == e,
{
    let qi = q as int;
    lemma_small_mod(a, q);
    lemma_small_mod(e, q);
    lemma_add_mod_noop(a as int, e + q - a, qi);
    lemma_add_mod_noop(e + q - a, a as int, qi);
    lemma_mod_add_multiples_vanish(e as int, qi);
}

/// The board accepts an honest proof that the total commits to one: with
/// `g` and `h` of order `q` modulo `p`, and servers' commitments that
/// multiply, modulo `p`, to `c = g h^r mod p`, the prover simulates the
/// branch of zero (`d0 = h^v0 c^(q - e0)` for chosen
/// `e0`, `v0`) and answers the branch of one honestly (`d1 = h^w`,
/// `e1 = e - e0 mod q`, `v1 = w + e1 r mod q`) on the hashed challenge `e`.
pub proof fn board_accepts_an_honest_proof_of_one(b: Board, r: nat, w: nat)
    requires
        b.p@ > 1,
        b.q@ > 0,
        b.coms.len() >= b.num_shares,
        pow(b.g@ as int, b.q@) % (b.p@ as int) == 1,
        pow(b.h@ as int, b.q@) % (b.p@ as int) == 1,
        product_nats(nat_values(b.coms@.take(b.num_shares as int))) % b.p@ == pedersen(
            b.g@,
            b.h@,
            1,
            r,
            b.p@,
        ),
        b.e0@ < b.q@,
        b.d0@ == (pow(b.h@ as int, b.v0@) * pow(
            pedersen(b.g@, b.h@, 1, r, b.p@) as int,
            (b.q@ - b.e0@) as nat,
        )) % (b.p@ as int),
        b.d1@ == pow(b.h@ as int, w) % (b.p@ as int),
        b.e@ == fiat_shamir_challenge(pedersen(b.g@, b.h@, 1, r, b.p@), b.d0@, b.d1@, b.q@),
        b.e1@ == (b.e@ + b.q@ - b.e0@) % (b.q@ as int),
        b.v1@ == (w + b.e1@ * r) % b.q@,
    ensures
        b.transcript_holds(),
{
    let p = b.p@ as int;
    let q = b.q@;
    let (g, h) = (b.g@, b.h@);
    let c = b.spec_total_commitment();
    total_commitment_is_the_product_modulo_p(nat_values(b.coms@.take(b.num_shares as int)), b.p@);
    let (e, e0, e1) = (b.e@, b.e0@, b.e1@);
    lemma_mod_bound(be_value(sha3_256(minimal_be(c) + minimal_be(b.d0@) + minimal_be(b.d1@))) as int, q as int);
    lemma_challenge_split(e0, e, q);
    lemma_pedersen_order(g, h, 1, r, q, b.p@);
    lemma_cancel_by_order(pow(h as int, b.v0@), c as int, e0, q, p);
    // the branch of one: d1 c^e1 = h^w g^e1 h^(r e1) = g^e1 h^(w + r e1)
    let hw = pow(h as int, w);
    let ge = pow(g as int, e1);
    let hre = pow(h as int, r * e1);
    lemma_pedersen_power(g, h, 1, r, e1, b.p@);
    lemma_mod_bound(ge * hre, p);
    lemma_cong_mod(hw, p);
    lemma_cong_mul(b.d1@ as int, hw, pow(c as int, e1), ge * hre, p);
    lemma_pow_adds(h as int, w, r * e1);
    assert(hw * (ge * hre) == ge * pow(h as int, w + r * e1)) by (nonlinear_arith)
        requires
            pow(h as int, w + r * e1) == hw * hre,
    ;
    assert(e1 * r == r * e1) by (nonlinear_arith);
    lemma_small_mod(1, b.p@);
    pedersen_randomness_reduces_modulo_the_order(g, h, e1, w + r * e1, q, b.p@);
    lemma_mod_bound(ge * pow(h as int, w + r * e1), p);
    lemma_mod_bound(ge * pow(h as int, b.v1@), p);
}

/// The board accepts an honest proof that the total commits to zero: with
/// `g` and `h` of order `q` modulo `p`, and servers' commitments that
/// multiply, modulo `p`, to `c = h^r mod p`, the prover simulates the
/// branch of one (`d1 = g^e1 h^v1 c^(q - e1)` for chosen
/// `e1`, `v1`) and answers the branch of zero honestly (`d0 = h^w`,
/// `e0 = e - e1 mod q`, `v0 = w + e0 r mod q`) on the hashed challenge `e`.
pub proof fn board_accepts_an_honest_proof_of_zero(b: Board, r: nat, w: nat)
    requires
        b.p@ > 1,
        b.q@ > 0,
        b.coms.len() >= b.num_shares,
        pow(b.g@ as int, b.q@) % (b.p@ as int) == 1,
        pow(b.h@ as int, b.q@) % (b.p@ as int) == 1,
        product_nats(nat_values(b.coms@.take(b.num_shares as int))) % b.p@ == pedersen(
            b.g@,
            b.h@,
            0,
            r,
            b.p@,
        ),
        b.e1@ < b.q@,
        b.d1@ == (pow(b.g@ as int, b.e1@) * pow(b.h@ as int, b.v1@) * pow(
            pedersen(b.g@, b.h@, 0, r, b.p@) as int,
            (b.q@ - b.e1@) as nat,
        )) % (b.p@ as int),
        b.d0@ == pow(b.h@ as int, w) % (b.p@ as int),
        b.e@ == fiat_shamir_challenge(pedersen(b.g@, b.h@, 0, r, b.p@), b.d0@, b.d1@, b.q@),
        b.e0@ == (b.e@ + b.q@ - b.e1@) % (b.q@ as int),
        b.v0@ == (w + b.e0@ * r) % b.q@,
    ensures
        b.transcript_holds(),
{
    let p = b.p@ as int;
    let q = b.q@;
    let (g, h) = (b.g@, b.h@);
    let c = b.spec_total_commitment();
    total_commitment_is_the_product_modulo_p(nat_values(b.coms@.take(b.num_shares as int)), b.p@);
    let (e, e0, e1) = (b.e@, b.e0@, b.e1@);
    lemma_mod_bound(be_value(sha3_256(minimal_be(c) + minimal_be(b.d0@) + minimal_be(b.d1@))) as int, q as int);
    lemma_challenge_split(e1, e, q);
    lemma_pedersen_order(g, h, 0, r, q, b.p@);
    lemma_cancel_by_order(
        pow(g as int, e1) * pow(h as int, b.v1@),
        c as int,
        e1,
        q,
        p,
    );
    // the branch of zero: d0 c^e0 = h^w h^(r e0) = h^(w + r e0)
    let hw = pow(h as int, w);
    let hre = pow(h as int, r * e0);
    lemma_pow0(g as int);
    lemma_pedersen_power(g, h, 0, r, e0, b.p@);
    lemma_mod_bound(1 * hre, p);
    lemma_cong_mod(hw, p);
    lemma_cong_mul(b.d0@ as int, hw, pow(c as int, e0), 1 * hre, p);
    lemma_pow_adds(h as int, w, r * e0);
    assert(e0 * r == r * e0) by (nonlinear_arith);
    lemma_small_mod(1, b.p@);
    pedersen_randomness_reduces_modulo_the_order(g, h, 0, w + r * e0, q, b.p@);
    lemma_mod_bound(1 * pow(h as int, w + r * e0), p);
    lemma_mod_bound(1 * pow(h as int, b.v0@), p);
}

} // verus!

//! The parties of the curve protocol: a board that checks OR-proofs, a
//! client, and a server that commits to coin flips with a fixed number of
//! ones and proves that each commitment holds a bit.
use crate::generic_commitments::{
    curve_transcript_holds, is_proof_of_one, is_proof_of_zero, pedersen_point,
    pedersen_point_is_homomorphic, CurveCommitment,
};
use crate::ristretto::{
    lemma_identity_and_inverse, lemma_identity_decodes, lemma_mul_zero_one, ristretto_add,
    ristretto_decodes, ristretto_group_laws, ristretto_identity, Point,
};
use crate::scalar::{group_order, Scalar};
use crate::sigma_ff::ProofScalar;
use coinflip::flip;
use vstd::arithmetic::power::pow;
use vstd::prelude::*;

verus! {

/// The number of openings in `s` whose bit is 1.
pub open spec fn count_ones(s: Seq<(Scalar, Scalar)>) -> nat
    decreases s.len(),
{
    if s.len() == 0 {
        0
    } else {
        count_ones(s.drop_last()) + (if s.last().0@ == 1 { 1nat } else { 0nat })
    }
}

/// The sum of the randomness of the openings in `s`.
pub open spec fn sum_randomness(s: Seq<(Scalar, Scalar)>) -> nat
    decreases s.len(),
{
    if s.len() == 0 {
        0
    } else {
        sum_randomness(s.drop_last()) + s.last().1@
    }
}

/// The number of `true` values in `s`.
pub open spec fn count_true(s: Seq<bool>) -> nat
    decreases s.len(),
{
    if s.len() == 0 {
        0
    } else {
        count_true(s.drop_last()) + (if s.last() { 1nat } else { 0nat })
    }
}

/// The first `n` coins of a batch of `k` coins with `l` ones drawn from the
/// fair flips `flips`: coin `i` is 0 once `l` ones are taken, else 1 once
/// `k - l` zeros are taken, else flip `i`.
pub open spec fn bernoulli_coins(flips: Seq<bool>, l: nat, k: nat, n: nat) -> Seq<bool>
    decreases n,
{
    if n == 0 {
        Seq::empty()
    } else {
        let prev = bernoulli_coins(flips, l, k, (n - 1) as nat);
        let ones = count_true(prev);
        let coin = if ones == l {
            false
        } else if (n - 1) - ones == k - l {
            true
        } else {
            flips[n - 1]
        };
        prev.push(coin)
    }
}

/// There are `n` coins among the first `n`.
proof fn lemma_bernoulli_coins_len(flips: Seq<bool>, l: nat, k: nat, n: nat)
    ensures
        bernoulli_coins(flips, l, k, n).len() == n,
    decreases n,
{
    if n > 0 {
        lemma_bernoulli_coins_len(flips, l, k, (n - 1) as nat);
    }
}

/// The sum of the commitments of the transcripts `ps`.
pub open spec fn sum_commitments(ps: Seq<ProofScalar<Scalar, Point>>) -> Seq<u8>
    decreases ps.len(),
{
    if ps.len() == 0 {
        ristretto_identity()
    } else {
        ristretto_add(sum_commitments(ps.drop_last()), ps.last().com@)
    }
}

/// `proof` commits to the coins opened by `opening`, `k` of them with `l`
/// ones when `l <= k`: each coin is a bit, each transcript is the honest
/// OR-proof for its coin and randomness and passes the board, the aggregate
/// is the sum of the randomness modulo `ℓ`, and the commitments add up to the
/// commitment to the number of ones with the aggregate as randomness.
pub open spec fn is_bernoulli_commitment(
    com: CurveCommitment,
    opening: Seq<(Scalar, Scalar)>,
    proof: DistBernoulliProof,
    l: nat,
    k: nat,
) -> bool {
    &&& opening.len() == k
    &&& proof.or_proofs.len() == k
    &&& l <= k ==> count_ones(opening) == l
    &&& forall|i: int| 0 <= i < k ==> (#[trigger] opening[i]).0@ == 0 || opening[i].0@ == 1
    &&& forall|i: int|
        0 <= i < k ==> (if (#[trigger] opening[i]).0@ == 1 {
            is_proof_of_one(com.g@, com.h@, opening[i].1@, proof.or_proofs[i])
        } else {
            is_proof_of_zero(com.g@, com.h@, opening[i].1@, proof.or_proofs[i])
        })
    &&& forall|i: int|
        0 <= i < k ==> curve_transcript_holds(com.g@, com.h@, #[trigger] proof.or_proofs[i])
    &&& proof.aggregate@ == sum_randomness(opening) % group_order()
    &&& sum_commitments(proof.or_proofs@) == pedersen_point(
        com.g@,
        com.h@,
        count_ones(opening),
        proof.aggregate@,
    )
}

/// `coinflip::flip`: a random boolean.  Which one comes back is chance: the
/// contract states nothing of it.
#[verifier::external_body]
fn coin_flip() -> (r: bool) {
    flip()
}

/// The public board of the curve protocol.
pub struct Board {
    pub g: Point,
    pub h: Point,
    pub com: CurveCommitment,
}

impl Board {
    /// A board with generators `g` and `h`.
    pub fn new(g: Point, h: Point) -> (r: Board)
        ensures
            r.g == g,
            r.h == h,
            r.com.g == g,
            r.com.h == h,
    {
        let com = CurveCommitment { g, h };
        Board { g, h, com }
    }

    /// The weights `2^i` of the binary digits of a number committed bit by
    /// bit in `commitments`, together with the generator `g`.
    pub fn binary_to_exp(&self, commitments: Vec<Point>) -> (r: (Vec<u128>, Point))
        requires
            commitments.len() <= 31,
        ensures
            r.0.len() == commitments.len(),
            forall|i: int| 0 <= i < r.0.len() ==> #[trigger] r.0[i] == pow(2, i as nat),
            r.1 == self.g,
    {
        let n = commitments.len();
        let mut weights: Vec<u128> = Vec::new();
        let mut w: u128 = 1;
        proof {
            vstd::arithmetic::power::lemma_pow0(2);
        }
        for i in 0..n
            invariant
                n <= 31,
                weights.len() == i,
                w == pow(2, i as nat),
                w <= 0x8000_0000,
                forall|j: int| 0 <= j < i ==> #[trigger] weights[j] == pow(2, j as nat),
        {
            weights.push(w);
            proof {
                vstd::arithmetic::power::lemma_pow_adds(2, i as nat, 1);
                vstd::arithmetic::power::lemma_pow1(2);
                vstd::arithmetic::power::lemma_pow_increases(2, (i + 1) as nat, 31);
                vstd::arithmetic::power2::lemma2_to64();
                vstd::arithmetic::power2::lemma_pow2(31);
            }
            w = w * 2;
        }
        (weights, self.g)
    }

    /// Runs the checks of the board on `transcript`.
    fn evaluate(&self, transcript: &ProofScalar<Scalar, Point>) -> (r: bool)
        ensures
            r == curve_transcript_holds(self.g@, self.h@, *transcript),
    {
        let e = CurveCommitment::challenge(&transcript.com, &transcript.d0, &transcript.d1);
        let hash_ok = e.equals(&transcript.e);
        let split_ok = transcript.e.equals(&transcript.e1.add(&transcript.e0));

        let ce0 = transcript.com.mul(&transcript.e0);
        let hv0 = self.h.mul(&transcript.v0);
        let first_ok = transcript.d0.add(&ce0).equals(&hv0);

        let ce1 = transcript.com.mul(&transcript.e1);
        let ge1 = self.g.mul(&transcript.e1);
        let hv1 = self.h.mul(&transcript.v1);
        let second_ok = transcript.d1.add(&ce1).equals(&ge1.add(&hv1));
        hash_ok && split_ok && first_ok && second_ok
    }

    /// Checks `transcript`.  Each failed check is a panic (an assertion), so
    /// the function is only for transcripts that pass; [`Board::accepts`]
    /// answers for any transcript.
    pub fn verify(&self, transcript: &ProofScalar<Scalar, Point>) -> (r: bool)
        requires
            curve_transcript_holds(self.g@, self.h@, *transcript),
        ensures
            r,
    {
        self.evaluate(transcript)
    }

    /// Whether `transcript` passes all the checks of the board.
    pub fn accepts(&self, transcript: &ProofScalar<Scalar, Point>) -> (r: bool)
        ensures
            r == curve_transcript_holds(self.g@, self.h@, *transcript),
    {
        if self.evaluate(transcript) {
            self.verify(transcript)
        } else {
            false
        }
    }
}

/// A client of the curve protocol.
pub struct Client {
    pub num_shares: usize,
    pub g: Point,
    pub h: Point,
    pub com: CurveCommitment,
}

impl Client {
    /// A client for `num_shares` servers with generators `g` and `h`.
    pub fn new(num_shares: usize, g: Point, h: Point) -> (r: Client)
        ensures
            r.num_shares == num_shares,
            r.g == g,
            r.h == h,
            r.com.g == g,
            r.com.h == h,
    {
        let com = CurveCommitment { g, h };
        Client { num_shares, g, h, com }
    }

    /// The input `1` with fresh commitment randomness.
    pub fn send_input_to_sever(&self) -> (r: (Scalar, Scalar))
        ensures
            r.0@ == 1,
    {
        let x = Scalar::one();
        let r = Scalar::random();
        (x, r)
    }
}

/// A server's commitments to coin flips: one OR-proof per coin and the sum
/// of the commitment randomness.
pub struct DistBernoulliProof {
    pub or_proofs: Vec<ProofScalar<Scalar, Point>>,
    pub aggregate: Scalar,
}

/// A server of the curve protocol; it keeps the openings of every batch of
/// coins it committed to.
pub struct Server {
    pub num_shares: usize,
    pub g: Point,
    pub h: Point,
    pub com: CurveCommitment,
    openings: Vec<Vec<(Scalar, Scalar)>>,
}

impl Server {
    /// The number of shares.
    pub closed spec fn spec_num_shares(&self) -> usize {
        self.num_shares
    }

    /// The first generator.
    pub closed spec fn spec_g(&self) -> Point {
        self.g
    }

    /// The second generator.
    pub closed spec fn spec_h(&self) -> Point {
        self.h
    }

    /// The commitment scheme.
    pub closed spec fn spec_com(&self) -> CurveCommitment {
        self.com
    }

    /// The openings kept, batch by batch: each coin with its randomness.
    pub closed spec fn spec_openings(&self) -> Seq<Seq<(Scalar, Scalar)>> {
        self.openings@.map_values(|v: Vec<(Scalar, Scalar)>| v@)
    }

    /// A server for `num_shares` shares with generators `g` and `h`, with no
    /// openings yet.
    pub fn new(num_shares: usize, g: Point, h: Point) -> (r: Server)
        ensures
            r.spec_num_shares() == num_shares,
            r.spec_g() == g,
            r.spec_h() == h,
            r.spec_com().g == g,
            r.spec_com().h == h,
            r.spec_openings() == Seq::<Seq<(Scalar, Scalar)>>::empty(),
    {
        let com = CurveCommitment { g, h };
        let r = Server { num_shares, g, h, com, openings: Vec::new() };
        assert(r.spec_openings() =~= Seq::<Seq<(Scalar, Scalar)>>::empty());
        r
    }

    /// The coin at `challenge_idx` of batch `opening_idx`, as a byte: 1 when
    /// it is the scalar 1, else 0.
    pub fn get_opening(&self, opening_idx: usize, challenge_idx: usize) -> (r: u8)
        requires
            opening_idx < self.spec_openings().len(),
            challenge_idx < self.spec_openings()[opening_idx as int].len(),
        ensures
            r == (if self.spec_openings()[opening_idx as int][challenge_idx as int].0@ == 1 {
                1u8
            } else {
                0u8
            }),
    {
        let (tmp, _) = self.openings[opening_idx][challenge_idx];
        if tmp.equals(&Scalar::one()) {
            1
        } else {
            0
        }
    }

    /// Forgets all openings.
    pub fn clear_openings(&mut self)
        ensures
            final(self).spec_openings() == Seq::<Seq<(Scalar, Scalar)>>::empty(),
            final(self).spec_num_shares() == old(self).spec_num_shares(),
            final(self).spec_g() == old(self).spec_g(),
            final(self).spec_h() == old(self).spec_h(),
            final(self).spec_com() == old(self).spec_com(),
    {
        self.openings = Vec::new();
        assert(self.spec_openings() =~= Seq::<Seq<(Scalar, Scalar)>>::empty());
    }

    /// A random scalar.
    pub fn get_random_value(&self) -> (r: Scalar)
        ensures
            r@ < group_order(),
    {
        Scalar::random()
    }

    /// Commits to `precision_bits` batches of `k` coins with `l` ones each
    /// (see [`Server::distributional_commitment_bernoulli`]), keeping their
    /// openings.
    pub fn distributional_geometric_com(&mut self, precision_bits: usize, l: usize, k: usize) -> (r:
        Vec<DistBernoulliProof>)
        requires
            l <= k || k == 0,
        ensures
            r.len() == precision_bits,
            final(self).spec_openings().len() == old(self).spec_openings().len() + precision_bits,
            final(self).spec_openings().take(old(self).spec_openings().len() as int)
                == old(self).spec_openings(),
            forall|j: int|
                0 <= j < precision_bits ==> is_bernoulli_commitment(
                    old(self).spec_com(),
                    #[trigger] final(self).spec_openings()[old(self).spec_openings().len() + j],
                    r[j],
                    l as nat,
                    k as nat,
                ),
            final(self).spec_num_shares() == old(self).spec_num_shares(),
            final(self).spec_g() == old(self).spec_g(),
            final(self).spec_h() == old(self).spec_h(),
            final(self).spec_com() == old(self).spec_com(),
    {
        let ghost start = self.spec_openings();
        let mut coin_coms: Vec<DistBernoulliProof> = Vec::new();
        for b in 0..precision_bits
            invariant
                l <= k || k == 0,
                coin_coms.len() == b,
                self.spec_openings().len() == start.len() + b,
                self.spec_openings().take(start.len() as int) == start,
                self.num_shares == old(self).spec_num_shares(),
                self.g == old(self).spec_g(),
                self.h == old(self).spec_h(),
                self.com == old(self).spec_com(),
                start == old(self).spec_openings(),
                forall|j: int|
                    0 <= j < b ==> is_bernoulli_commitment(
                        old(self).spec_com(),
                        #[trigger] self.spec_openings()[start.len() + j],
                        coin_coms[j],
                        l as nat,
                        k as nat,
                    ),
        {
            let ghost before = self.spec_openings();
            let proof = self.distributional_commitment_bernoulli(l, k);
            proof {
                assert(self.spec_openings().take(before.len() as int) == before);
                assert forall|j: int| 0 <= j < b implies #[trigger] self.spec_openings()[start.len()
                    + j] == before[start.len() + j] by {
                    assert(self.spec_openings().take(before.len() as int)[start.len() + j]
                        == self.spec_openings()[start.len() + j]);
                }
                assert(self.spec_openings().take(start.len() as int) =~= start) by {
                    assert forall|j: int| 0 <= j < start.len() implies self.spec_openings()[j]
                        == start[j] by {
                        assert(self.spec_openings().take(before.len() as int)[j]
                            == self.spec_openings()[j]);
                        assert(before.take(start.len() as int)[j] == before[j]);
                    }
                }
            }
            coin_coms.push(proof);
        }
        coin_coms
    }

    /// Commits to `k` coins of which `l` are ones (for `l <= k`): each coin
    /// is drawn by a fair flip until the ones or the zeros are used up, then
    /// takes the other value.  Each coin gets fresh randomness and the honest
    /// OR-proof for its value; the openings are kept as a new batch, and the
    /// proofs are returned with the sum of the randomness.  (The `k` fair
    /// flips are drawn first; see
    /// [`Server::distributional_commitment_bernoulli_with`].)
    pub fn distributional_commitment_bernoulli(&mut self, l: usize, k: usize) -> (r:
        DistBernoulliProof)
        requires
            l <= k || k == 0,
        ensures
            final(self).spec_openings().len() == old(self).spec_openings().len() + 1,
            final(self).spec_openings().take(old(self).spec_openings().len() as int)
                == old(self).spec_openings(),
            is_bernoulli_commitment(
                old(self).spec_com(),
                final(self).spec_openings().last(),
                r,
                l as nat,
                k as nat,
            ),
            final(self).spec_num_shares() == old(self).spec_num_shares(),
            final(self).spec_g() == old(self).spec_g(),
            final(self).spec_h() == old(self).spec_h(),
            final(self).spec_com() == old(self).spec_com(),
    {
        let mut flips: Vec<bool> = Vec::new();
        for _i in 0..k
            invariant
                flips.len() == _i,
        {
            flips.push(coin_flip());
        }
        self.distributional_commitment_bernoulli_with(l, k, &flips)
    }

    /// Commits to `k` coins of which `l` are ones (for `l <= k`), coin `i`
    /// being 0 once `l` ones are taken, else 1 once `k - l` zeros are taken,
    /// else `flips[i]`.  Each coin gets fresh randomness and the honest
    /// OR-proof for its value; the openings are kept as a new batch, and the
    /// proofs are returned with the sum of the randomness.
    pub fn distributional_commitment_bernoulli_with(&mut self, l: usize, k: usize, flips: &Vec<bool>) -> (r:
        DistBernoulliProof)
        requires
            l <= k || k == 0,
            flips.len() >= k,
        ensures
            final(self).spec_openings().len() == old(self).spec_openings().len() + 1,
            final(self).spec_openings().take(old(self).spec_openings().len() as int)
                == old(self).spec_openings(),
            is_bernoulli_commitment(
                old(self).spec_com(),
                final(self).spec_openings().last(),
                r,
                l as nat,
                k as nat,
            ),
            forall|j: int|
                0 <= j < k ==> (#[trigger] final(self).spec_openings().last()[j]).0@ == (if bernoulli_coins(
                    flips@,
                    l as nat,
                    k as nat,
                    k as nat,
                )[j] {
                    1nat
                } else {
                    0nat
                }),
            final(self).spec_num_shares() == old(self).spec_num_shares(),
            final(self).spec_g() == old(self).spec_g(),
            final(self).spec_h() == old(self).spec_h(),
            final(self).spec_com() == old(self).spec_com(),
    {
        let mut private_openings: Vec<(Scalar, Scalar)> = Vec::new();
        let mut proof_transcripts: Vec<ProofScalar<Scalar, Point>> = Vec::new();
        let mut count_ones: usize = 0;
        let mut count_zeroes: usize = 0;
        let mut aggregate_rand: Scalar = Scalar::zero();
        assert(sum_randomness(private_openings@) == 0);
        assert(0nat % group_order() == 0);
        proof {
            use_type_invariant(&self.com.g);
            use_type_invariant(&self.com.h);
            lemma_mul_zero_one(self.com.g@);
            lemma_mul_zero_one(self.com.h@);
            lemma_identity_decodes();
            lemma_identity_and_inverse(ristretto_identity());
        }
        for i in 0..k
            invariant
                l <= k || k == 0,
                flips.len() >= k,
                bernoulli_coins(flips@, l as nat, k as nat, i as nat).len() == i,
                count_ones == count_true(bernoulli_coins(flips@, l as nat, k as nat, i as nat)),
                forall|j: int|
                    0 <= j < i ==> (#[trigger] private_openings@[j]).0@ == (if bernoulli_coins(
                        flips@,
                        l as nat,
                        k as nat,
                        i as nat,
                    )[j] {
                        1nat
                    } else {
                        0nat
                    }),
                private_openings.len() == i,
                proof_transcripts.len() == i,
                count_ones + count_zeroes == i,
                count_ones <= l,
                l <= k ==> count_zeroes <= k - l,
                count_ones == self::count_ones(private_openings@),
                forall|j: int|
                    0 <= j < i ==> (#[trigger] private_openings@[j]).0@ == 0
                        || private_openings@[j].0@ == 1,
                forall|j: int|
                    0 <= j < i ==> (if (#[trigger] private_openings@[j]).0@ == 1 {
                        is_proof_of_one(self.com.g@, self.com.h@, private_openings@[j].1@, proof_transcripts@[j])
                    } else {
                        is_proof_of_zero(self.com.g@, self.com.h@, private_openings@[j].1@, proof_transcripts@[j])
                    }),
                aggregate_rand@ == sum_randomness(private_openings@) % group_order(),
                forall|j: int|
                    0 <= j < i ==> curve_transcript_holds(
                        self.com.g@,
                        self.com.h@,
                        #[trigger] proof_transcripts@[j],
                    ),
                sum_commitments(proof_transcripts@) == pedersen_point(
                    self.com.g@,
                    self.com.h@,
                    count_ones as nat,
                    aggregate_rand@,
                ),
                ristretto_group_laws(),
                ristretto_decodes(self.com.g@),
                ristretto_decodes(self.com.h@),
                self.com == old(self).spec_com(),
                self.num_shares == old(self).spec_num_shares(),
                self.g == old(self).spec_g(),
                self.h == old(self).spec_h(),
                self.openings == old(self).openings,
        {
            // Prover commits to a bit
            let r = self.get_random_value();
            let b;
            if count_ones == l {
                // All ones done
                b = false;
            } else if count_zeroes == k - l {
                // All zeroes done
                b = true;
            } else {
                // Flip uniform
                b = flips[i];
            }
            let ghost prev = private_openings@;
            let transcript;
            if b {
                transcript = self.com.create_proof_1(r);
                private_openings.push((Scalar::one(), r));
                count_ones = count_ones + 1;
            } else {
                transcript = self.com.create_proof_0(r);
                private_openings.push((Scalar::zero(), r));
                count_zeroes = count_zeroes + 1;
            }
            let ghost agg_before = aggregate_rand@;
            let ghost ps_before = proof_transcripts@;
            let ghost ones_before = if b { count_ones - 1 } else { count_ones as int };
            proof {
                use_type_invariant(&aggregate_rand);
                use_type_invariant(&r);
                pedersen_point_is_homomorphic(
                    self.com.g@,
                    self.com.h@,
                    ones_before as nat,
                    agg_before,
                    if b { 1 } else { 0 },
                    r@,
                );
            }
            aggregate_rand = aggregate_rand.add(&r);
            proof_transcripts.push(transcript);
            proof {
                assert(proof_transcripts@.drop_last() =~= ps_before);
                assert(private_openings@.drop_last() =~= prev);
                vstd::arithmetic::div_mod::lemma_add_mod_noop(
                    sum_randomness(prev) as int,
                    r@ as int,
                    group_order() as int,
                );
                vstd::arithmetic::div_mod::lemma_mod_twice(
                    sum_randomness(prev) as int,
                    group_order() as int,
                );
                vstd::arithmetic::div_mod::lemma_add_mod_noop(
                    (sum_randomness(prev) % group_order()) as int,
                    r@ as int,
                    group_order() as int,
                );
                vstd::arithmetic::div_mod::lemma_mod_twice(r@ as int, group_order() as int);
                let coins = bernoulli_coins(flips@, l as nat, k as nat, i as nat);
                let coins_next = bernoulli_coins(flips@, l as nat, k as nat, (i + 1) as nat);
                assert(coins_next == coins.push(b));
                assert(coins_next.drop_last() =~= coins);
                lemma_bernoulli_coins_len(flips@, l as nat, k as nat, (i + 1) as nat);
                assert forall|j: int| 0 <= j < i + 1 implies (#[trigger] private_openings@[j]).0@
                    == (if coins_next[j] { 1nat } else { 0nat }) by {
                    if j < i {
                        assert(private_openings@[j] == prev[j]);
                        assert(coins_next[j] == coins[j]);
                    }
                }
                assert forall|j: int| 0 <= j < i + 1 implies (#[trigger] private_openings@[j]).0@
                    == 0 || private_openings@[j].0@ == 1 by {
                    if j < i {
                        assert(private_openings@[j] == prev[j]);
                    }
                }
            }
        }
        let ghost opening = private_openings@;
        let r = DistBernoulliProof { or_proofs: proof_transcripts, aggregate: aggregate_rand };
        self.openings.push(private_openings);
        proof {
            assert(self.spec_openings().take(old(self).spec_openings().len() as int)
                =~= old(self).spec_openings());
            assert(self.spec_openings().last() == opening);
        }
        r
    }
}

} // verus!

//! Transcripts of the Fiat-Shamir OR-proofs that a commitment holds a bit.
//!
//! A transcript holds the commitment `com`, the first messages `d0` and
//! `d1`, the challenge `e` and its split `e0 + e1`, and the responses `v0`
//! and `v1`.  Its group elements have type `G` and its exponents type `S`:
//! numbers modulo a prime for the finite-field protocol, scalars and
//! Ristretto points for the curve protocol.
use crate::bignat::BigNat;
use crate::utils::nat_values;
use vstd::prelude::*;

verus! {

/// The transcript of an OR-proof for one commitment.
pub struct ProofScalar<S, G> {
    pub com: G,
    pub e0: S,
    pub e1: S,
    pub e: S,
    pub v0: S,
    pub v1: S,
    pub d0: G,
    pub d1: G,
}

impl ProofScalar<BigNat, BigNat> {
    /// A transcript holding copies of the given numbers.
    pub fn new(
        _com: &BigNat,
        _e0: &BigNat,
        _e1: &BigNat,
        _e: &BigNat,
        _v0: &BigNat,
        _v1: &BigNat,
        _d0: &BigNat,
        _d1: &BigNat,
    ) -> (r: ProofScalar<BigNat, BigNat>)
        ensures
            r.com@ == _com@,
            r.e0@ == _e0@,
            r.e1@ == _e1@,
            r.e@ == _e@,
            r.v0@ == _v0@,
            r.v1@ == _v1@,
            r.d0@ == _d0@,
            r.d1@ == _d1@,
    {
        let e0 = _e0.copied();
        let e1 = _e1.copied();
        let e = _e.copied();
        let v0 = _v0.copied();
        let v1 = _v1.copied();
        let d0 = _d0.copied();
        let d1 = _d1.copied();
        let com = _com.copied();
        ProofScalar { com, e0, e1, e, v0, v1, d0, d1 }
    }
}

/// The transcript of an OR-proof about a vector of commitments.
pub struct Proof {
    pub coms: Vec<BigNat>,
    pub e0: BigNat,
    pub e1: BigNat,
    pub e: BigNat,
    pub v0: BigNat,
    pub v1: BigNat,
    pub d0: BigNat,
    pub d1: BigNat,
}

impl Proof {
    /// A transcript holding copies of the given numbers.
    pub fn new(
        _coms: &Vec<BigNat>,
        _e0: &BigNat,
        _e1: &BigNat,
        _e: &BigNat,
        _v0: &BigNat,
        _v1: &BigNat,
        _d0: &BigNat,
        _d1: &BigNat,
    ) -> (r: Proof)
        ensures
            nat_values(r.coms@) == nat_values(_coms@),
            r.e0@ == _e0@,
            r.e1@ == _e1@,
            r.e@ == _e@,
            r.v0@ == _v0@,
            r.v1@ == _v1@,
            r.d0@ == _d0@,
            r.d1@ == _d1@,
    {
        let e0 = _e0.copied();
        let e1 = _e1.copied();
        let e = _e.copied();
        let v0 = _v0.copied();
        let v1 = _v1.copied();
        let d0 = _d0.copied();
        let d1 = _d1.copied();
        let mut coms: Vec<BigNat> = Vec::new();
        for i in 0.._coms.len()
            invariant
                coms.len() == i,
                forall|k: int| 0 <= k < i ==> #[trigger] coms[k]@ == _coms[k]@,
        {
            coms.push(_coms[i].copied());
        }
        assert(nat_values(coms@) =~= nat_values(_coms@));
        Proof { coms, e0, e1, e, v0, v1, d0, d1 }
    }
}

} // verus!

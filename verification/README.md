# dp_client

Building blocks for verifiable, differentially private aggregation of votes:
additive and Shamir secret sharing, Pedersen commitments modulo a prime and
in the Ristretto group, Fiat-Shamir OR-proofs that a commitment holds a bit,
Beaver multiplication, and the Prio and Poplar checks that a shared vote is
one-hot.  Every function of the library is proved against its Verus
contract; a function that returns a random value states what holds of every
value it may return.

Layout:

- `src/` — the verified library.  Big numbers are `bignat::BigNat` (OpenSSL
  does the arithmetic); scalars and points of the Ristretto group are
  `scalar::Scalar` and `ristretto::Point` (curve25519-dalek does the
  arithmetic).  The calls into outside crates sit in small trusted wrappers
  whose contracts state what the outside function computes.
- Shamir sharing evaluates polynomials by Horner's rule and interpolates at
  zero by Lagrange's formula (`shamir::mod_evaluate_polynomial`,
  `shamir::lagrange_interpolation_at_zero`), with residues taken in
  `0..prime` and denominators inverted as `d^(prime - 2)`.
- `tests/` — the protocol scenarios and tests of each module.
- `app/` — conversions to and from the OpenSSL and dalek types, and the
  printing done by the protocol code.

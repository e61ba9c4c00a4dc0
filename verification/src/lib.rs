//! Secret sharing, commitments and verification protocols for private
//! aggregation of votes.
pub mod bignat;
pub mod utils;
pub mod pedersen;
pub mod additive;
pub mod committed_additive;
pub mod pederson_additive;
pub mod finite_field_coms;
pub mod client;
pub mod simple_client;
pub mod verifiable_client;
pub mod beaver_triple;
pub mod linear;
pub mod prio;
pub mod poplar;
pub mod server;
pub mod simple_server;
pub mod converters;
pub mod prime_field;
pub mod polynomial;
pub mod shamir;
pub mod digest;
pub mod audit;
pub mod sigma_ff;
pub mod scalar;
pub mod ristretto;
pub mod generic_commitments;
pub mod participants;
pub mod elliptic;
pub mod sketching;
pub mod public_parameters;

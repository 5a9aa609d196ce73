//! Claim-binding and verification core for balance-loss claims.
//!
//! A prover asserts that a target's token balance dropped by more than a
//! disclosed threshold. This library holds the byte-exact commitment
//! encoding over the private witness, the big-endian fixed-width
//! arithmetic that computes the loss, and the binding checks that tie the
//! claim to a declared selector and bytecode digests.

pub mod arith;
pub mod assemble;
pub mod commit;
pub mod eval;
pub mod hashing;
pub mod parse;
pub mod simple;

pub use arith::ge_u256_vs_u128;
pub use arith::sub_u256_be_saturating;
pub use assemble::assemble_claim;
pub use commit::commit_all;
pub use commit::commit_raw;
pub use commit::encode_witness;
pub use commit::write_len;
pub use eval::evaluate;
pub use eval::BalanceWitness;
pub use eval::EvalError;
pub use eval::PrivateInputs;
pub use eval::PublicInputs;
pub use eval::PublicOutputs;
pub use hashing::sha256_of;

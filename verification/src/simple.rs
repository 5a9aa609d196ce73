//! The simplest claim shape: 128-bit balances, no commitment binding.
//!
//! An earlier, reduced form of the protocol: the witness carries the two
//! balances as native 128-bit integers and the claim is only that their
//! saturating difference exceeds the threshold. Unlike the full evaluator,
//! this shape compares strictly (`>`), a divergence between the claim
//! shapes that is kept as each shape defines it rather than silently
//! standardised.

use vstd::prelude::*;

verus! {

/// The public parameters of the reduced claim shape.
pub struct PublicInputs {
    pub target: [u8; 20],
    pub sender: [u8; 20],
    pub token: [u8; 20],
    pub threshold: u128,
}

/// The private witness of the reduced claim shape.
pub struct PrivateInputs {
    pub calldata: Vec<u8>,
    pub pre_balance: u128,
    pub post_balance: u128,
}

/// The loss as a saturating difference: zero when the balance grew.
pub open spec fn saturating_delta(pre: u128, post: u128) -> int {
    if pre >= post {
        pre - post
    } else {
        0
    }
}

/// Whether the witnessed loss strictly exceeds the declared threshold.
/// The caller aborts the whole evaluation when this returns false; only
/// then may the public parameters be emitted as the result.
pub fn claim_holds(p: &PublicInputs, w: &PrivateInputs) -> (r: bool)
    ensures
        r == (saturating_delta(w.pre_balance, w.post_balance) > p.threshold),
{
    let delta: u128 = if w.pre_balance >= w.post_balance {
        w.pre_balance - w.post_balance
    } else {
        0
    };
    delta > p.threshold
}

} // verus!

//! The witness assembler: builds matching claim parameters for a witness.
//!
//! Runs outside the constrained environment. Given the witness material and
//! the public claim values, it computes the commitment and the bytecode
//! digests exactly as the evaluator will recompute them, and reads the
//! selector off the call data, so that the assembled pair always passes the
//! evaluator's binding checks.

use vstd::prelude::*;

use crate::commit::{commit_all, encoding};
use crate::eval::{
    balance_blob_spec, checks_pass, lemma_assembled_claim_passes, BalanceWitness, EvalError,
    PrivateInputs, PublicInputs,
};
use crate::hashing::{sha256, sha256_of};

verus! {

/// Reads the 4-byte selector off the front of the call data.
fn read_selector(calldata: &Vec<u8>) -> (r: [u8; 4])
    requires
        calldata@.len() >= 4,
    ensures
        r@ == calldata@.subrange(0, 4),
{
    let mut sel: [u8; 4] = [0u8; 4];
    let mut i: usize = 0;
    while i < 4
        invariant
            0 <= i <= 4,
            calldata@.len() >= 4,
            sel@.len() == 4,
            forall|j: int| 0 <= j < i ==> sel@[j] == calldata@[j],
        decreases 4 - i,
    {
        sel[i] = calldata[i];
        i = i + 1;
    }
    proof {
        assert(sel@ =~= calldata@.subrange(0, 4));
    }
    sel
}

/// Builds the claim parameters and the private witness from the gathered
/// material: commitment over the witness encoding, digests of the two
/// bytecode blobs, selector read off the call data. Rejects call data too
/// short to carry a selector; an assembled pair passes every evaluator
/// check.
pub fn assemble_claim(
    threshold: u128,
    asset: [u8; 20],
    target: [u8; 20],
    balances: BalanceWitness,
    calldata: Vec<u8>,
    target_code: Vec<u8>,
    asset_code: Vec<u8>,
) -> (r: Result<(PublicInputs, PrivateInputs), EvalError>)
    requires
        calldata@.len() <= u32::MAX,
        target_code@.len() <= u32::MAX,
        asset_code@.len() <= u32::MAX,
    ensures
        r is Ok <==> calldata@.len() >= 4,
        match r {
            Ok(pair) => {
                &&& pair.1.balances == balances
                &&& pair.1.calldata@ == calldata@
                &&& pair.1.target_code@ == target_code@
                &&& pair.1.asset_code@ == asset_code@
                &&& pair.0.threshold == threshold
                &&& pair.0.asset@ == asset@
                &&& pair.0.target@ == target@
                &&& pair.0.selector@ == calldata@.subrange(0, 4)
                &&& pair.0.commitment@ == sha256_of(
                    encoding(balance_blob_spec(balances), calldata@, target_code@, asset_code@),
                )
                &&& pair.0.target_code_sha256@ == sha256_of(target_code@)
                &&& pair.0.asset_code_sha256@ == sha256_of(asset_code@)
                &&& checks_pass(pair.0, pair.1)
            },
            Err(e) => e == EvalError::MalformedWitness,
        },
{
    if calldata.len() < 4 {
        return Err(EvalError::MalformedWitness);
    }
    let selector = read_selector(&calldata);
    let target_sha = sha256(&target_code);
    let asset_sha = sha256(&asset_code);
    let balance_blob = balances.to_blob();
    let commitment = commit_all(&balance_blob, &calldata, &target_code, &asset_code);
    let p = PublicInputs {
        threshold,
        commitment,
        asset,
        target,
        selector,
        target_code_sha256: target_sha,
        asset_code_sha256: asset_sha,
    };
    let w = PrivateInputs { balances, calldata, target_code, asset_code };
    proof {
        lemma_assembled_claim_passes(p, w);
    }
    Ok((p, w))
}

} // verus!

//! The constrained evaluator: binding checks, loss arithmetic, result record.
//!
//! Given the public claim parameters and the private witness, the evaluator
//! recomputes the commitment, checks the selector and bytecode bindings,
//! computes the loss, and emits the one public result record. Every check
//! is a tagged result; the caller aborts the whole evaluation on any error,
//! so no partial record ever escapes a failed check.
//!
//! The threshold comparison here is inclusive (`>=`). One sibling claim
//! shape compares strictly; see the `simple` module.

use vstd::prelude::*;

use crate::arith::{be_val, ge_u256_vs_u128, pow256, sat_sub, sub_u256_be_saturating};
use crate::commit::{commit_all, encoding};
use crate::hashing::{sha256, sha256_of};

verus! {

/// The balance part of the private witness: either one balance read as the
/// whole potential loss, or a pre/post pair whose saturating difference is
/// the loss. Each balance is a 32-byte big-endian unsigned integer.
pub enum BalanceWitness {
    Single([u8; 32]),
    PrePost([u8; 32], [u8; 32]),
}

/// The public claim parameters, fixed once per claim and known to the
/// verifier.
pub struct PublicInputs {
    /// Minimum loss that satisfies the claim, as an unsigned 128-bit value.
    pub threshold: u128,
    /// The commitment over the full witness encoding.
    pub commitment: [u8; 32],
    /// Asset (token) address.
    pub asset: [u8; 20],
    /// Target (victim) address.
    pub target: [u8; 20],
    /// Declared 4-byte selector that the call data must open with.
    pub selector: [u8; 4],
    /// Digest binding the claim to the target's bytecode.
    pub target_code_sha256: [u8; 32],
    /// Digest binding the claim to the asset's bytecode.
    pub asset_code_sha256: [u8; 32],
}

/// The private witness, held only by the prover and consumed once.
pub struct PrivateInputs {
    pub balances: BalanceWitness,
    pub calldata: Vec<u8>,
    pub target_code: Vec<u8>,
    pub asset_code: Vec<u8>,
}

/// The public result record: the only artifact that survives the
/// evaluation.
pub struct PublicOutputs {
    pub threshold: u128,
    /// High 128 bits of the loss, big-endian.
    pub loss_hi: [u8; 16],
    /// Low 128 bits of the loss, big-endian.
    pub loss_lo: [u8; 16],
    pub loss_ge_threshold: bool,
    pub selector: [u8; 4],
    pub asset: [u8; 20],
    pub target: [u8; 20],
}

/// Why an evaluation was rejected. Every kind is fatal: a failed check
/// aborts the whole evaluation and no result record is emitted.
#[derive(Clone, Copy, Debug, PartialEq, Eq)]
pub enum EvalError {
    /// Recomputed commitment differs from the declared one.
    EncodingMismatch,
    /// Call data too short to hold a selector.
    MalformedWitness,
    /// Call data's leading bytes differ from the declared selector.
    SelectorMismatch,
    /// Hash of supplied bytecode differs from a declared digest.
    CodeDigestMismatch,
}

/// The blob that the balance part contributes to the commitment encoding.
pub open spec fn balance_blob_spec(b: BalanceWitness) -> Seq<u8> {
    match b {
        BalanceWitness::Single(bal) => bal@,
        BalanceWitness::PrePost(pre, post) => pre@ + post@,
    }
}

/// The loss that a balance witness stands for: the single balance itself,
/// or the saturating difference of the pre/post pair.
pub open spec fn loss_val(b: BalanceWitness) -> nat {
    match b {
        BalanceWitness::Single(bal) => be_val(bal@),
        BalanceWitness::PrePost(pre, post) => sat_sub(be_val(pre@), be_val(post@)),
    }
}

/// The recomputed commitment equals the declared one.
pub open spec fn commitment_ok(p: PublicInputs, w: PrivateInputs) -> bool {
    sha256_of(
        encoding(balance_blob_spec(w.balances), w.calldata@, w.target_code@, w.asset_code@),
    ) == p.commitment@
}

/// The call data is long enough to hold a selector.
pub open spec fn calldata_len_ok(w: PrivateInputs) -> bool {
    w.calldata@.len() >= 4
}

/// The call data opens with the declared selector.
pub open spec fn selector_ok(p: PublicInputs, w: PrivateInputs) -> bool
    recommends
        calldata_len_ok(w),
{
    w.calldata@.subrange(0, 4) == p.selector@
}

/// Both supplied bytecode blobs hash to their declared digests.
pub open spec fn code_digests_ok(p: PublicInputs, w: PrivateInputs) -> bool {
    sha256_of(w.target_code@) == p.target_code_sha256@ && sha256_of(w.asset_code@)
        == p.asset_code_sha256@
}

/// Every binding check of the protocol, together.
pub open spec fn checks_pass(p: PublicInputs, w: PrivateInputs) -> bool {
    commitment_ok(p, w) && calldata_len_ok(w) && selector_ok(p, w) && code_digests_ok(p, w)
}

/// What the result record must hold: every field a pure function of the
/// claim parameters and the witness.
pub open spec fn result_record_ok(p: PublicInputs, w: PrivateInputs, out: PublicOutputs) -> bool {
    &&& out.threshold == p.threshold
    &&& be_val(out.loss_hi@) * pow256(16) + be_val(out.loss_lo@) == loss_val(w.balances)
    &&& out.loss_ge_threshold == (loss_val(w.balances) >= p.threshold)
    &&& out.selector@ == p.selector@
    &&& out.asset@ == p.asset@
    &&& out.target@ == p.target@
}

impl BalanceWitness {
    /// The balance blob as bytes, exactly as it enters the encoding.
    pub fn to_blob(&self) -> (r: Vec<u8>)
        ensures
            r@ == balance_blob_spec(*self),
    {
        let mut out: Vec<u8> = Vec::new();
        match self {
            BalanceWitness::Single(bal) => {
                push_array32(&mut out, bal);
            },
            BalanceWitness::PrePost(pre, post) => {
                push_array32(&mut out, pre);
                push_array32(&mut out, post);
            },
        }
        out
    }
}

/// Appends all 32 bytes of an array to a growing byte vector.
fn push_array32(out: &mut Vec<u8>, a: &[u8; 32])
    ensures
        final(out)@ == old(out)@ + a@,
{
    let mut i: usize = 0;
    while i < 32
        invariant
            0 <= i <= 32,
            a@.len() == 32,
            out@ == old(out)@ + a@.subrange(0, i as int),
        decreases 32 - i,
    {
        out.push(a[i]);
        i = i + 1;
        proof {
            assert(out@ =~= old(out)@ + a@.subrange(0, i as int));
        }
    }
    proof {
        assert(old(out)@ + a@.subrange(0, 32) =~= old(out)@ + a@);
    }
}

/// Whether two 32-byte words are equal, byte for byte.
fn bytes32_eq(a: &[u8; 32], b: &[u8; 32]) -> (r: bool)
    ensures
        r <==> a@ == b@,
{
    let mut i: usize = 0;
    while i < 32
        invariant
            0 <= i <= 32,
            a@.len() == 32,
            b@.len() == 32,
            forall|j: int| 0 <= j < i ==> a@[j] == b@[j],
        decreases 32 - i,
    {
        if a[i] != b[i] {
            return false;
        }
        i = i + 1;
    }
    proof {
        assert(a@ =~= b@);
    }
    true
}

/// Whether the call data opens with the declared 4-byte selector.
fn selector_matches(calldata: &Vec<u8>, selector: &[u8; 4]) -> (r: bool)
    requires
        calldata@.len() >= 4,
    ensures
        r <==> calldata@.subrange(0, 4) == selector@,
{
    let mut i: usize = 0;
    while i < 4
        invariant
            0 <= i <= 4,
            calldata@.len() >= 4,
            selector@.len() == 4,
            forall|j: int| 0 <= j < i ==> calldata@[j] == selector@[j],
        decreases 4 - i,
    {
        if calldata[i] != selector[i] {
            proof {
                assert(calldata@.subrange(0, 4)[i as int] != selector@[i as int]);
            }
            return false;
        }
        i = i + 1;
    }
    proof {
        assert(calldata@.subrange(0, 4) =~= selector@);
    }
    true
}

/// Copies a 16-byte half out of a 32-byte loss word.
fn copy_half(loss: &[u8; 32], start: usize) -> (r: [u8; 16])
    requires
        start == 0 || start == 16,
    ensures
        r@ == loss@.subrange(start as int, start as int + 16),
{
    let mut half: [u8; 16] = [0u8; 16];
    let mut i: usize = 0;
    while i < 16
        invariant
            0 <= i <= 16,
            start == 0 || start == 16,
            loss@.len() == 32,
            half@.len() == 16,
            forall|j: int| 0 <= j < i ==> half@[j] == loss@[start + j],
        decreases 16 - i,
    {
        half[i] = loss[start + i];
        i = i + 1;
    }
    proof {
        assert(half@ =~= loss@.subrange(start as int, start as int + 16));
    }
    half
}

/// Runs every binding check and, only when all pass, computes the loss and
/// assembles the result record. Returns the first failing check's error,
/// in the declared order: commitment, call data length, selector, bytecode
/// digests.
pub fn evaluate(p: &PublicInputs, w: &PrivateInputs) -> (r: Result<PublicOutputs, EvalError>)
    requires
        w.calldata@.len() <= u32::MAX,
        w.target_code@.len() <= u32::MAX,
        w.asset_code@.len() <= u32::MAX,
    ensures
        r is Ok <==> checks_pass(*p, *w),
        match r {
            Ok(out) => result_record_ok(*p, *w, out),
            Err(e) => {
                &&& (e == EvalError::EncodingMismatch <==> !commitment_ok(*p, *w))
                &&& (e == EvalError::MalformedWitness <==> commitment_ok(*p, *w) && !calldata_len_ok(
                    *w,
                ))
                &&& (e == EvalError::SelectorMismatch <==> commitment_ok(*p, *w) && calldata_len_ok(
                    *w,
                ) && !selector_ok(*p, *w))
                &&& (e == EvalError::CodeDigestMismatch <==> commitment_ok(*p, *w)
                    && calldata_len_ok(*w) && selector_ok(*p, *w) && !code_digests_ok(*p, *w))
            },
        },
{
    let balance_blob = w.balances.to_blob();
    let commitment = commit_all(&balance_blob, &w.calldata, &w.target_code, &w.asset_code);
    if !bytes32_eq(&commitment, &p.commitment) {
        return Err(EvalError::EncodingMismatch);
    }
    if w.calldata.len() < 4 {
        return Err(EvalError::MalformedWitness);
    }
    if !selector_matches(&w.calldata, &p.selector) {
        return Err(EvalError::SelectorMismatch);
    }
    let t_sha = sha256(&w.target_code);
    if !bytes32_eq(&t_sha, &p.target_code_sha256) {
        return Err(EvalError::CodeDigestMismatch);
    }
    let a_sha = sha256(&w.asset_code);
    if !bytes32_eq(&a_sha, &p.asset_code_sha256) {
        return Err(EvalError::CodeDigestMismatch);
    }
    let loss: [u8; 32] = match &w.balances {
        BalanceWitness::Single(bal) => *bal,
        BalanceWitness::PrePost(pre, post) => sub_u256_be_saturating(pre, post),
    };
    let ge = ge_u256_vs_u128(&loss, p.threshold);
    let hi = copy_half(&loss, 0);
    let lo = copy_half(&loss, 16);
    proof {
        crate::arith::lemma_split_halves(loss@);
    }
    Ok(
        PublicOutputs {
            threshold: p.threshold,
            loss_hi: hi,
            loss_lo: lo,
            loss_ge_threshold: ge,
            selector: p.selector,
            asset: p.asset,
            target: p.target,
        },
    )
}

/// Law: a round trip through the protocol always binds. Parameters
/// assembled from a witness — commitment recomputed from the same bytes,
/// selector read off the call data, digests taken of the supplied
/// bytecode — pass every check of the evaluator.
pub proof fn lemma_assembled_claim_passes(p: PublicInputs, w: PrivateInputs)
    requires
        p.commitment@ == sha256_of(
            encoding(balance_blob_spec(w.balances), w.calldata@, w.target_code@, w.asset_code@),
        ),
        w.calldata@.len() >= 4,
        p.selector@ == w.calldata@.subrange(0, 4),
        p.target_code_sha256@ == sha256_of(w.target_code@),
        p.asset_code_sha256@ == sha256_of(w.asset_code@),
    ensures
        checks_pass(p, w),
{
}

} // verus!

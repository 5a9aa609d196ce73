use bbp_claim::{
    assemble_claim, commit_all, commit_raw, encode_witness, evaluate, BalanceWitness, EvalError,
    PrivateInputs, PublicInputs,
};
use bbp_claim::simple;
use sha2::Digest;

fn u128_word(v: u128) -> [u8; 32] {
    let mut w = [0u8; 32];
    w[16..32].copy_from_slice(&v.to_be_bytes());
    w
}

fn lo_half(v: u128) -> [u8; 16] {
    v.to_be_bytes()
}

fn assemble(
    threshold: u128,
    balances: BalanceWitness,
    calldata: &[u8],
) -> (PublicInputs, PrivateInputs) {
    assemble_claim(
        threshold,
        [0xaa; 20],
        [0xbb; 20],
        balances,
        calldata.to_vec(),
        vec![0x60, 0x01, 0x60, 0x02],
        vec![0x60, 0x03],
    )
    .expect("call data holds a selector")
}

#[test]
fn loss_above_threshold_is_proven() {
    // pre = 5000, post = 3000, threshold = 1000 -> loss = 2000, met.
    let balances = BalanceWitness::PrePost(u128_word(5000), u128_word(3000));
    let (p, w) = assemble(1000, balances, &[0xde, 0xad, 0xbe, 0xef]);
    let out = evaluate(&p, &w).expect("all checks pass");
    assert_eq!(out.threshold, 1000);
    assert_eq!(out.loss_hi, [0u8; 16]);
    assert_eq!(out.loss_lo, lo_half(2000));
    assert!(out.loss_ge_threshold);
    assert_eq!(out.selector, [0xde, 0xad, 0xbe, 0xef]);
    assert_eq!(out.asset, [0xaa; 20]);
    assert_eq!(out.target, [0xbb; 20]);
}

#[test]
fn grown_balance_misses_every_positive_threshold() {
    // pre = 3000, post = 5000 -> loss saturates to zero.
    let balances = BalanceWitness::PrePost(u128_word(3000), u128_word(5000));
    let (p, w) = assemble(1, balances, &[0xde, 0xad, 0xbe, 0xef]);
    let out = evaluate(&p, &w).expect("all checks pass");
    assert_eq!(out.loss_hi, [0u8; 16]);
    assert_eq!(out.loss_lo, [0u8; 16]);
    assert!(!out.loss_ge_threshold);
}

#[test]
fn zero_loss_still_meets_zero_threshold() {
    // The full evaluator compares inclusively.
    let balances = BalanceWitness::PrePost(u128_word(3000), u128_word(5000));
    let (p, w) = assemble(0, balances, &[0xde, 0xad, 0xbe, 0xef]);
    let out = evaluate(&p, &w).expect("all checks pass");
    assert!(out.loss_ge_threshold);
}

#[test]
fn wrong_selector_aborts() {
    // Call data 0xdeadbeef against declared selector 0xdeadbe00.
    let balances = BalanceWitness::PrePost(u128_word(5000), u128_word(3000));
    let (mut p, w) = assemble(1000, balances, &[0xde, 0xad, 0xbe, 0xef]);
    p.selector = [0xde, 0xad, 0xbe, 0x00];
    assert!(matches!(evaluate(&p, &w), Err(EvalError::SelectorMismatch)));
}

#[test]
fn wrong_code_digest_aborts() {
    // Arithmetic would pass, but the target bytecode hash is wrong.
    let balances = BalanceWitness::PrePost(u128_word(5000), u128_word(3000));
    let (mut p, w) = assemble(1000, balances, &[0xde, 0xad, 0xbe, 0xef]);
    p.target_code_sha256 = [0u8; 32];
    assert!(matches!(evaluate(&p, &w), Err(EvalError::CodeDigestMismatch)));

    let balances = BalanceWitness::PrePost(u128_word(5000), u128_word(3000));
    let (mut p, w) = assemble(1000, balances, &[0xde, 0xad, 0xbe, 0xef]);
    p.asset_code_sha256 = [0u8; 32];
    assert!(matches!(evaluate(&p, &w), Err(EvalError::CodeDigestMismatch)));
}

#[test]
fn wrong_commitment_aborts() {
    let balances = BalanceWitness::PrePost(u128_word(5000), u128_word(3000));
    let (mut p, w) = assemble(1000, balances, &[0xde, 0xad, 0xbe, 0xef]);
    p.commitment[0] ^= 1;
    assert!(matches!(evaluate(&p, &w), Err(EvalError::EncodingMismatch)));
}

#[test]
fn short_calldata_aborts() {
    let r = assemble_claim(
        1000,
        [0xaa; 20],
        [0xbb; 20],
        BalanceWitness::PrePost(u128_word(5000), u128_word(3000)),
        vec![0xde, 0xad],
        vec![0x60, 0x01],
        vec![0x60, 0x03],
    );
    assert!(matches!(r, Err(EvalError::MalformedWitness)));

    // Even with a matching commitment, the evaluator rejects short call data.
    let calldata = vec![0xde, 0xad];
    let target_code = vec![0x60, 0x01];
    let asset_code = vec![0x60, 0x03];
    let balances = BalanceWitness::PrePost(u128_word(5000), u128_word(3000));
    let blob = balances.to_blob();
    let commitment = commit_all(&blob, &calldata, &target_code, &asset_code);
    let p = PublicInputs {
        threshold: 1000,
        commitment,
        asset: [0xaa; 20],
        target: [0xbb; 20],
        selector: [0xde, 0xad, 0x00, 0x00],
        target_code_sha256: sha2::Sha256::digest(&target_code).into(),
        asset_code_sha256: sha2::Sha256::digest(&asset_code).into(),
    };
    let w = PrivateInputs { balances, calldata, target_code, asset_code };
    assert!(matches!(evaluate(&p, &w), Err(EvalError::MalformedWitness)));
}

#[test]
fn huge_loss_meets_largest_threshold() {
    // Loss >= 2^128: the high half is non-zero, so any threshold is met.
    let mut balance = [0u8; 32];
    balance[15] = 1;
    let balances = BalanceWitness::Single(balance);
    let (p, w) = assemble(u128::MAX, balances, &[0xde, 0xad, 0xbe, 0xef]);
    let out = evaluate(&p, &w).expect("all checks pass");
    assert!(out.loss_ge_threshold);
    let mut hi = [0u8; 16];
    hi[15] = 1;
    assert_eq!(out.loss_hi, hi);
    assert_eq!(out.loss_lo, [0u8; 16]);
}

#[test]
fn single_balance_counts_whole_balance_as_loss() {
    let balances = BalanceWitness::Single(u128_word(7777));
    let (p, w) = assemble(7777, balances, &[0xde, 0xad, 0xbe, 0xef]);
    let out = evaluate(&p, &w).expect("all checks pass");
    assert_eq!(out.loss_lo, lo_half(7777));
    assert!(out.loss_ge_threshold);
}

#[test]
fn commitment_is_deterministic() {
    let blob = u128_word(5).to_vec();
    let cd = vec![1, 2, 3, 4];
    let tc = vec![9, 9];
    let ac = vec![8];
    assert_eq!(commit_all(&blob, &cd, &tc, &ac), commit_all(&blob, &cd, &tc, &ac));
}

#[test]
fn commitment_is_order_sensitive() {
    let blob = u128_word(5).to_vec();
    let cd = vec![1, 2, 3, 4];
    let tc = vec![9, 9];
    let ac = vec![8];
    let base = commit_all(&blob, &cd, &tc, &ac);
    // swapping two blobs changes the digest
    assert_ne!(base, commit_all(&blob, &cd, &ac, &tc));
    assert_ne!(base, commit_all(&cd, &blob, &tc, &ac));
    // truncating a blob by one byte changes the digest
    assert_ne!(base, commit_all(&blob, &cd[..3].to_vec(), &tc, &ac));
    // flipping one bit changes the digest
    let mut flipped = cd.clone();
    flipped[0] ^= 0x80;
    assert_ne!(base, commit_all(&blob, &flipped, &tc, &ac));
}

#[test]
fn commitment_matches_hand_built_encoding() {
    let blob = u128_word(5000).to_vec();
    let cd = vec![0xde, 0xad, 0xbe, 0xef];
    let tc = vec![0x60, 0x01];
    let ac: Vec<u8> = vec![];
    let mut bytes: Vec<u8> = Vec::new();
    bytes.extend_from_slice(b"BBP");
    for blob in [&blob, &cd, &tc, &ac] {
        bytes.extend_from_slice(&(blob.len() as u32).to_be_bytes());
        bytes.extend_from_slice(blob);
    }
    assert_eq!(encode_witness(&blob, &cd, &tc, &ac), bytes);
    let expected: [u8; 32] = sha2::Sha256::digest(&bytes).into();
    assert_eq!(commit_all(&blob, &cd, &tc, &ac), expected);
}

#[test]
fn raw_commitment_matches_known_digest() {
    // SHA-256 of the empty string, a published test vector.
    let expected =
        hex::decode("e3b0c44298fc1c149afbf4c8996fb92427ae41e4649b934ca495991b7852b855").unwrap();
    assert_eq!(commit_raw(&Vec::new()).to_vec(), expected);

    let digest: [u8; 32] = sha2::Sha256::digest(b"BBP").into();
    assert_eq!(commit_raw(&b"BBP".to_vec()), digest);
}

#[test]
fn simple_shape_compares_strictly() {
    let p = simple::PublicInputs {
        target: [1; 20],
        sender: [2; 20],
        token: [3; 20],
        threshold: 2000,
    };
    let exactly = simple::PrivateInputs {
        calldata: vec![0xde, 0xad, 0xbe, 0xef],
        pre_balance: 5000,
        post_balance: 3000,
    };
    // delta == threshold does not satisfy the strict comparison
    assert!(!simple::claim_holds(&p, &exactly));
    let above = simple::PrivateInputs {
        calldata: vec![0xde, 0xad, 0xbe, 0xef],
        pre_balance: 5001,
        post_balance: 3000,
    };
    assert!(simple::claim_holds(&p, &above));
    let grew = simple::PrivateInputs {
        calldata: vec![0xde, 0xad, 0xbe, 0xef],
        pre_balance: 3000,
        post_balance: 5000,
    };
    assert!(!simple::claim_holds(&p, &grew));
}

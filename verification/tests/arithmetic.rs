use bbp_claim::{ge_u256_vs_u128, sub_u256_be_saturating};

fn u128_word(v: u128) -> [u8; 32] {
    let mut w = [0u8; 32];
    w[16..32].copy_from_slice(&v.to_be_bytes());
    w
}

#[test]
fn subtraction_is_exact_when_pre_dominates() {
    let pre = u128_word(5000);
    let post = u128_word(3000);
    assert_eq!(sub_u256_be_saturating(&pre, &post), u128_word(2000));

    let pre = u128_word(u128::MAX);
    let post = u128_word(1);
    assert_eq!(sub_u256_be_saturating(&pre, &post), u128_word(u128::MAX - 1));
}

#[test]
fn subtraction_saturates_to_zero_when_balance_grew() {
    let pre = u128_word(3000);
    let post = u128_word(5000);
    assert_eq!(sub_u256_be_saturating(&pre, &post), [0u8; 32]);

    let pre = [0u8; 32];
    let mut post = [0u8; 32];
    post[0] = 1;
    assert_eq!(sub_u256_be_saturating(&pre, &post), [0u8; 32]);
}

#[test]
fn subtraction_borrows_across_bytes() {
    // 0x0100 - 0x01 = 0x00ff
    let pre = u128_word(0x0100);
    let post = u128_word(0x01);
    assert_eq!(sub_u256_be_saturating(&pre, &post), u128_word(0x00ff));

    // borrow chain across the full low half: 2^128 - 1
    let mut pre = [0u8; 32];
    pre[15] = 1;
    let post = u128_word(1);
    assert_eq!(sub_u256_be_saturating(&pre, &post), u128_word(u128::MAX));
}

#[test]
fn threshold_comparison_is_inclusive() {
    let loss = u128_word(1000);
    assert!(ge_u256_vs_u128(&loss, 999));
    assert!(ge_u256_vs_u128(&loss, 1000));
    assert!(!ge_u256_vs_u128(&loss, 1001));
    assert!(ge_u256_vs_u128(&[0u8; 32], 0));
    assert!(!ge_u256_vs_u128(&[0u8; 32], 1));
}

#[test]
fn raising_the_loss_never_unmeets_a_threshold() {
    let threshold = 1500u128;
    let mut met = false;
    for loss in [0u128, 1, 1499, 1500, 1501, u128::MAX] {
        let now = ge_u256_vs_u128(&u128_word(loss), threshold);
        assert!(!met || now, "loss {loss} flipped a met threshold back to unmet");
        met = now;
    }
}

#[test]
fn nonzero_high_half_meets_every_threshold() {
    let mut loss = [0u8; 32];
    loss[15] = 1;  // loss = 2^128
    assert!(ge_u256_vs_u128(&loss, u128::MAX));

    let mut loss = [0u8; 32];
    loss[0] = 0xff;
    assert!(ge_u256_vs_u128(&loss, u128::MAX));
}

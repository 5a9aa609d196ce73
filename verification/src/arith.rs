//! Big-endian fixed-width arithmetic over 32-byte unsigned integers.
//!
//! Balances travel as 32-byte big-endian sequences. The loss is their
//! saturating difference, and the threshold comparison treats the loss as
//! a 256-bit value held against a 128-bit threshold.

use vstd::prelude::*;

verus! {

/// The unsigned integer that a big-endian byte sequence stands for.
pub open spec fn be_val(s: Seq<u8>) -> nat
    decreases s.len(),
{
    if s.len() == 0 {
        0
    } else {
        (256 * be_val(s.drop_last()) + s.last()) as nat
    }
}

/// 256 raised to `n`: the weight of a byte `n` places from the low end.
pub open spec fn pow256(n: nat) -> nat
    decreases n,
{
    if n == 0 {
        1
    } else {
        256 * pow256((n - 1) as nat)
    }
}

/// A big-endian value is bounded by the weight of its length.
pub proof fn lemma_be_val_bound(s: Seq<u8>)
    ensures
        be_val(s) < pow256(s.len()),
    decreases s.len(),
{
    if s.len() > 0 {
        lemma_be_val_bound(s.drop_last());
    }
}

/// Concatenation splits a big-endian value into weighted halves.
pub proof fn lemma_be_val_append(s: Seq<u8>, t: Seq<u8>)
    ensures
        be_val(s + t) == be_val(s) * pow256(t.len()) + be_val(t),
    decreases t.len(),
{
    if t.len() == 0 {
        assert(s + t =~= s);
        assert(be_val(t) == 0);
        assert(pow256(t.len()) == 1);
        assert(be_val(s) * 1 == be_val(s)) by (nonlinear_arith);
    } else {
        let t0 = t.drop_last();
        let b = t.last();
        lemma_be_val_append(s, t0);
        assert((s + t).drop_last() =~= s + t0);
        assert((s + t).last() == b);
        assert(be_val(s + t) == 256 * be_val(s + t0) + b);
        assert(be_val(t) == 256 * be_val(t0) + b);
        assert(pow256(t.len()) == 256 * pow256(t0.len()));
        assert(be_val(s + t) == 256 * (be_val(s) * pow256(t0.len())) + 256 * be_val(t0) + b);
        assert(be_val(s) * pow256(t.len()) == 256 * (be_val(s) * pow256(t0.len())))
            by (nonlinear_arith)
            requires
                pow256(t.len()) == 256 * pow256(t0.len()),
        ;
    }
}

/// A big-endian value is zero exactly when every byte is zero.
pub proof fn lemma_be_val_zero(s: Seq<u8>)
    ensures
        be_val(s) == 0 <==> (forall|i: int| 0 <= i < s.len() ==> s[i] == 0),
    decreases s.len(),
{
    if s.len() > 0 {
        lemma_be_val_zero(s.drop_last());
        if be_val(s) == 0 {
            assert(forall|i: int|
                0 <= i < s.len() - 1 ==> s[i] == s.drop_last()[i] && s.drop_last()[i] == 0);
        }
        if forall|i: int| 0 <= i < s.len() ==> s[i] == 0 {
            assert(forall|i: int| 0 <= i < s.len() - 1 ==> s.drop_last()[i] == s[i]);
        }
    }
}

/// Peeling the most-significant byte off a big-endian suffix.
pub proof fn lemma_be_val_peel_front(s: Seq<u8>, i: int, n: int)
    requires
        0 <= i < n <= s.len(),
    ensures
        be_val(s.subrange(i, n)) == s[i] * pow256((n - i - 1) as nat) + be_val(
            s.subrange(i + 1, n),
        ),
{
    let head = s.subrange(i, i + 1);
    let tail = s.subrange(i + 1, n);
    assert(s.subrange(i, n) =~= head + tail);
    lemma_be_val_append(head, tail);
    assert(head.len() == 1);
    assert(head.drop_last().len() == 0);
    assert(be_val(head.drop_last()) == 0);
    assert(head.last() == s[i]);
    assert(be_val(head) == s[i]);
}

/// Loss under saturating subtraction: the difference when it exists, else zero.
pub open spec fn sat_sub(a: nat, b: nat) -> nat {
    if a >= b {
        (a - b) as nat
    } else {
        0
    }
}

/// Byte-wise big-endian subtraction with borrow propagation; a borrow out of
/// the most-significant byte saturates the whole result to zero.
pub fn sub_u256_be_saturating(a: &[u8; 32], b: &[u8; 32]) -> (out: [u8; 32])
    ensures
        be_val(out@) == sat_sub(be_val(a@), be_val(b@)),
{
    let mut out: [u8; 32] = [0u8; 32];
    let mut borrow: u16 = 0;
    let mut i: usize = 32;
    while i > 0
        invariant
            0 <= i <= 32,
            borrow == 0 || borrow == 1,
            a@.len() == 32,
            b@.len() == 32,
            out@.len() == 32,
            be_val(out@.subrange(i as int, 32)) == be_val(a@.subrange(i as int, 32)) - be_val(
                b@.subrange(i as int, 32),
            ) + borrow * pow256((32 - i) as nat),
        decreases i,
    {
        let ghost prev_out = out@;
        let ghost prev_borrow = borrow as int;
        i = i - 1;
        let av: u16 = a[i] as u16;
        let bv: u16 = (b[i] as u16) + borrow;
        let d: u16;
        if av >= bv {
            d = av - bv;
            borrow = 0;
        } else {
            d = av + 256 - bv;
            borrow = 1;
        }
        out[i] = d as u8;
        proof {
            let ii = i as int;
            assert(out@.subrange(ii + 1, 32) =~= prev_out.subrange(ii + 1, 32));
            lemma_be_val_peel_front(out@, ii, 32);
            lemma_be_val_peel_front(a@, ii, 32);
            lemma_be_val_peel_front(b@, ii, 32);
            let p = pow256((31 - ii) as nat);
            assert(pow256((32 - ii) as nat) == 256 * p);
            assert(out@[ii] == a@[ii] - b@[ii] - prev_borrow + borrow * 256);
            assert(out@[ii] * p == (a@[ii] - b@[ii] - prev_borrow + borrow * 256) * p)
                by (nonlinear_arith)
                requires
                    out@[ii] == a@[ii] - b@[ii] - prev_borrow + borrow * 256,
            ;
            assert((a@[ii] - b@[ii] - prev_borrow + borrow * 256) * p == a@[ii] * p - b@[ii] * p
                - prev_borrow * p + borrow * (256 * p)) by (nonlinear_arith);
        }
    }
    proof {
        assert(a@.subrange(0, 32) =~= a@);
        assert(b@.subrange(0, 32) =~= b@);
        assert(out@.subrange(0, 32) =~= out@);
        lemma_be_val_bound(a@);
        lemma_be_val_bound(b@);
        lemma_be_val_bound(out@);
    }
    if borrow != 0 {
        let zero: [u8; 32] = [0u8; 32];
        proof {
            lemma_be_val_zero(zero@);
        }
        zero
    } else {
        out
    }
}

/// Whether a 256-bit big-endian loss value reaches a 128-bit threshold.
pub open spec fn threshold_met(loss: Seq<u8>, threshold: u128) -> bool {
    be_val(loss) >= threshold
}

/// Compares a 32-byte big-endian value against a 128-bit threshold with
/// inclusive semantics: any value with a non-zero high half exceeds every
/// possible threshold.
pub fn ge_u256_vs_u128(a: &[u8; 32], thr: u128) -> (r: bool)
    ensures
        r == threshold_met(a@, thr),
{
    let mut i: usize = 0;
    while i < 16
        invariant
            0 <= i <= 16,
            a@.len() == 32,
            forall|j: int| 0 <= j < i ==> a@[j] == 0,
        decreases 16 - i,
    {
        if a[i] != 0 {
            proof {
                lemma_high_half_nonzero(a@, i as int, thr);
            }
            return true;
        }
        i = i + 1;
    }
    let mut lo: u128 = 0;
    let mut j: usize = 16;
    while j < 32
        invariant
            16 <= j <= 32,
            a@.len() == 32,
            lo == be_val(a@.subrange(16, j as int)),
            lo < pow256((j - 16) as nat),
        decreases 32 - j,
    {
        let ghost prev = a@.subrange(16, j as int);
        proof {
            assert(a@.subrange(16, j as int + 1).drop_last() =~= prev);
            assert(pow256((j + 1 - 16) as nat) == 256 * pow256((j - 16) as nat));
            lemma_pow256_le((j - 16) as nat, 15);
            lemma_pow256_16();
            assert(pow256(16) == 256 * pow256(15));
        }
        lo = lo * 256 + (a[j] as u128);
        j = j + 1;
    }
    proof {
        lemma_split_halves(a@);
        lemma_be_val_zero(a@.subrange(0, 16));
    }
    lo >= thr
}

/// The weight of the high half of a 32-byte value: 2 to the 128th power.
proof fn lemma_pow256_16()
    ensures
        pow256(16) == 0x100000000000000000000000000000000,
{
    reveal_with_fuel(pow256, 17);
}

/// `pow256` grows with its exponent.
proof fn lemma_pow256_le(m: nat, n: nat)
    requires
        m <= n,
    ensures
        pow256(m) <= pow256(n),
    decreases n,
{
    if m < n {
        lemma_pow256_le(m, (n - 1) as nat);
        assert(pow256(n) == 256 * pow256((n - 1) as nat));
        assert(pow256((n - 1) as nat) <= 256 * pow256((n - 1) as nat)) by (nonlinear_arith)
            requires
                pow256((n - 1) as nat) >= 0,
        ;
    }
}

/// Law: meeting the threshold is monotonic in the loss. Raising the loss,
/// read as an unsigned 256-bit value, never turns a met threshold into a
/// missed one.
pub proof fn lemma_threshold_met_monotonic(l1: Seq<u8>, l2: Seq<u8>, thr: u128)
    requires
        be_val(l1) <= be_val(l2),
        threshold_met(l1, thr),
    ensures
        threshold_met(l2, thr),
{
}

/// A 32-byte value splits into its two 16-byte halves.
pub proof fn lemma_split_halves(s: Seq<u8>)
    requires
        s.len() == 32,
    ensures
        be_val(s) == be_val(s.subrange(0, 16)) * pow256(16) + be_val(s.subrange(16, 32)),
{
    assert(s =~= s.subrange(0, 16) + s.subrange(16, 32));
    lemma_be_val_append(s.subrange(0, 16), s.subrange(16, 32));
}

/// Law: a loss whose high 128 bits hold any non-zero byte meets every
/// possible 128-bit threshold.
pub proof fn lemma_high_half_nonzero(s: Seq<u8>, i: int, thr: u128)
    requires
        s.len() == 32,
        0 <= i < 16,
        s[i] != 0,
    ensures
        threshold_met(s, thr),
{
    lemma_split_halves(s);
    let hi = s.subrange(0, 16);
    lemma_be_val_zero(hi);
    assert(hi[i] == s[i]);
    assert(be_val(hi) >= 1);
    lemma_pow256_16();
    assert(be_val(hi) * pow256(16) >= pow256(16)) by (nonlinear_arith)
        requires
            be_val(hi) >= 1,
            pow256(16) > 0,
    ;
}

} // verus!

//! The commitment encoding: one digest binding every witness blob.
//!
//! The digest is taken over the domain tag `"BBP"` followed by each blob
//! preceded by its length as four big-endian bytes, strictly in the
//! declared order. The encoding itself is injective, so two distinct blob
//! lists never feed the hash the same bytes.

use vstd::prelude::*;

use crate::hashing::{sha256, sha256_of};

verus! {

/// The four big-endian bytes of a 32-bit length prefix.
pub open spec fn be32_bytes(n: u32) -> Seq<u8> {
    seq![
        (n >> 24) as u8,
        ((n >> 16) & 0xff) as u8,
        ((n >> 8) & 0xff) as u8,
        (n & 0xff) as u8,
    ]
}

/// The three tag bytes `"BBP"` that open every length-prefixed encoding.
pub open spec fn domain_tag() -> Seq<u8> {
    seq![0x42u8, 0x42u8, 0x50u8]
}

/// A blob preceded by its length as a 4-byte big-endian prefix.
pub open spec fn length_tagged(blob: Seq<u8>) -> Seq<u8>
    recommends
        blob.len() <= u32::MAX,
{
    be32_bytes(blob.len() as u32) + blob
}

/// The exact byte string that the commitment digest is computed over:
/// the domain tag, then each blob with its length prefix, in order.
pub open spec fn encoding(
    balance: Seq<u8>,
    calldata: Seq<u8>,
    target_code: Seq<u8>,
    asset_code: Seq<u8>,
) -> Seq<u8> {
    domain_tag() + (length_tagged(balance) + (length_tagged(calldata) + (length_tagged(target_code)
        + length_tagged(asset_code))))
}

/// Appends the 4-byte big-endian length prefix for `n` to the running
/// encoding.
pub fn write_len(out: &mut Vec<u8>, n: u32)
    ensures
        final(out)@ == old(out)@ + be32_bytes(n),
{
    proof {
        assert((n >> 24) <= 0xff && ((n >> 16) & 0xff) <= 0xff && ((n >> 8) & 0xff) <= 0xff && (n
            & 0xff) <= 0xff) by (bit_vector);
    }
    out.push((n >> 24) as u8);
    out.push(((n >> 16) & 0xff) as u8);
    out.push(((n >> 8) & 0xff) as u8);
    out.push((n & 0xff) as u8);
    proof {
        assert(out@ =~= old(out)@ + be32_bytes(n));
    }
}

/// Appends a whole blob to the running encoding.
fn push_bytes(out: &mut Vec<u8>, src: &Vec<u8>)
    ensures
        final(out)@ == old(out)@ + src@,
{
    let mut i: usize = 0;
    while i < src.len()
        invariant
            0 <= i <= src@.len(),
            out@ == old(out)@ + src@.subrange(0, i as int),
        decreases src@.len() - i,
    {
        out.push(src[i]);
        i = i + 1;
        proof {
            assert(out@ =~= old(out)@ + src@.subrange(0, i as int));
        }
    }
    proof {
        assert(old(out)@ + src@.subrange(0, src@.len() as int) =~= old(out)@ + src@);
    }
}

/// Builds the full length-prefixed encoding over the four witness blobs.
pub fn encode_witness(
    balance_blob: &Vec<u8>,
    calldata: &Vec<u8>,
    target_code: &Vec<u8>,
    asset_code: &Vec<u8>,
) -> (r: Vec<u8>)
    requires
        balance_blob@.len() <= u32::MAX,
        calldata@.len() <= u32::MAX,
        target_code@.len() <= u32::MAX,
        asset_code@.len() <= u32::MAX,
    ensures
        r@ == encoding(balance_blob@, calldata@, target_code@, asset_code@),
{
    let mut out: Vec<u8> = Vec::new();
    out.push(0x42u8);
    out.push(0x42u8);
    out.push(0x50u8);
    proof {
        assert(out@ =~= domain_tag());
    }
    write_len(&mut out, balance_blob.len() as u32);
    push_bytes(&mut out, balance_blob);
    write_len(&mut out, calldata.len() as u32);
    push_bytes(&mut out, calldata);
    write_len(&mut out, target_code.len() as u32);
    push_bytes(&mut out, target_code);
    write_len(&mut out, asset_code.len() as u32);
    push_bytes(&mut out, asset_code);
    proof {
        assert(out@ =~= encoding(balance_blob@, calldata@, target_code@, asset_code@));
    }
    out
}

/// The commitment over the four witness blobs: the hash of their
/// length-prefixed encoding.
pub fn commit_all(
    balance_blob: &Vec<u8>,
    calldata: &Vec<u8>,
    target_code: &Vec<u8>,
    asset_code: &Vec<u8>,
) -> (r: [u8; 32])
    requires
        balance_blob@.len() <= u32::MAX,
        calldata@.len() <= u32::MAX,
        target_code@.len() <= u32::MAX,
        asset_code@.len() <= u32::MAX,
    ensures
        r@ == sha256_of(encoding(balance_blob@, calldata@, target_code@, asset_code@)),
{
    let encoded = encode_witness(balance_blob, calldata, target_code, asset_code);
    sha256(&encoded)
}

/// The 4-byte length prefix determines the length it encodes.
proof fn lemma_be32_injective(n1: u32, n2: u32)
    requires
        be32_bytes(n1) == be32_bytes(n2),
    ensures
        n1 == n2,
{
    assert(be32_bytes(n1)[0] == be32_bytes(n2)[0]);
    assert(be32_bytes(n1)[1] == be32_bytes(n2)[1]);
    assert(be32_bytes(n1)[2] == be32_bytes(n2)[2]);
    assert(be32_bytes(n1)[3] == be32_bytes(n2)[3]);
    assert(n1 == n2) by (bit_vector)
        requires
            (n1 >> 24) as u8 == (n2 >> 24) as u8,
            ((n1 >> 16) & 0xff) as u8 == ((n2 >> 16) & 0xff) as u8,
            ((n1 >> 8) & 0xff) as u8 == ((n2 >> 8) & 0xff) as u8,
            (n1 & 0xff) as u8 == (n2 & 0xff) as u8,
    ;
}

/// A length-tagged blob can be read back off the front of an encoding:
/// equal encodings force equal blobs and equal remainders.
proof fn lemma_tagged_prefix_injective(x1: Seq<u8>, r1: Seq<u8>, x2: Seq<u8>, r2: Seq<u8>)
    requires
        x1.len() <= u32::MAX,
        x2.len() <= u32::MAX,
        length_tagged(x1) + r1 == length_tagged(x2) + r2,
    ensures
        x1 == x2,
        r1 == r2,
{
    let e = length_tagged(x1) + r1;
    assert(be32_bytes(x1.len() as u32) =~= e.subrange(0, 4));
    assert(be32_bytes(x2.len() as u32) =~= e.subrange(0, 4));
    lemma_be32_injective(x1.len() as u32, x2.len() as u32);
    let n = x1.len() as int;
    assert(x1 =~= e.subrange(4, 4 + n));
    assert(x2 =~= e.subrange(4, 4 + n));
    assert(r1 =~= e.subrange(4 + n, e.len() as int));
    assert(r2 =~= e.subrange(4 + n, e.len() as int));
}

/// Law: the commitment encoding is injective. Two blob lists feed the hash
/// the same bytes only when they agree blob for blob, so swapping two
/// distinct blobs, truncating one, or flipping any bit always changes what
/// is hashed.
pub proof fn lemma_encoding_injective(
    bal1: Seq<u8>,
    cd1: Seq<u8>,
    tc1: Seq<u8>,
    ac1: Seq<u8>,
    bal2: Seq<u8>,
    cd2: Seq<u8>,
    tc2: Seq<u8>,
    ac2: Seq<u8>,
)
    requires
        bal1.len() <= u32::MAX,
        cd1.len() <= u32::MAX,
        tc1.len() <= u32::MAX,
        ac1.len() <= u32::MAX,
        bal2.len() <= u32::MAX,
        cd2.len() <= u32::MAX,
        tc2.len() <= u32::MAX,
        ac2.len() <= u32::MAX,
        encoding(bal1, cd1, tc1, ac1) == encoding(bal2, cd2, tc2, ac2),
    ensures
        bal1 == bal2,
        cd1 == cd2,
        tc1 == tc2,
        ac1 == ac2,
{
    let e1 = encoding(bal1, cd1, tc1, ac1);
    let rest1 = length_tagged(bal1) + (length_tagged(cd1) + (length_tagged(tc1) + length_tagged(
        ac1,
    )));
    let rest2 = length_tagged(bal2) + (length_tagged(cd2) + (length_tagged(tc2) + length_tagged(
        ac2,
    )));
    assert(rest1 =~= e1.subrange(3, e1.len() as int));
    assert(rest2 =~= e1.subrange(3, e1.len() as int));
    lemma_tagged_prefix_injective(
        bal1,
        length_tagged(cd1) + (length_tagged(tc1) + length_tagged(ac1)),
        bal2,
        length_tagged(cd2) + (length_tagged(tc2) + length_tagged(ac2)),
    );
    lemma_tagged_prefix_injective(
        cd1,
        length_tagged(tc1) + length_tagged(ac1),
        cd2,
        length_tagged(tc2) + length_tagged(ac2),
    );
    lemma_tagged_prefix_injective(tc1, length_tagged(ac1), tc2, length_tagged(ac2));
    assert(length_tagged(ac1) + Seq::<u8>::empty() =~= length_tagged(ac1));
    assert(length_tagged(ac2) + Seq::<u8>::empty() =~= length_tagged(ac2));
    lemma_tagged_prefix_injective(ac1, Seq::<u8>::empty(), ac2, Seq::<u8>::empty());
}

/// The degenerate commitment shape: the hash of the witness blob alone,
/// with no tag and no length prefixes.
pub fn commit_raw(witness_blob: &Vec<u8>) -> (r: [u8; 32])
    ensures
        r@ == sha256_of(witness_blob@),
{
    sha256(witness_blob)
}

} // verus!

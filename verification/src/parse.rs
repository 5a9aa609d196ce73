//! Byte-level parsing used while gathering witness material.
//!
//! The ledger interface hands balances, bytecode and transaction numbers
//! back as hex text; the claim's call data arrives as a file that holds
//! either hex text or raw bytes. Everything here is a pure function from
//! those bytes to the plain values the protocol works on.

use vstd::prelude::*;

verus! {

use vstd::string::StringSliceAdditionalSpecFns;
use vstd::string::StrSliceExecFns;

/// Why a piece of witness material was rejected while parsing.
#[derive(Clone, Copy, Debug, PartialEq, Eq)]
pub enum ParseError {
    /// Hex text with an odd number of digits.
    OddHexLength,
    /// A byte that is no hex digit where one was required.
    InvalidHexDigit,
    /// An address that is not `0x` followed by 40 hex characters.
    BadAddress,
    /// A balance word that did not decode to exactly 32 bytes.
    WrongWordLength,
    /// A number with no digits at all.
    EmptyNumber,
    /// A number too large for its 64-bit target.
    NumberTooLarge,
}

/// ASCII digits `0-9`, `a-f` and `A-F`.
pub open spec fn is_hex_digit(b: u8) -> bool {
    (48 <= b <= 57) || (97 <= b <= 102) || (65 <= b <= 70)
}

/// The value of one hex digit.
pub open spec fn hex_digit_val(b: u8) -> u8 {
    if 48 <= b <= 57 {
        (b - 48) as u8
    } else if 97 <= b <= 102 {
        (b - 87) as u8
    } else if 65 <= b <= 70 {
        (b - 55) as u8
    } else {
        0
    }
}

/// Every byte of the sequence is a hex digit.
pub open spec fn all_hex_digits(s: Seq<u8>) -> bool {
    forall|i: int| 0 <= i < s.len() ==> is_hex_digit(#[trigger] s[i])
}

/// The bytes that even-length hex text stands for, two digits a byte.
pub open spec fn hex_decoded(s: Seq<u8>) -> Seq<u8>
    recommends
        s.len() % 2 == 0,
{
    Seq::new(s.len() / 2, |i: int| (hex_digit_val(s[2 * i]) * 16 + hex_digit_val(s[2 * i + 1])) as u8)
}

/// Relies on hex::decode: even-length hex text decodes to its bytes, two
/// digits a byte; odd length and non-digit bytes are rejected, odd length
/// first.
#[verifier::external_body]
fn hex_decode_bytes(data: &[u8]) -> (r: Result<Vec<u8>, ParseError>)
    ensures
        r is Ok <==> (data@.len() % 2 == 0 && all_hex_digits(data@)),
        match r {
            Ok(out) => out@ == hex_decoded(data@),
            Err(e) => {
                &&& (e == ParseError::OddHexLength <==> data@.len() % 2 != 0)
                &&& (e == ParseError::InvalidHexDigit <==> data@.len() % 2 == 0 && !all_hex_digits(
                    data@,
                ))
            },
        },
{
    match hex::decode(data) {
        Ok(v) => Ok(v),
        Err(hex::FromHexError::OddLength) => Err(ParseError::OddHexLength),
        Err(hex::FromHexError::InvalidHexCharacter { .. }) => Err(ParseError::InvalidHexDigit),
        Err(hex::FromHexError::InvalidStringLength) => Err(ParseError::InvalidHexDigit),
    }
}

/// Hex text as the ledger returns it: any run of leading `0x` markers
/// taken off the front.
pub open spec fn strip_hex_marker(s: Seq<u8>) -> Seq<u8>
    decreases s.len(),
{
    if s.len() >= 2 && s[0] == 48 && s[1] == 120 {
        strip_hex_marker(s.subrange(2, s.len() as int))
    } else {
        s
    }
}

/// Finds where the payload starts after any leading `0x` markers.
fn find_payload_start(data: &Vec<u8>) -> (start: usize)
    ensures
        start <= data@.len(),
        strip_hex_marker(data@) == data@.subrange(start as int, data@.len() as int),
{
    let n = data.len();
    let mut start: usize = 0;
    proof {
        assert(data@.subrange(0, data@.len() as int) =~= data@);
    }
    while n - start >= 2 && data[start] == 48 && data[start + 1] == 120
        invariant
            start <= n,
            n == data@.len(),
            strip_hex_marker(data@) == strip_hex_marker(
                data@.subrange(start as int, data@.len() as int),
            ),
        decreases n - start,
    {
        proof {
            let cur = data@.subrange(start as int, data@.len() as int);
            assert(cur.subrange(2, cur.len() as int) =~= data@.subrange(
                start as int + 2,
                data@.len() as int,
            ));
        }
        start = start + 2;
    }
    proof {
        let cur = data@.subrange(start as int, data@.len() as int);
        if cur.len() >= 2 {
            assert(cur[0] == data@[start as int]);
            assert(cur[1] == data@[start as int + 1]);
        }
    }
    start
}

/// Decodes hex text into bytes after taking any `0x` marker off the front.
pub fn decode_hex_payload(data: &Vec<u8>) -> (r: Result<Vec<u8>, ParseError>)
    ensures
        r is Ok <==> (strip_hex_marker(data@).len() % 2 == 0 && all_hex_digits(
            strip_hex_marker(data@),
        )),
        match r {
            Ok(out) => out@ == hex_decoded(strip_hex_marker(data@)),
            Err(e) => {
                &&& (e == ParseError::OddHexLength <==> strip_hex_marker(data@).len() % 2 != 0)
                &&& (e == ParseError::InvalidHexDigit <==> strip_hex_marker(data@).len() % 2 == 0
                    && !all_hex_digits(strip_hex_marker(data@)))
            },
        },
{
    let start = find_payload_start(data);
    let mut payload: Vec<u8> = Vec::new();
    let mut i: usize = start;
    while i < data.len()
        invariant
            start <= i <= data@.len(),
            payload@ == data@.subrange(start as int, i as int),
        decreases data@.len() - i,
    {
        payload.push(data[i]);
        i = i + 1;
        proof {
            assert(payload@ =~= data@.subrange(start as int, i as int));
        }
    }
    hex_decode_bytes(payload.as_slice())
}

/// The number that big-endian hex digits stand for.
pub open spec fn hex_num_val(s: Seq<u8>) -> nat
    decreases s.len(),
{
    if s.len() == 0 {
        0
    } else {
        (16 * hex_num_val(s.drop_last()) + hex_digit_val(s.last())) as nat
    }
}

/// A prefix of a hex number never exceeds the whole number.
proof fn lemma_hex_prefix_le(s: Seq<u8>, j: int)
    requires
        0 <= j <= s.len(),
    ensures
        hex_num_val(s.subrange(0, j)) <= hex_num_val(s),
    decreases s.len() - j,
{
    if j == s.len() {
        assert(s.subrange(0, j) =~= s);
    } else {
        lemma_hex_prefix_le(s, j + 1);
        assert(s.subrange(0, j + 1).drop_last() =~= s.subrange(0, j));
        assert(hex_num_val(s.subrange(0, j + 1)) == (16 * hex_num_val(s.subrange(0, j))
            + hex_digit_val(s.subrange(0, j + 1).last())) as nat);
    }
}

/// Parses hex text, possibly behind a `0x` marker, as an unsigned 64-bit
/// number, as a ledger reports block numbers.
pub fn parse_hex_u64(s: &str) -> (r: Result<u64, ParseError>)
    ensures
        ({
            let t = strip_hex_marker(s.spec_bytes());
            &&& (r is Ok <==> t.len() > 0 && all_hex_digits(t) && hex_num_val(t) <= u64::MAX)
            &&& match r {
                Ok(v) => v == hex_num_val(t),
                Err(e) => {
                    &&& (e == ParseError::EmptyNumber <==> t.len() == 0)
                    &&& (e == ParseError::InvalidHexDigit <==> t.len() > 0 && !all_hex_digits(t))
                    &&& (e == ParseError::NumberTooLarge <==> t.len() > 0 && all_hex_digits(t)
                        && hex_num_val(t) > u64::MAX)
                },
            }
        }),
{
    let bytes = s.as_bytes_vec();
    let start = find_payload_start(&bytes);
    let n = bytes.len();
    let ghost t = strip_hex_marker(s.spec_bytes());
    if start == n {
        proof {
            assert(t.len() == 0);
        }
        return Err(ParseError::EmptyNumber);
    }
    let mut v: usize = start;
    while v < n
        invariant
            start <= v <= n,
            n == bytes@.len(),
            start < n,
            bytes@ == s.spec_bytes(),
            t == strip_hex_marker(s.spec_bytes()),
            t == bytes@.subrange(start as int, n as int),
            forall|j: int| 0 <= j < v - start ==> is_hex_digit(#[trigger] t[j]),
        decreases n - v,
    {
        let b = bytes[v];
        proof {
            assert(t[v - start] == bytes@[v as int]);
        }
        if !(48 <= b && b <= 57 || 97 <= b && b <= 102 || 65 <= b && b <= 70) {
            proof {
                assert(!is_hex_digit(t[v - start]));
            }
            return Err(ParseError::InvalidHexDigit);
        }
        v = v + 1;
    }
    let mut acc: u64 = 0;
    let mut i: usize = start;
    proof {
        assert(t.subrange(0, 0) =~= Seq::<u8>::empty());
    }
    while i < n
        invariant
            start <= i <= n,
            n == bytes@.len(),
            start < n,
            bytes@ == s.spec_bytes(),
            t == strip_hex_marker(s.spec_bytes()),
            t == bytes@.subrange(start as int, n as int),
            all_hex_digits(t),
            acc == hex_num_val(t.subrange(0, i - start)),
        decreases n - i,
    {
        let b = bytes[i];
        proof {
            assert(t[i - start] == bytes@[i as int]);
            assert(is_hex_digit(t[i - start]));
        }
        let d: u8;
        if 48 <= b && b <= 57 {
            d = b - 48;
        } else if 97 <= b && b <= 102 {
            d = b - 87;
        } else {
            d = b - 55;
        }
        let ghost k = i - start;
        proof {
            assert(t.subrange(0, k + 1).drop_last() =~= t.subrange(0, k as int));
            assert(t.subrange(0, k + 1).last() == t[k as int]);
            assert(hex_digit_val(t[k as int]) == d);
        }
        if acc > (u64::MAX - (d as u64)) / 16 {
            proof {
                let cap = u64::MAX - d;
                assert(cap == 16 * (cap / 16) + cap % 16 && cap % 16 < 16);
                assert(16 * acc + d > u64::MAX);
                lemma_hex_prefix_le(t, k + 1);
            }
            return Err(ParseError::NumberTooLarge);
        }
        acc = acc * 16 + (d as u64);
        i = i + 1;
    }
    proof {
        assert(t.subrange(0, n - start) =~= t);
    }
    Ok(acc)
}

/// ASCII whitespace, as trimmed off hex text read from a file.
pub open spec fn is_space(b: u8) -> bool {
    b == 9 || b == 10 || b == 11 || b == 12 || b == 13 || b == 32
}

/// The sequence with leading whitespace taken off.
pub open spec fn trim_start(s: Seq<u8>) -> Seq<u8>
    decreases s.len(),
{
    if s.len() > 0 && is_space(s[0]) {
        trim_start(s.subrange(1, s.len() as int))
    } else {
        s
    }
}

/// The sequence with trailing whitespace taken off.
pub open spec fn trim_end(s: Seq<u8>) -> Seq<u8>
    decreases s.len(),
{
    if s.len() > 0 && is_space(s.last()) {
        trim_end(s.drop_last())
    } else {
        s
    }
}

/// The sequence with whitespace taken off both ends.
pub open spec fn trimmed(s: Seq<u8>) -> Seq<u8> {
    trim_end(trim_start(s))
}

/// Printable ASCII, space excluded.
pub open spec fn is_graphic(b: u8) -> bool {
    33 <= b <= 126
}

/// File content that reads as `0x`-prefixed hex text: long enough for the
/// marker plus four payload bytes, and printable throughout.
pub open spec fn looks_like_hex_text(s: Seq<u8>) -> bool {
    s.len() >= 10 && s[0] == 48 && s[1] == 120 && (forall|i: int|
        0 <= i < s.len() ==> is_graphic(#[trigger] s[i]))
}

/// Whether a byte is ASCII whitespace.
fn is_space_byte(b: u8) -> (r: bool)
    ensures
        r == is_space(b),
{
    b == 9 || b == 10 || b == 11 || b == 12 || b == 13 || b == 32
}

/// Interprets the content of a call-data file: if, after trimming
/// whitespace, it reads as printable `0x`-prefixed hex text, the decoded
/// bytes are the call data; otherwise the raw content is.
pub fn parse_calldata(raw: Vec<u8>) -> (r: Result<Vec<u8>, ParseError>)
    ensures
        ({
            let t = trimmed(raw@);
            if looks_like_hex_text(t) {
                let h = t.subrange(2, t.len() as int);
                &&& (r is Ok <==> h.len() % 2 == 0 && all_hex_digits(h))
                &&& match r {
                    Ok(v) => v@ == hex_decoded(h),
                    Err(e) => {
                        &&& (e == ParseError::OddHexLength <==> h.len() % 2 != 0)
                        &&& (e == ParseError::InvalidHexDigit <==> h.len() % 2 == 0
                            && !all_hex_digits(h))
                    },
                }
            } else {
                match r {
                    Ok(v) => v@ == raw@,
                    Err(_) => false,
                }
            }
        }),
{
    let n = raw.len();
    let mut lo: usize = 0;
    proof {
        assert(raw@.subrange(0, n as int) =~= raw@);
    }
    while lo < n && is_space_byte(raw[lo])
        invariant
            lo <= n,
            n == raw@.len(),
            trim_start(raw@) == trim_start(raw@.subrange(lo as int, n as int)),
        decreases n - lo,
    {
        proof {
            let cur = raw@.subrange(lo as int, n as int);
            assert(cur[0] == raw@[lo as int]);
            assert(cur.subrange(1, cur.len() as int) =~= raw@.subrange(lo as int + 1, n as int));
        }
        lo = lo + 1;
    }
    proof {
        let cur = raw@.subrange(lo as int, n as int);
        if cur.len() > 0 {
            assert(cur[0] == raw@[lo as int]);
        }
        assert(trim_start(raw@) == cur);
    }
    let mut hi: usize = n;
    while hi > lo && is_space_byte(raw[hi - 1])
        invariant
            lo <= hi <= n,
            n == raw@.len(),
            trim_start(raw@) == raw@.subrange(lo as int, n as int),
            trimmed(raw@) == trim_end(raw@.subrange(lo as int, hi as int)),
        decreases hi,
    {
        proof {
            let cur = raw@.subrange(lo as int, hi as int);
            assert(cur.last() == raw@[hi - 1]);
            assert(cur.drop_last() =~= raw@.subrange(lo as int, hi as int - 1));
        }
        hi = hi - 1;
    }
    proof {
        let cur = raw@.subrange(lo as int, hi as int);
        if cur.len() > 0 {
            assert(cur.last() == raw@[hi - 1]);
        }
        assert(trimmed(raw@) == cur);
    }
    let ghost t = trimmed(raw@);
    if hi - lo < 10 || raw[lo] != 48 || raw[lo + 1] != 120 {
        proof {
            if t.len() >= 2 {
                assert(t[0] == raw@[lo as int]);
                assert(t[1] == raw@[lo as int + 1]);
            }
            assert(!looks_like_hex_text(t));
        }
        return Ok(raw);
    }
    let mut k: usize = lo;
    while k < hi
        invariant
            lo <= k <= hi <= n,
            n == raw@.len(),
            t == trimmed(raw@),
            t == raw@.subrange(lo as int, hi as int),
            hi - lo >= 10,
            t[0] == 48,
            t[1] == 120,
            forall|j: int| 0 <= j < k - lo ==> is_graphic(#[trigger] t[j]),
        decreases hi - k,
    {
        let b = raw[k];
        if b < 33 || b > 126 {
            proof {
                assert(t[k - lo] == raw@[k as int]);
                assert(!is_graphic(t[k - lo]));
            }
            return Ok(raw);
        }
        k = k + 1;
    }
    let mut payload: Vec<u8> = Vec::new();
    let mut i: usize = lo + 2;
    while i < hi
        invariant
            lo + 2 <= i <= hi <= n,
            n == raw@.len(),
            t == trimmed(raw@),
            t == raw@.subrange(lo as int, hi as int),
            looks_like_hex_text(t),
            payload@ == raw@.subrange(lo as int + 2, i as int),
        decreases hi - i,
    {
        payload.push(raw[i]);
        i = i + 1;
        proof {
            assert(payload@ =~= raw@.subrange(lo as int + 2, i as int));
        }
    }
    proof {
        assert(payload@ =~= t.subrange(2, t.len() as int));
    }
    hex_decode_bytes(payload.as_slice())
}

/// Copies a decoded 32-byte balance word into its fixed-width form.
fn word32_from_bytes(v: &Vec<u8>) -> (r: [u8; 32])
    requires
        v@.len() == 32,
    ensures
        r@ == v@,
{
    let mut out: [u8; 32] = [0u8; 32];
    let mut i: usize = 0;
    while i < 32
        invariant
            0 <= i <= 32,
            v@.len() == 32,
            out@.len() == 32,
            forall|j: int| 0 <= j < i ==> out@[j] == v@[j],
        decreases 32 - i,
    {
        out[i] = v[i];
        i = i + 1;
    }
    proof {
        assert(out@ =~= v@);
    }
    out
}

/// Copies a decoded 20-byte address into its fixed-width form.
fn addr20_from_bytes(v: &Vec<u8>) -> (r: [u8; 20])
    requires
        v@.len() == 20,
    ensures
        r@ == v@,
{
    let mut out: [u8; 20] = [0u8; 20];
    let mut i: usize = 0;
    while i < 20
        invariant
            0 <= i <= 20,
            v@.len() == 20,
            out@.len() == 20,
            forall|j: int| 0 <= j < i ==> out@[j] == v@[j],
        decreases 20 - i,
    {
        out[i] = v[i];
        i = i + 1;
    }
    proof {
        assert(out@ =~= v@);
    }
    out
}

/// Decodes a ledger bytecode response: hex text, possibly behind a `0x`
/// marker, into the raw bytecode bytes. An empty response decodes to an
/// empty blob.
pub fn parse_code_blob(s: &str) -> (r: Result<Vec<u8>, ParseError>)
    ensures
        r is Ok <==> (strip_hex_marker(s.spec_bytes()).len() % 2 == 0 && all_hex_digits(
            strip_hex_marker(s.spec_bytes()),
        )),
        match r {
            Ok(out) => out@ == hex_decoded(strip_hex_marker(s.spec_bytes())),
            Err(e) => {
                &&& (e == ParseError::OddHexLength <==> strip_hex_marker(s.spec_bytes()).len() % 2
                    != 0)
                &&& (e == ParseError::InvalidHexDigit <==> strip_hex_marker(
                    s.spec_bytes(),
                ).len() % 2 == 0 && !all_hex_digits(strip_hex_marker(s.spec_bytes())))
            },
        },
{
    let bytes = s.as_bytes_vec();
    decode_hex_payload(&bytes)
}

/// Decodes a ledger balance response into a 32-byte big-endian word.
/// Anything that does not decode to exactly 32 bytes is rejected.
pub fn parse_balance_word(s: &str) -> (r: Result<[u8; 32], ParseError>)
    ensures
        ({
            let t = strip_hex_marker(s.spec_bytes());
            &&& (r is Ok <==> t.len() == 64 && all_hex_digits(t))
            &&& match r {
                Ok(w) => w@ == hex_decoded(t),
                Err(e) => {
                    &&& (e == ParseError::OddHexLength <==> t.len() % 2 != 0)
                    &&& (e == ParseError::InvalidHexDigit <==> t.len() % 2 == 0 && !all_hex_digits(
                        t,
                    ))
                    &&& (e == ParseError::WrongWordLength <==> t.len() % 2 == 0 && all_hex_digits(t)
                        && t.len() != 64)
                },
            }
        }),
{
    let bytes = s.as_bytes_vec();
    match decode_hex_payload(&bytes) {
        Ok(v) => {
            if v.len() != 32 {
                return Err(ParseError::WrongWordLength);
            }
            Ok(word32_from_bytes(&v))
        },
        Err(e) => Err(e),
    }
}

/// Parses a `0x`-prefixed, 40-hex-character address into its 20 bytes.
pub fn addr_to_20(a: &str) -> (r: Result<[u8; 20], ParseError>)
    ensures
        ({
            let b = a.spec_bytes();
            let shaped = b.len() == 42 && b[0] == 48 && b[1] == 120;
            &&& (r is Ok <==> shaped && all_hex_digits(b.subrange(2, 42)))
            &&& match r {
                Ok(out) => out@ == hex_decoded(b.subrange(2, 42)),
                Err(e) => {
                    &&& (e == ParseError::BadAddress <==> !shaped)
                    &&& (e == ParseError::InvalidHexDigit <==> shaped && !all_hex_digits(
                        b.subrange(2, 42),
                    ))
                },
            }
        }),
{
    let bytes = a.as_bytes_vec();
    if bytes.len() != 42 {
        return Err(ParseError::BadAddress);
    }
    if bytes[0] != 48 || bytes[1] != 120 {
        return Err(ParseError::BadAddress);
    }
    let mut hex_part: Vec<u8> = Vec::new();
    let mut i: usize = 2;
    while i < 42
        invariant
            2 <= i <= 42,
            bytes@.len() == 42,
            hex_part@ == bytes@.subrange(2, i as int),
        decreases 42 - i,
    {
        hex_part.push(bytes[i]);
        i = i + 1;
        proof {
            assert(hex_part@ =~= bytes@.subrange(2, i as int));
        }
    }
    match hex_decode_bytes(hex_part.as_slice()) {
        Ok(v) => Ok(addr20_from_bytes(&v)),
        Err(e) => Err(e),
    }
}

/// Lowercases one ASCII byte; everything but `A-Z` passes through.
pub open spec fn lower_ascii(b: u8) -> u8 {
    if 65 <= b <= 90 {
        (b + 32) as u8
    } else {
        b
    }
}

/// Relies on String::from_utf8: bytes below 128 are valid UTF-8 and come
/// back as exactly the characters with those code points.
#[verifier::external_body]
fn ascii_string(v: Vec<u8>) -> (r: String)
    requires
        forall|i: int| 0 <= i < v@.len() ==> v@[i] < 128,
    ensures
        r@.len() == v@.len(),
        forall|i: int| 0 <= i < v@.len() ==> r@[i] == v@[i] as char,
{
    String::from_utf8(v).unwrap()
}

/// Widens a `0x`-prefixed 20-byte address to the 32-byte (64 hex
/// character) word that a ledger call expects: 24 zero characters, then
/// the 40 address characters lowercased.
pub fn left_pad_32(s20: &str) -> (r: Result<String, ParseError>)
    ensures
        ({
            let b = s20.spec_bytes();
            let shaped = s20.is_ascii() && b.len() == 42 && b[0] == 48 && b[1] == 120;
            &&& (r is Ok <==> shaped)
            &&& match r {
                Ok(out) => {
                    &&& out@.len() == 64
                    &&& (forall|i: int| 0 <= i < 24 ==> out@[i] == '0')
                    &&& (forall|i: int| 24 <= i < 64 ==> out@[i] == lower_ascii(b[i - 22]) as char)
                },
                Err(e) => e == ParseError::BadAddress,
            }
        }),
{
    if !s20.is_ascii() {
        return Err(ParseError::BadAddress);
    }
    let bytes = s20.as_bytes_vec();
    if bytes.len() != 42 {
        return Err(ParseError::BadAddress);
    }
    if bytes[0] != 48 || bytes[1] != 120 {
        return Err(ParseError::BadAddress);
    }
    proof {
        broadcast use vstd::string::is_ascii_spec_bytes;

        assert forall|j: int| 0 <= j < bytes@.len() implies bytes@[j] < 128 by {
            assert(bytes@[j] == s20@[j] as u8);
            assert('\0' <= s20@[j] <= '\u{7f}');
        }
    }
    let mut v: Vec<u8> = Vec::new();
    let mut i: usize = 0;
    while i < 24
        invariant
            0 <= i <= 24,
            v@.len() == i,
            forall|j: int| 0 <= j < i ==> v@[j] == 48,
        decreases 24 - i,
    {
        v.push(48);
        i = i + 1;
    }
    let mut k: usize = 2;
    while k < 42
        invariant
            2 <= k <= 42,
            bytes@.len() == 42,
            forall|j: int| 0 <= j < 42 ==> bytes@[j] < 128,
            v@.len() == 24 + k - 2,
            forall|j: int| 0 <= j < 24 ==> v@[j] == 48,
            forall|j: int| 24 <= j < v@.len() ==> v@[j] == lower_ascii(bytes@[j - 22]),
            forall|j: int| 0 <= j < v@.len() ==> v@[j] < 128,
        decreases 42 - k,
    {
        let b = bytes[k];
        let lb: u8 = if 65 <= b && b <= 90 {
            b + 32
        } else {
            b
        };
        v.push(lb);
        k = k + 1;
    }
    let out = ascii_string(v);
    proof {
        assert(48 as char == '0');
    }
    Ok(out)
}

} // verus!

//! Byte-level building blocks shared by both wire codecs: 16-bit
//! little/big-endian fields, zero-terminator scanning, decimal rendering,
//! and the bridge between byte buffers and UTF-8 strings.
use vstd::prelude::*;
use vstd::utf8::{valid_utf8, decode_utf8, encode_utf8};
use vstd::utf8::{is_ascii_chars, is_ascii_chars_encode_utf8, encode_utf8_valid_utf8,
    encode_utf8_decode_utf8};

verus! {

// ---------- 16-bit fields ----------

/// The two little-endian bytes of a 16-bit value.
pub open spec fn le16(x: u16) -> Seq<u8> {
    seq![(x & 0xff) as u8, (x >> 8) as u8]
}

/// The two big-endian bytes of a 16-bit value.
pub open spec fn be16(x: u16) -> Seq<u8> {
    seq![(x >> 8) as u8, (x & 0xff) as u8]
}

/// The 16-bit value read from two little-endian bytes.
pub open spec fn u16_of_le(lo: u8, hi: u8) -> u16 {
    (lo as u16) | ((hi as u16) << 8)
}

/// The 16-bit value read from two big-endian bytes.
pub open spec fn u16_of_be(hi: u8, lo: u8) -> u16 {
    (lo as u16) | ((hi as u16) << 8)
}

pub proof fn lemma_le16_roundtrip(x: u16)
    ensures
        u16_of_le(le16(x)[0], le16(x)[1]) == x,
{
    assert(((x & 0xff) as u8 as u16) | (((x >> 8) as u8 as u16) << 8) == x) by (bit_vector);
}

pub proof fn lemma_be16_roundtrip(x: u16)
    ensures
        u16_of_be(be16(x)[0], be16(x)[1]) == x,
{
    assert(((x & 0xff) as u8 as u16) | (((x >> 8) as u8 as u16) << 8) == x) by (bit_vector);
}

pub proof fn lemma_u16_of_le_inverse(lo: u8, hi: u8)
    ensures
        le16(u16_of_le(lo, hi)) =~= seq![lo, hi],
{
    let x = u16_of_le(lo, hi);
    assert((((lo as u16) | ((hi as u16) << 8)) & 0xff) as u8 == lo) by (bit_vector);
    assert((((lo as u16) | ((hi as u16) << 8)) >> 8) as u8 == hi) by (bit_vector);
}

pub proof fn lemma_u16_of_be_inverse(hi: u8, lo: u8)
    ensures
        be16(u16_of_be(hi, lo)) =~= seq![hi, lo],
{
    assert((((lo as u16) | ((hi as u16) << 8)) & 0xff) as u8 == lo) by (bit_vector);
    assert((((lo as u16) | ((hi as u16) << 8)) >> 8) as u8 == hi) by (bit_vector);
}

pub fn u16_le_bytes(x: u16) -> (r: (u8, u8))
    ensures
        seq![r.0, r.1] =~= le16(x),
{
    ((x & 0xff) as u8, (x >> 8) as u8)
}

pub fn u16_be_bytes(x: u16) -> (r: (u8, u8))
    ensures
        seq![r.0, r.1] =~= be16(x),
{
    ((x >> 8) as u8, (x & 0xff) as u8)
}

pub fn u16_from_le(lo: u8, hi: u8) -> (r: u16)
    ensures
        r == u16_of_le(lo, hi),
{
    (lo as u16) | ((hi as u16) << 8)
}

pub fn u16_from_be(hi: u8, lo: u8) -> (r: u16)
    ensures
        r == u16_of_be(hi, lo),
{
    (lo as u16) | ((hi as u16) << 8)
}

// ---------- zero-terminator scanning ----------

/// The first position at or after `i` holding a zero byte, or `b.len()`
/// if no zero byte follows.
pub open spec fn find_zero(b: Seq<u8>, i: int) -> int
    decreases b.len() - i,
{
    if i < 0 || i >= b.len() {
        b.len() as int
    } else if b[i] == 0 {
        i
    } else {
        find_zero(b, i + 1)
    }
}

pub proof fn lemma_find_zero_bounds(b: Seq<u8>, i: int)
    requires
        0 <= i <= b.len(),
    ensures
        i <= find_zero(b, i) <= b.len(),
        forall|j: int| i <= j < find_zero(b, i) ==> b[j] != 0,
        find_zero(b, i) < b.len() ==> b[find_zero(b, i)] == 0,
    decreases b.len() - i,
{
    if i < b.len() && b[i] != 0 {
        lemma_find_zero_bounds(b, i + 1);
    }
}

/// A run of nonzero bytes followed by a zero pins `find_zero` down exactly.
pub proof fn lemma_find_zero_at(b: Seq<u8>, i: int, z: int)
    requires
        0 <= i <= z < b.len(),
        forall|j: int| i <= j < z ==> b[j] != 0,
        b[z] == 0,
    ensures
        find_zero(b, i) == z,
    decreases z - i,
{
    if i < z {
        lemma_find_zero_at(b, i + 1, z);
    }
}

/// Finds the first zero byte at or after `start`, as `find_zero` describes.
pub fn scan_zero(b: &Vec<u8>, start: usize) -> (r: usize)
    requires
        start <= b@.len(),
    ensures
        r == find_zero(b@, start as int),
{
    let mut pos = start;
    while pos < b.len() && b[pos] != 0
        invariant
            start <= pos <= b@.len(),
            find_zero(b@, start as int) == find_zero(b@, pos as int),
        decreases b@.len() - pos,
    {
        pos = pos + 1;
    }
    pos
}

// ---------- bytes and strings ----------

/// The characters read off a buffer of ASCII bytes, one per byte.
pub open spec fn chars_of_bytes(b: Seq<u8>) -> Seq<char> {
    b.map(|_i: int, c: u8| c as char)
}

/// Relies on `String::from_utf8`: it succeeds exactly on valid UTF-8 input
/// and returns the string holding those bytes decoded.
#[verifier::external_body]
pub fn utf8_to_string(v: Vec<u8>) -> (r: Option<String>)
    ensures
        r is Some <==> valid_utf8(v@),
        r is Some ==> r->0@ == decode_utf8(v@),
{
    String::from_utf8(v).ok()
}

pub proof fn lemma_ascii_bytes_decode(b: Seq<u8>)
    requires
        forall|i: int| 0 <= i < b.len() ==> b[i] < 128,
    ensures
        valid_utf8(b),
        decode_utf8(b) == chars_of_bytes(b),
        is_ascii_chars(chars_of_bytes(b)),
        encode_utf8(chars_of_bytes(b)) == b,
{
    let chars = chars_of_bytes(b);
    assert forall|i: int| 0 <= i < chars.len() implies (chars[i] as u32) < 128 by {
        assert(b[i] < 128);
    }
    assert(is_ascii_chars(chars));
    is_ascii_chars_encode_utf8(chars);
    assert(encode_utf8(chars) =~= b);
    encode_utf8_valid_utf8(chars);
    encode_utf8_decode_utf8(chars);
}

/// Turns a buffer of ASCII bytes into the string of the same characters.
pub fn ascii_to_string(v: Vec<u8>) -> (r: String)
    requires
        forall|i: int| 0 <= i < v@.len() ==> v@[i] < 128,
    ensures
        r@ == chars_of_bytes(v@),
{
    proof {
        lemma_ascii_bytes_decode(v@);
    }
    let ghost gv = v@;
    match utf8_to_string(v) {
        Some(s) => s,
        None => {
            proof {
                assert(false);
            }
            String::new()
        }
    }
}

// ---------- decimal rendering ----------

/// The ASCII digit byte of a value below ten.
pub open spec fn digit_byte(d: int) -> u8 {
    (48 + d) as u8
}

/// The decimal digits of `n`, most significant first, as ASCII bytes.
pub open spec fn dec_bytes(n: nat) -> Seq<u8>
    decreases n,
{
    if n < 10 {
        seq![digit_byte(n as int)]
    } else {
        dec_bytes(n / 10).push(digit_byte((n % 10) as int))
    }
}

/// The decimal digits of `n` as characters.
pub open spec fn dec_chars(n: nat) -> Seq<char> {
    chars_of_bytes(dec_bytes(n))
}

pub proof fn lemma_dec_bytes_ascii(n: nat)
    ensures
        forall|i: int| 0 <= i < dec_bytes(n).len() ==> 48 <= #[trigger] dec_bytes(n)[i] < 58,
    decreases n,
{
    if n < 10 {
        assert(dec_bytes(n) =~= seq![digit_byte(n as int)]);
    } else {
        lemma_dec_bytes_ascii(n / 10);
        assert(dec_bytes(n) =~= dec_bytes(n / 10).push(digit_byte((n % 10) as int)));
        assert(n % 10 < 10);
    }
}

/// The decimal digits of `n`, written into a byte vector.
pub fn dec_digits_vec(n: u64) -> (r: Vec<u8>)
    ensures
        r@ == dec_bytes(n as nat),
    decreases n,
{
    if n < 10 {
        let mut v: Vec<u8> = Vec::new();
        v.push(48 + n as u8);
        proof {
            assert(v@ =~= dec_bytes(n as nat));
        }
        v
    } else {
        let mut v = dec_digits_vec(n / 10);
        v.push(48 + (n % 10) as u8);
        proof {
            assert(v@ =~= dec_bytes(n as nat));
        }
        v
    }
}

/// Renders `n` in decimal.
pub fn dec_string(n: u64) -> (r: String)
    ensures
        r@ == dec_chars(n as nat),
{
    let v = dec_digits_vec(n);
    proof {
        lemma_dec_bytes_ascii(n as nat);
    }
    ascii_to_string(v)
}

} // verus!

//! Content hashing: the SHA-512 digest of a serialized code object,
//! truncated to 16 bytes and packed big-endian into a `u128`.

use vstd::prelude::*;
use crate::text::{hex_rep, hex_digit_val};
use sha2::Digest;

verus! {

/// 2 to the power `8 * k`: the number of values of `k` bytes.
pub open spec fn pow256(k: nat) -> int
    decreases k,
{
    if k == 0 {
        1
    } else {
        256 * pow256((k - 1) as nat)
    }
}

/// The big-endian value of a byte string.
pub open spec fn bytes_be_val(s: Seq<u8>) -> int
    decreases s.len(),
{
    if s.len() == 0 {
        0
    } else {
        bytes_be_val(s.drop_last()) * 256 + s.last()
    }
}

/// The big-endian `width`-byte rendering of `n` (meaningful when `n`
/// fits in `width` bytes).
pub open spec fn be_byte_rep(n: nat, width: nat) -> Seq<u8>
    decreases width,
{
    if width == 0 {
        Seq::empty()
    } else {
        be_byte_rep(n / 256, (width - 1) as nat).push((n % 256) as u8)
    }
}

/// The concrete values of `pow256` up to 16 bytes.
pub proof fn lemma_pow256_values()
    ensures
        pow256(15) == 0x1000000000000000000000000000000,
        pow256(16) == 0x100000000000000000000000000000000,
{
    assert(pow256(0) == 1);
    assert(pow256(1) == 0x100);
    assert(pow256(2) == 0x10000);
    assert(pow256(3) == 0x1000000);
    assert(pow256(4) == 0x100000000);
    assert(pow256(5) == 0x10000000000);
    assert(pow256(6) == 0x1000000000000);
    assert(pow256(7) == 0x100000000000000);
    assert(pow256(8) == 0x10000000000000000);
    assert(pow256(9) == 0x1000000000000000000);
    assert(pow256(10) == 0x100000000000000000000);
    assert(pow256(11) == 0x10000000000000000000000);
    assert(pow256(12) == 0x1000000000000000000000000);
    assert(pow256(13) == 0x100000000000000000000000000);
    assert(pow256(14) == 0x10000000000000000000000000000);
    assert(pow256(15) == 0x1000000000000000000000000000000);
    assert(pow256(16) == 0x100000000000000000000000000000000);
}

/// The SHA-512 digest of a byte string; the digest depends on the bytes
/// alone.
pub uninterp spec fn sha512_of(bytes: Seq<u8>) -> Seq<u8>;

/// Computes the SHA-512 digest of `bytes`.
///
/// Relies on `sha2::Sha512` through `digest::Digest::digest`: the 64-byte
/// SHA-512 digest of the input, a pure function of the input bytes.
#[verifier::external_body]
fn sha512(bytes: &Vec<u8>) -> (r: Vec<u8>)
    ensures
        r@ == sha512_of(bytes@),
        r@.len() == 64,
{
    let digest = sha2::Sha512::digest(bytes.as_slice());
    digest.as_slice().to_vec()
}

/// The content hash of a byte string: the first 16 digest bytes, packed
/// big-endian.
pub open spec fn content_hash(bytes: Seq<u8>) -> u128 {
    bytes_be_val(sha512_of(bytes).take(16)) as u128
}

/// Computes the content hash of `bytes`: SHA-512, truncated to the first
/// 16 bytes, packed big-endian into a `u128`.
pub fn compute_content_hash(bytes: &Vec<u8>) -> (h: u128)
    ensures
        h == content_hash(bytes@),
{
    let digest = sha512(bytes);
    let h = bytes_to_u128(&digest);
    proof {
        assert(digest@.take(16) =~= sha512_of(bytes@).take(16));
    }
    h
}

/// Packs the first 16 bytes of `bytes` big-endian into a `u128`.
pub fn bytes_to_u128(bytes: &Vec<u8>) -> (h: u128)
    requires
        bytes@.len() >= 16,
    ensures
        h == bytes_be_val(bytes@.take(16)) as u128,
        h == bytes_be_val(bytes@.take(16)),
{
    let mut acc: u128 = 0;
    let mut k: usize = 0;
    while k < 16
        invariant
            k <= 16,
            bytes@.len() >= 16,
            acc == bytes_be_val(bytes@.take(k as int)),
            acc < pow256(k as nat),
        decreases 16 - k,
    {
        proof {
            lemma_pow256_values();
            assert(bytes@.take(k as int + 1).drop_last() =~= bytes@.take(k as int));
            assert(bytes@.take(k as int + 1).last() == bytes@[k as int]);
            if k < 15 {
                lemma_pow256_le_15(k as nat);
            }
        }
        acc = acc * 256 + bytes[k] as u128;
        k = k + 1;
    }
    acc
}

/// `pow256` is monotonic up to 15 bytes.
pub proof fn lemma_pow256_le_15(k: nat)
    requires
        k < 15,
    ensures
        pow256(k) * 256 <= pow256(15),
    decreases 15 - k,
{
    if k == 14 {
        assert(pow256(15) == 256 * pow256(14));
    } else {
        lemma_pow256_le_15(k + 1);
        lemma_pow256_pos((k + 1) as nat);
        assert(pow256(k) * 256 == pow256(k + 1));
        assert(pow256(k + 1) <= pow256(k + 1) * 256);
    }
}

/// `pow256` is positive.
pub proof fn lemma_pow256_pos(k: nat)
    ensures
        pow256(k) >= 1,
    decreases k,
{
    if k > 0 {
        lemma_pow256_pos((k - 1) as nat);
    }
}

/// Renders `n` big-endian into `width` bytes.
pub fn be_bytes(n: u128, width: usize) -> (r: Vec<u8>)
    ensures
        r@ == be_byte_rep(n as nat, width as nat),
    decreases width,
{
    if width == 0 {
        let v: Vec<u8> = Vec::new();
        assert(v@ =~= be_byte_rep(n as nat, 0));
        v
    } else {
        let mut v = be_bytes(n / 256, width - 1);
        v.push((n % 256) as u8);
        assert(v@ =~= be_byte_rep(n as nat, width as nat));
        v
    }
}

/// The display form of a hash: `0x` and 32 lowercase hexadecimal digits.
pub open spec fn hash_display(h: u128) -> Seq<char> {
    seq!['0', 'x'] + hex_rep(h as nat, 32)
}

/// The byte string that a string of hexadecimal digit pairs denotes.
pub open spec fn hex_bytes_of(s: Seq<char>) -> Seq<u8> {
    Seq::new((s.len() / 2) as nat, |i: int| (hex_digit_val(s[2 * i]) * 16 + hex_digit_val(s[2 * i + 1])) as u8)
}

} // verus!

//! Little-endian integer fields and CRC-32 checksums.
//!
//! The encoding and decoding of fixed-width integers is done by `byteorder`, and
//! checksums by `crc32fast`; the functions here give those calls contracts.

use vstd::prelude::*;
use byteorder::{ByteOrder, LittleEndian, WriteBytesExt};

verus! {

/// `256` raised to the power `k`.
pub open spec fn pow256(k: nat) -> nat
    decreases k,
{
    if k == 0 {
        1
    } else {
        256 * pow256((k - 1) as nat)
    }
}

/// The `k` little-endian bytes of `n` (higher bytes of `n` are dropped).
pub open spec fn le_bytes(n: nat, k: nat) -> Seq<u8>
    decreases k,
{
    if k == 0 {
        Seq::empty()
    } else {
        seq![(n % 256) as u8] + le_bytes(n / 256, (k - 1) as nat)
    }
}

/// The number whose little-endian bytes are `s`.
pub open spec fn le_value(s: Seq<u8>) -> nat
    decreases s.len(),
{
    if s.len() == 0 {
        0
    } else {
        s[0] as nat + 256 * le_value(s.drop_first())
    }
}

/// Reading back `k` little-endian bytes gives the number modulo `256^k`.
pub proof fn lemma_le_roundtrip(n: nat, k: nat)
    ensures
        le_bytes(n, k).len() == k,
        le_value(le_bytes(n, k)) == n % pow256(k),
        pow256(k) > 0,
    decreases k,
{
    if k == 0 {
        assert(n % 1 == 0) by (nonlinear_arith);
    } else {
        let km1 = (k - 1) as nat;
        lemma_le_roundtrip(n / 256, km1);
        let s = le_bytes(n, k);
        assert(s.drop_first() =~= le_bytes(n / 256, km1));
        vstd::arithmetic::div_mod::lemma_breakdown(n as int, 256, pow256(km1) as int);
        assert(pow256(k) == 256 * pow256(km1));
    }
}

/// A number below `256^k` is read back unchanged from its `k` bytes.
pub proof fn lemma_le_roundtrip_small(n: nat, k: nat)
    requires
        n < pow256(k),
    ensures
        le_bytes(n, k).len() == k,
        le_value(le_bytes(n, k)) == n,
{
    lemma_le_roundtrip(n, k);
    vstd::arithmetic::div_mod::lemma_small_mod(n, pow256(k));
}

pub proof fn lemma_pow256_values()
    ensures
        pow256(1) == 0x100,
        pow256(2) == 0x10000,
        pow256(4) == 0x1_0000_0000,
        pow256(8) == 0x1_0000_0000_0000_0000,
{
    reveal_with_fuel(pow256, 9);
}

/// `rounds` steps of the reflected CRC-32 division of `c`: each shifts right
/// by one bit, adding the polynomial 0xEDB88320 when the bit shifted out is set.
pub open spec fn crc32_rounds(c: u32, rounds: nat) -> u32
    decreases rounds,
{
    if rounds == 0 {
        c
    } else {
        let d = crc32_rounds(c, (rounds - 1) as nat);
        if d & 1u32 == 1u32 {
            (d >> 1u32) ^ 0xEDB8_8320u32
        } else {
            d >> 1u32
        }
    }
}

/// The CRC-32 register after `data`, from the register `c`.
pub open spec fn crc32_update(c: u32, data: Seq<u8>) -> u32
    decreases data.len(),
{
    if data.len() == 0 {
        c
    } else {
        crc32_rounds(crc32_update(c, data.drop_last()) ^ (data.last() as u32), 8)
    }
}

/// The CRC-32 checksum of `data` (IEEE, as in zlib and gzip): the register
/// starts with all bits set and is inverted at the end.
pub open spec fn spec_crc32(data: Seq<u8>) -> u32 {
    !crc32_update(0xFFFF_FFFFu32, data)
}

/// Calls `crc32fast::hash`, the CRC-32 (IEEE) checksum of `data`.
#[verifier::external_body]
pub(crate) fn crc32(data: &[u8]) -> (r: u32)
    ensures
        r == spec_crc32(data@),
{
    crc32fast::hash(data)
}

/// Calls `WriteBytesExt::write_u16::<LittleEndian>` on a vector, which appends the
/// two little-endian bytes of `n` (a vector never refuses a write).
#[verifier::external_body]
pub(crate) fn put_u16(out: &mut Vec<u8>, n: u16)
    ensures
        final(out)@ == old(out)@ + le_bytes(n as nat, 2),
{
    let _ = out.write_u16::<LittleEndian>(n);
}

/// Calls `WriteBytesExt::write_u32::<LittleEndian>` on a vector, which appends the
/// four little-endian bytes of `n`.
#[verifier::external_body]
pub(crate) fn put_u32(out: &mut Vec<u8>, n: u32)
    ensures
        final(out)@ == old(out)@ + le_bytes(n as nat, 4),
{
    let _ = out.write_u32::<LittleEndian>(n);
}

/// Calls `WriteBytesExt::write_u64::<LittleEndian>` on a vector, which appends the
/// eight little-endian bytes of `n`.
#[verifier::external_body]
pub(crate) fn put_u64(out: &mut Vec<u8>, n: u64)
    ensures
        final(out)@ == old(out)@ + le_bytes(n as nat, 8),
{
    let _ = out.write_u64::<LittleEndian>(n);
}

/// Calls `LittleEndian::read_u16` on the bytes from `pos`; it reads the first two.
#[verifier::external_body]
pub(crate) fn get_u16(buf: &[u8], pos: usize) -> (r: u16)
    requires
        pos + 2 <= buf@.len(),
    ensures
        r == le_value(buf@.subrange(pos as int, pos + 2)),
{
    LittleEndian::read_u16(&buf[pos..])
}

/// Calls `LittleEndian::read_u32` on the bytes from `pos`; it reads the first four.
#[verifier::external_body]
pub(crate) fn get_u32(buf: &[u8], pos: usize) -> (r: u32)
    requires
        pos + 4 <= buf@.len(),
    ensures
        r == le_value(buf@.subrange(pos as int, pos + 4)),
{
    LittleEndian::read_u32(&buf[pos..])
}

/// Calls `LittleEndian::read_u64` on the bytes from `pos`; it reads the first eight.
#[verifier::external_body]
pub(crate) fn get_u64(buf: &[u8], pos: usize) -> (r: u64)
    requires
        pos + 8 <= buf@.len(),
    ensures
        r == le_value(buf@.subrange(pos as int, pos + 8)),
{
    LittleEndian::read_u64(&buf[pos..])
}

} // verus!

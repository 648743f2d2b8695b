//! Checksums over byte strings: a parity bit and CRC-32.

use vstd::prelude::*;
use crc::{Crc, CRC_32_ISO_HDLC};

verus! {

/// Whether bit `i` of `b` is set, counted from the least significant bit.
pub open spec fn bit_is_set(b: u8, i: u8) -> bool {
    (b >> i) & 1 == 1
}

/// One where bit `i` of `b` is set, zero where it is not.
pub open spec fn bit_count(b: u8, i: u8) -> nat {
    if bit_is_set(b, i) {
        1
    } else {
        0
    }
}

/// The number of bits of `b` that are set.
pub open spec fn ones_in_byte(b: u8) -> nat {
    bit_count(b, 0) + bit_count(b, 1) + bit_count(b, 2) + bit_count(b, 3) + bit_count(b, 4)
        + bit_count(b, 5) + bit_count(b, 6) + bit_count(b, 7)
}

/// The number of bits that are set in all of `bytes`.
pub open spec fn ones_in(bytes: Seq<u8>) -> nat
    decreases bytes.len(),
{
    if bytes.len() == 0 {
        0
    } else {
        ones_in(bytes.drop_last()) + ones_in_byte(bytes.last())
    }
}

/// The CRC-32 (ISO-HDLC) checksum of `bytes`, as the `crc` crate computes it.
pub uninterp spec fn crc32_iso_hdlc(bytes: Seq<u8>) -> u32;

/// Whether an odd number of the bits of `b` are set.
fn has_odd_ones(b: u8) -> (odd: bool)
    ensures
        odd == (ones_in_byte(b) % 2 == 1),
{
    let x: u8 = b ^ (b >> 4);
    let y: u8 = x ^ (x >> 2);
    let z: u8 = y ^ (y >> 1);
    assert((z & 1 == 1) == (((b >> 0u8) & 1 == 1) ^ ((b >> 1u8) & 1 == 1) ^ ((b >> 2u8) & 1 == 1) ^ (
    (b >> 3u8) & 1 == 1) ^ ((b >> 4u8) & 1 == 1) ^ ((b >> 5u8) & 1 == 1) ^ ((b >> 6u8) & 1 == 1) ^ ((b
        >> 7u8) & 1 == 1))) by (bit_vector)
        requires
            x == b ^ (b >> 4),
            y == x ^ (x >> 2),
            z == y ^ (y >> 1),
    ;
    z & 1 == 1
}

/// The even-parity bit of `bytes`: 1 where the number of set bits is even,
/// 0 where it is odd.
pub fn parity_bit(bytes: &[u8]) -> (bit: u8)
    ensures
        bit == (if ones_in(bytes@) % 2 == 0 { 1u8 } else { 0u8 }),
{
    let mut odd = false;
    let mut i: usize = 0;
    while i < bytes.len()
        invariant
            i <= bytes.len(),
            odd == (ones_in(bytes@.take(i as int)) % 2 == 1),
        decreases bytes.len() - i,
    {
        proof {
            assert(bytes@.take(i + 1).drop_last() =~= bytes@.take(i as int));
        }
        if has_odd_ones(bytes[i]) {
            odd = !odd;
        }
        i += 1;
    }
    proof {
        assert(bytes@.take(bytes.len() as int) =~= bytes@);
    }
    if odd { 0 } else { 1 }
}

/// Calls `crc::Crc::<u32>::new` with the `CRC_32_ISO_HDLC` algorithm and
/// `checksum` on the result. The sum depends on the bytes alone: the
/// contract says that it is what `crc32_iso_hdlc` names, and no more.
#[verifier::external_body]
fn crc_checksum(bytes: &[u8]) -> (sum: u32)
    ensures
        sum == crc32_iso_hdlc(bytes@),
{
    Crc::<u32>::new(&CRC_32_ISO_HDLC).checksum(bytes)
}

/// The CRC-32 (ISO-HDLC) checksum of `bytes`.
pub fn crc32_checksum(bytes: &[u8]) -> (sum: u32)
    ensures
        sum == crc32_iso_hdlc(bytes@),
{
    crc_checksum(bytes)
}

} // verus!

//! The checksum of a frame.

use vstd::prelude::*;

verus! {

/// The register of the checksum, shifted by one bit: the bits of the polynomial, least
/// significant last, are taken off it if a one falls out.
pub open spec fn crc_bit(c: u32) -> u32 {
    if c & 1 == 1 {
        (c >> 1) ^ 0x82F6_3B78
    } else {
        c >> 1
    }
}

/// The register of the checksum, shifted by the eight bits of a byte.
pub open spec fn crc_byte(c: u32) -> u32 {
    crc_bit(crc_bit(crc_bit(crc_bit(crc_bit(crc_bit(crc_bit(crc_bit(c))))))))
}

/// The register of the checksum after `bytes`, which starts with all bits set.
pub open spec fn crc_register(bytes: Seq<u8>) -> u32
    decreases bytes.len(),
{
    if bytes.len() == 0 {
        0xFFFF_FFFF
    } else {
        crc_byte(crc_register(bytes.drop_last()) ^ (bytes.last() as u32))
    }
}

/// The CRC-32C (Castagnoli) of `bytes`: the register after them, all its bits inverted.
pub open spec fn crc32c(bytes: Seq<u8>) -> u32 {
    crc_register(bytes) ^ 0xFFFF_FFFF
}

/// The register after one byte more.
proof fn lemma_next_byte(bytes: Seq<u8>, n: int)
    requires
        0 <= n < bytes.len(),
    ensures
        crc_register(bytes.take(n + 1)) == crc_byte(
            crc_register(bytes.take(n)) ^ (bytes[n] as u32),
        ),
{
    assert(bytes.take(n + 1).drop_last() =~= bytes.take(n));
}

/// The checksum of the digits 1 to 9, by which the algorithm is known.
pub proof fn check_value()
    ensures
        crc32c(seq![0x31u8, 0x32, 0x33, 0x34, 0x35, 0x36, 0x37, 0x38, 0x39]) == 0xE306_9283,
{
    let all = seq![0x31u8, 0x32, 0x33, 0x34, 0x35, 0x36, 0x37, 0x38, 0x39];
    assert(crc_register(all.take(0)) == 0xFFFF_FFFFu32);
    assert(crc_byte(0xFFFF_FFFFu32 ^ (0x31u8 as u32)) == 0x6F0A_661Cu32) by (bit_vector);
    lemma_next_byte(all, 0);
    assert(crc_byte(0x6F0A_661Cu32 ^ (0x32u8 as u32)) == 0x8CAA_3B9Fu32) by (bit_vector);
    lemma_next_byte(all, 1);
    assert(crc_byte(0x8CAA_3B9Fu32 ^ (0x33u8 as u32)) == 0xEF84_D04Du32) by (bit_vector);
    lemma_next_byte(all, 2);
    assert(crc_byte(0xEF84_D04Du32 ^ (0x34u8 as u32)) == 0x09C5_0B11u32) by (bit_vector);
    lemma_next_byte(all, 3);
    assert(crc_byte(0x09C5_0B11u32 ^ (0x35u8 as u32)) == 0xE72E_DCCAu32) by (bit_vector);
    lemma_next_byte(all, 4);
    assert(crc_byte(0xE72E_DCCAu32 ^ (0x36u8 as u32)) == 0xBECA_8E79u32) by (bit_vector);
    lemma_next_byte(all, 5);
    assert(crc_byte(0xBECA_8E79u32 ^ (0x37u8 as u32)) == 0xEDBD_6815u32) by (bit_vector);
    lemma_next_byte(all, 6);
    assert(crc_byte(0xEDBD_6815u32 ^ (0x38u8 as u32)) == 0x9F78_7F65u32) by (bit_vector);
    lemma_next_byte(all, 7);
    assert(crc_byte(0x9F78_7F65u32 ^ (0x39u8 as u32)) == 0x1CF9_6D7Cu32) by (bit_vector);
    lemma_next_byte(all, 8);
    assert(all.take(9) =~= all);
    assert(0x1CF9_6D7Cu32 ^ 0xFFFF_FFFFu32 == 0xE306_9283u32) by (bit_vector);
}

/// Calls `crc::Crc::<u32>::checksum` for `crc::CRC_32_ISCSI`, which computes the CRC-32C of the
/// bytes.
#[verifier::external_body]
pub(crate) fn checksum(bytes: &[u8]) -> (c: u32)
    ensures
        c == crc32c(bytes@),
{
    crc::Crc::<u32>::new(&crc::CRC_32_ISCSI).checksum(bytes)
}

} // verus!

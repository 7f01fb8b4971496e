//! Checksums and digests used by the `.sig` format.
use sha1::{Digest, Sha1};
use vstd::prelude::*;

verus! {

/// The size of the pak chunks whose CRC32 values a `.sig` file lists.
pub const CHUNK_SIZE: usize = 65536;

/// One bit step of the reflected CRC-32 register (IEEE polynomial `0xEDB88320`).
pub open spec fn crc32_bit(c: u32) -> u32 {
    if c & 1 == 1 {
        (c >> 1) ^ 0xEDB88320
    } else {
        c >> 1
    }
}

/// The CRC-32 register after taking in the byte `b`, least significant bit first.
pub open spec fn crc32_byte(c: u32, b: u8) -> u32 {
    let x = c ^ (b as u32);
    crc32_bit(crc32_bit(crc32_bit(crc32_bit(crc32_bit(crc32_bit(crc32_bit(crc32_bit(x))))))))
}

/// The CRC-32 register after taking in `data`, starting from all ones.
pub open spec fn crc32_register(data: Seq<u8>) -> u32
    decreases data.len(),
{
    if data.len() == 0 {
        0xFFFF_FFFF
    } else {
        crc32_byte(crc32_register(data.drop_last()), data.last())
    }
}

/// The CRC-32 (IEEE 802.3, the checksum of zlib and of `crc32fast`) of `data`:
/// the final register, inverted.
pub open spec fn crc32_checksum(data: Seq<u8>) -> u32 {
    crc32_register(data) ^ 0xFFFF_FFFF
}

/// The SHA-1 digest of `data`, as the `sha1` crate computes it.
pub uninterp spec fn sha1_digest(data: Seq<u8>) -> Seq<u8>;

/// CRC32 (IEEE) checksum of `data`.
///
/// Calls `crc32fast::hash`, whose result the contract states as the standard
/// CRC-32 that the crate computes (see [`crc32_checksum`]).
#[verifier::external_body]
pub fn crc32(data: &[u8]) -> (r: u32)
    ensures
        r == crc32_checksum(data@),
{
    crc32fast::hash(data)
}

/// Calls `<sha1::Sha1 as Digest>::digest` on `data`; the contract names its
/// result, a function of `data` alone, and relies on the 20-byte output size
/// that the array type of the result carries.
#[verifier::external_body]
fn sha1_digest_bytes(data: &[u8]) -> (r: [u8; 20])
    ensures
        r@ == sha1_digest(data@),
{
    Sha1::digest(data).into()
}

/// The little-endian encoding of each value of `values`, concatenated.
pub open spec fn u32s_le_bytes(values: Seq<u32>) -> Seq<u8>
    decreases values.len(),
{
    if values.len() == 0 {
        Seq::empty()
    } else {
        u32s_le_bytes(values.drop_last()) + vstd::bytes::spec_u32_to_le_bytes(values.last())
    }
}

/// SHA-1 digest of `data`.
pub fn sha1(data: &[u8]) -> (r: [u8; 20])
    ensures
        r@ == sha1_digest(data@),
{
    sha1_digest_bytes(data)
}

/// SHA-1 digest of the values of `values`, each as 4 little-endian bytes.
pub fn sha1_of_u32_slice(values: &[u32]) -> (r: [u8; 20])
    ensures
        r@ == sha1_digest(u32s_le_bytes(values@)),
{
    let mut bytes: Vec<u8> = Vec::new();
    let mut i: usize = 0;
    while i < values.len()
        invariant
            i <= values@.len(),
            bytes@ == u32s_le_bytes(values@.take(i as int)),
        decreases values@.len() - i,
    {
        let le = vstd::bytes::u32_to_le_bytes(values[i]);
        bytes.extend_from_slice(le.as_slice());
        assert(values@.take(i + 1).drop_last() == values@.take(i as int));
        i = i + 1;
    }
    assert(values@.take(values@.len() as int) == values@);
    sha1(bytes.as_slice())
}

} // verus!

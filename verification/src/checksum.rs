//! Checksums of what was discovered.

use crate::hash40::{crc32, crc_feed, lemma_crc32_concat};
use vstd::prelude::*;

verus! {

/// The CRC-32 of bytes that continue bytes with a known CRC-32.
pub open spec fn crc_continued(crc: u32, bytes: Seq<u8>) -> u32 {
    crc_feed(crc ^ 0xFFFF_FFFF, bytes) ^ 0xFFFF_FFFF
}

/// Continues a CRC-32.
///
/// Calls `crc32fast::Hasher`: a hasher that starts with the CRC-32 of some bytes, is updated with more
/// bytes and is then finalized gives the CRC-32 of all of them.
#[verifier::external_body]
pub(crate) fn continue_crc(crc: u32, bytes: &[u8]) -> (r: u32)
    ensures
        r == crc_continued(crc, bytes@),
{
    let mut hasher = crc32fast::Hasher::new_with_initial(crc);
    hasher.update(bytes);
    hasher.finalize()
}

/// Continuing the checksum of some bytes by more bytes gives the checksum of all of them.
pub proof fn law_crc_continued(a: Seq<u8>, b: Seq<u8>)
    ensures
        crc_continued(crc32(a), b) == crc32(a + b),
{
    lemma_crc32_concat(a, b);
}

/// The checksum of no bytes.
pub proof fn law_crc_empty()
    ensures
        crc32(Seq::empty()) == 0,
{
    reveal(crc32);
    reveal(crc_feed);
    assert(0xFFFF_FFFFu32 ^ 0xFFFF_FFFF == 0) by (bit_vector);
}

} // verus!

//! Record checksums.
use vstd::prelude::*;
use crate::endian::{push_be_u64, u64_be_bytes};

verus! {

/// The CRC-32 that `crc32fast` computes over `data`.
pub uninterp spec fn crc32_of(data: Seq<u8>) -> u32;

/// Relies on `crc32fast::hash`: the checksum of a byte slice, which depends on its bytes alone.
#[verifier::external_body]
fn crc32(data: &[u8]) -> (r: u32)
    ensures
        r == crc32_of(data@),
{
    crc32fast::hash(data)
}

/// The bytes a record's checksum covers: the big-endian id, then the payload.
pub open spec fn checksum_input(id: u64, payload: Seq<u8>) -> Seq<u8> {
    u64_be_bytes(id) + payload
}

/// The checksum a record with this id and payload must carry.
pub open spec fn record_checksum(id: u64, payload: Seq<u8>) -> u32 {
    crc32_of(checksum_input(id, payload))
}

/// Computes the checksum of a record from its id and payload.
pub fn generate_checksum(id: u64, payload: &[u8]) -> (r: u32)
    ensures
        r == record_checksum(id, payload@),
{
    let mut data: Vec<u8> = Vec::new();
    push_be_u64(&mut data, id);
    let mut i: usize = 0;
    while i < payload.len()
        invariant
            i <= payload@.len(),
            data@ == u64_be_bytes(id) + payload@.subrange(0, i as int),
        decreases payload@.len() - i,
    {
        data.push(payload[i]);
        i = i + 1;
        assert(data@ =~= u64_be_bytes(id) + payload@.subrange(0, i as int));
    }
    assert(payload@.subrange(0, payload@.len() as int) =~= payload@);
    crc32(data.as_slice())
}

} // verus!

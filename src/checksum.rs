//! The checksum codec: the first eight bytes of a stored block hold, little-endian, a
//! 64-bit hash of the bytes that follow. A stored value of zero marks a block that was
//! never written and is accepted as it is.
use vstd::prelude::*;
use crate::error::{DbError, DbErrorKind, invalid_data, invalid_input};
use crate::reinterpret::{read_u64, u64_at, write_u64, same_outside};
use std::collections::hash_map::DefaultHasher;
use std::hash::Hasher;
use vstd::std_specs::hash::DefaultHasherAdditionalSpecFns;

verus! {

/// Number of bytes that the checksum occupies at the start of a block.
pub const CHECKSUM_SIZE: usize = 8;

/// The hash of `payload`: what std's `DefaultHasher`, fresh from `new`, gives after one
/// write of those bytes. `new` always starts from the same keys, so the value depends on
/// the bytes alone.
pub open spec fn page_hash(payload: Seq<u8>) -> u64 {
    DefaultHasher::spec_finish(seq![payload])
}

/// The checksum of a payload.
pub fn compute_checksum(payload: &[u8]) -> (r: u64)
    ensures
        r == page_hash(payload@),
{
    let mut hasher = DefaultHasher::new();
    hasher.write(payload);
    assert(hasher@ =~= seq![payload@]);
    hasher.finish()
}

/// The bytes of a block after its checksum.
pub open spec fn payload_of(block: Seq<u8>) -> Seq<u8> {
    block.subrange(CHECKSUM_SIZE as int, block.len() as int)
}

/// The checksum stored at the start of a block.
pub open spec fn stored_checksum(block: Seq<u8>) -> u64 {
    u64_at(block, 0)
}

/// A block whose stored checksum is zero or matches its payload.
pub open spec fn checksum_ok(block: Seq<u8>) -> bool {
    &&& block.len() >= CHECKSUM_SIZE
    &&& (stored_checksum(block) == 0 || stored_checksum(block) == page_hash(payload_of(block)))
}

/// Copies the payload of a block out of it.
pub fn copy_payload(block: &[u8]) -> (r: Vec<u8>)
    requires
        block@.len() >= CHECKSUM_SIZE,
    ensures
        r@ == payload_of(block@),
{
    let mut out: Vec<u8> = Vec::with_capacity(block.len() - CHECKSUM_SIZE);
    let mut i: usize = CHECKSUM_SIZE;
    while i < block.len()
        invariant
            CHECKSUM_SIZE <= i <= block@.len(),
            out@ == block@.subrange(CHECKSUM_SIZE as int, i as int),
        decreases block@.len() - i,
    {
        out.push(block[i]);
        i = i + 1;
        assert(out@ =~= block@.subrange(CHECKSUM_SIZE as int, i as int));
    }
    out
}

/// Writes the checksum of the payload into the first eight bytes of `block`.
pub fn update_checksum(block: &mut [u8]) -> (r: Result<(), DbError>)
    ensures
        r is Err <==> old(block)@.len() < CHECKSUM_SIZE,
        r matches Err(e) ==> e.kind == DbErrorKind::InvalidInput && final(block)@ == old(block)@,
        r is Ok ==> {
            &&& same_outside(old(block)@, final(block)@, 0, CHECKSUM_SIZE as int)
            &&& stored_checksum(final(block)@) == page_hash(payload_of(old(block)@))
        },
{
    if block.len() < CHECKSUM_SIZE {
        return Err(invalid_input("Data length should >= 8"));
    }
    let payload = copy_payload(block);
    let sum = compute_checksum(payload.as_slice());
    write_u64(block, 0, sum);
    assert(payload_of(block@) =~= payload_of(old(block)@));
    Ok(())
}

/// Checks the stored checksum of `block` against `expected`, the hash of its payload.
pub fn check_stored(block: &[u8], expected: u64) -> (r: Result<(), DbError>)
    requires
        block@.len() >= CHECKSUM_SIZE,
    ensures
        r is Ok <==> (stored_checksum(block@) == 0 || stored_checksum(block@) == expected),
        r matches Err(e) ==> e.kind == DbErrorKind::InvalidData,
{
    let stored = read_u64(block, 0);
    if stored == 0 {
        // A block that was never written.
        return Ok(());
    }
    if stored == expected {
        Ok(())
    } else {
        Err(invalid_data("Data corrupted"))
    }
}

/// Checks that the stored checksum of `block` is zero or matches its payload.
pub fn validate_checksum(block: &[u8]) -> (r: Result<(), DbError>)
    ensures
        r is Ok <==> checksum_ok(block@),
        r matches Err(e) ==> (e.kind == DbErrorKind::InvalidInput <==> block@.len()
            < CHECKSUM_SIZE),
        r matches Err(e) ==> (e.kind == DbErrorKind::InvalidInput || e.kind
            == DbErrorKind::InvalidData),
{
    if block.len() < CHECKSUM_SIZE {
        return Err(invalid_input("Data length should >= 8"));
    }
    let payload = copy_payload(block);
    let sum = compute_checksum(payload.as_slice());
    check_stored(block, sum)
}

} // verus!

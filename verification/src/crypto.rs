//! Hashing through the host.

use crate::allocator::extends;
use crate::asc::{bytes_dec, bytes_footprint, bytes_from_reply, bytes_ok, bytes_to_asc, is_bytes};
use crate::host::{crypto_keccak256, HostCall, Import};
use crate::memory::{as_signed32, as_unsigned32, Memory};
use crate::types::Bytes;
use vstd::prelude::*;

verus! {

/// Writes `data` into fresh heap and asks the host for its Keccak-256 hash.
/// The reply goes to `keccak256_reply`.
pub fn keccak256(mem: &mut Memory, data: &[u8]) -> (request: HostCall)
    requires
        old(mem).wf(),
        old(mem).cursor() + bytes_footprint(data@.len() as int) <= old(mem).page_limit() * 65536,
    ensures
        extends(old(mem), final(mem), bytes_footprint(data@.len() as int)),
        is_bytes(final(mem)@, old(mem).cursor() + 20, data@),
        request.is(Import::CryptoKeccak256, seq![as_signed32((old(mem).cursor() + 20) as u32)]),
{
    let data_ptr = bytes_to_asc(mem, data);
    crypto_keccak256(data_ptr.as_i32())
}

/// The hash that the host replied with.
pub fn keccak256_reply(mem: &Memory, reply: i32) -> (hash: Bytes)
    requires
        mem.wf(),
        bytes_ok(mem@, mem@.len() as int, as_unsigned32(reply) as int),
    ensures
        hash@ == bytes_dec(mem@, as_unsigned32(reply) as int),
{
    Bytes::from_vec(bytes_from_reply(mem, reply))
}

} // verus!

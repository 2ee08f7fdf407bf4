//! Fetching files through the host.

use crate::allocator::extends;
use crate::asc::{bytes_dec, bytes_from_reply, bytes_ok, is_string, str_to_asc, string_footprint};
use crate::host::{ipfs_cat, HostCall, Import};
use crate::memory::{as_signed32, as_unsigned32, Memory};
use crate::types::Bytes;
use vstd::prelude::*;

verus! {

/// Writes `hash` into fresh heap and asks the host for the file with that
/// hash. The reply goes to `cat_reply`.
pub fn cat(mem: &mut Memory, hash: &str) -> (request: HostCall)
    requires
        old(mem).wf(),
        old(mem).cursor() + string_footprint(hash@) <= old(mem).page_limit() * 65536,
    ensures
        extends(old(mem), final(mem), string_footprint(hash@)),
        is_string(final(mem)@, old(mem).cursor() + 20, hash@),
        request.is(Import::IpfsCat, seq![as_signed32((old(mem).cursor() + 20) as u32)]),
{
    let hash_ptr = str_to_asc(mem, hash);
    ipfs_cat(hash_ptr.as_i32())
}

/// What the host's reply to `cat` means: nothing when the file could not be
/// had (zero), else the bytes that the reply points to.
pub fn cat_reply(mem: &Memory, reply: i32) -> (r: Option<Bytes>)
    requires
        mem.wf(),
        bytes_ok(mem@, mem@.len() as int, as_unsigned32(reply) as int),
    ensures
        r is Some <==> reply != 0,
        r matches Some(b) ==> b@ == bytes_dec(mem@, as_unsigned32(reply) as int),
{
    if reply == 0 {
        None
    } else {
        Some(Bytes::from_vec(bytes_from_reply(mem, reply)))
    }
}

} // verus!

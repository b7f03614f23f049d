use vstd::prelude::*;
use crate::cache::cache::{lookup, Cache};
use crate::cache::key::Key;
use crate::cache::replacement_policy::CacheReplacementPolicy;
use crate::cache::storage_structure::{has_key, slot_of, CacheStorageStructure};
use crate::command::{replies_with, reply_to};
use crate::packet::{MemPacket, PacketView};

verus! {

/// What a DELETE of `req` does: a request with extras or a value is
/// refused with status 0x0004; otherwise the key is removed and the status
/// is 0x0000, whether or not the key was there.
pub open spec fn delete_outcome<T: CacheStorageStructure, R: CacheReplacementPolicy>(
    req: PacketView,
    before: Cache<T, R>,
    after: Cache<T, R>,
    resp: PacketView,
) -> bool {
    if req.1.len() > 0 || req.3.len() > 0 {
        replies_with(req, resp, 0x0004) && after == before
    } else {
        &&& replies_with(req, resp, 0x0000)
        &&& after.well_formed()
        &&& after.capacity == before.capacity
        &&& lookup(after.entries(), req.2) is None
        &&& after.entries() == if has_key(before.entries(), req.2) {
            before.entries().remove(slot_of(before.entries(), req.2))
        } else {
            before.entries()
        }
    }
}

pub fn delete_command<T: CacheStorageStructure, R: CacheReplacementPolicy>(
    request: MemPacket,
    cache: &mut Cache<T, R>,
) -> (r: Option<MemPacket>)
    requires
        old(cache).well_formed(),
    ensures
        final(cache).well_formed(),
        r is Some,
        delete_outcome(request@, *old(cache), *final(cache), r->Some_0@),
{
    let mut response = reply_to(&request);
    if request.has_extras() || request.has_value() {
        response.header.with_status(0x0004);
        return Some(response);
    }
    cache.remove(Key::new(request.key));
    response.header.with_status(0x0000);
    Some(response)
}

} // verus!

use vstd::prelude::*;
use crate::cache::cache::{installs, Cache};
use crate::cache::data_entry::entry_len;
use crate::cache::key::Key;
use crate::cache::replacement_policy::CacheReplacementPolicy;
use crate::cache::storage_structure::{has_key, CacheStorageStructure};
use crate::cache::value::Value;
use crate::command::{replies_with, reply_header, reply_to};
use crate::packet::{MemHeader, MemPacket, PacketView};

verus! {

/// What storing the key and value of `req` does. When the entry fits in the
/// capacity it is stored, at version 0, and the reply has status 0x0000 and
/// CAS 1; otherwise nothing is stored and the status is 0x0084.
pub open spec fn store_outcome<T: CacheStorageStructure, R: CacheReplacementPolicy>(
    req: PacketView,
    before: Cache<T, R>,
    after: Cache<T, R>,
    resp: PacketView,
) -> bool {
    &&& after.well_formed()
    &&& after.capacity == before.capacity
    &&& if entry_len((req.2, (req.3, 0u64))) <= before.capacity {
        &&& resp.0 == MemHeader { status: 0x0000, cas: 1, ..reply_header(req.0) }
        &&& resp.1 == Seq::<char>::empty()
        &&& resp.2 == Seq::<char>::empty()
        &&& resp.3 == Seq::<char>::empty()
        &&& installs(before.entries(), after.entries(), req.2, (req.3, 0u64))
    } else {
        &&& replies_with(req, resp, 0x0084)
        &&& after.storage_structure == before.storage_structure
        &&& after.replacement_policy == before.replacement_policy
    }
}

/// What a SET of `req` does: a request without a key is refused with status
/// 0x0004; otherwise the value is stored.
pub open spec fn set_outcome<T: CacheStorageStructure, R: CacheReplacementPolicy>(
    req: PacketView,
    before: Cache<T, R>,
    after: Cache<T, R>,
    resp: PacketView,
) -> bool {
    if req.2.len() == 0 {
        replies_with(req, resp, 0x0004) && after == before
    } else {
        store_outcome(req, before, after, resp)
    }
}

/// What an ADD of `req` does: as a SET, but a key that is already stored
/// is left alone and answered with status 0x0005.
pub open spec fn add_outcome<T: CacheStorageStructure, R: CacheReplacementPolicy>(
    req: PacketView,
    before: Cache<T, R>,
    after: Cache<T, R>,
    resp: PacketView,
) -> bool {
    if req.2.len() == 0 {
        replies_with(req, resp, 0x0004) && after == before
    } else if has_key(before.entries(), req.2) {
        replies_with(req, resp, 0x0005) && after == before
    } else {
        store_outcome(req, before, after, resp)
    }
}

/// What a REPLACE of `req` does: as a SET, but a key that is not stored is
/// answered with status 0x0005 and nothing is stored.
pub open spec fn replace_outcome<T: CacheStorageStructure, R: CacheReplacementPolicy>(
    req: PacketView,
    before: Cache<T, R>,
    after: Cache<T, R>,
    resp: PacketView,
) -> bool {
    if req.2.len() == 0 {
        replies_with(req, resp, 0x0004) && after == before
    } else if !has_key(before.entries(), req.2) {
        replies_with(req, resp, 0x0005) && after == before
    } else {
        store_outcome(req, before, after, resp)
    }
}

/// Stores the request's key and value and sets the reply's status.
fn set<T: CacheStorageStructure, R: CacheReplacementPolicy>(
    request: MemPacket,
    cache: &mut Cache<T, R>,
    response: &mut MemPacket,
)
    requires
        old(cache).well_formed(),
        replies_with(request@, old(response)@, 0),
    ensures
        store_outcome(request@, *old(cache), *final(cache), final(response)@),
{
    match cache.set(Key::new(request.key), Value::new(request.value)) {
        Ok(()) => {
            response.header.with_status(0x0000);
            response.header.with_cas(0x0000000000000001);
        },
        Err(_) => {
            response.header.with_status(0x0084);
        },
    }
}

pub fn set_command<T: CacheStorageStructure, R: CacheReplacementPolicy>(
    request: MemPacket,
    cache: &mut Cache<T, R>,
) -> (r: Option<MemPacket>)
    requires
        old(cache).well_formed(),
    ensures
        final(cache).well_formed(),
        r is Some,
        set_outcome(request@, *old(cache), *final(cache), r->Some_0@),
{
    let mut response = reply_to(&request);
    if !request.has_key() {
        response.header.with_status(0x0004);
        return Some(response);
    }
    set(request, cache, &mut response);
    Some(response)
}

pub fn add_command<T: CacheStorageStructure, R: CacheReplacementPolicy>(
    request: MemPacket,
    cache: &mut Cache<T, R>,
) -> (r: Option<MemPacket>)
    requires
        old(cache).well_formed(),
    ensures
        final(cache).well_formed(),
        r is Some,
        add_outcome(request@, *old(cache), *final(cache), r->Some_0@),
{
    let mut response = reply_to(&request);
    if !request.has_key() {
        response.header.with_status(0x0004);
        return Some(response);
    }
    if cache.contains(Key::new(request.key.clone())) {
        response.header.with_status(0x0005);
        return Some(response);
    }
    set(request, cache, &mut response);
    Some(response)
}

pub fn replace_command<T: CacheStorageStructure, R: CacheReplacementPolicy>(
    request: MemPacket,
    cache: &mut Cache<T, R>,
) -> (r: Option<MemPacket>)
    requires
        old(cache).well_formed(),
    ensures
        final(cache).well_formed(),
        r is Some,
        replace_outcome(request@, *old(cache), *final(cache), r->Some_0@),
{
    let mut response = reply_to(&request);
    if !request.has_key() {
        response.header.with_status(0x0004);
        return Some(response);
    }
    if !cache.contains(Key::new(request.key.clone())) {
        response.header.with_status(0x0005);
        return Some(response);
    }
    set(request, cache, &mut response);
    Some(response)
}

} // verus!

use vstd::prelude::*;
use crate::cache::cache::{lookup, Cache};
use crate::cache::key::{byte_len, Key};
use crate::cache::replacement_policy::CacheReplacementPolicy;
use crate::cache::storage_structure::CacheStorageStructure;
use crate::command::{replies_carrying, replies_with, reply_to};
use crate::packet::{MemPacket, PacketView};

verus! {

/// The value that a GET miss replies with.
pub open spec fn not_found_text() -> Seq<char> {
    "Not found"@
}

proof fn lemma_not_found_len()
    ensures
        byte_len(not_found_text()) == 9,
{
    reveal_strlit("Not found");
    assert(vstd::utf8::is_ascii_chars(not_found_text()));
    vstd::utf8::is_ascii_chars_encode_utf8(not_found_text());
}

/// What a GET of `req` does. A request with extras or a value, or with a key
/// too long for a reply to carry, is refused with status 0x0004. Otherwise
/// a hit replies 0x0000 with the key and the stored value, and counts as a
/// touch; a miss replies 0x0001 with the key and "Not found". A value too
/// long for a reply gets status 0x0084.
pub open spec fn get_outcome<T: CacheStorageStructure, R: CacheReplacementPolicy>(
    req: PacketView,
    before: Cache<T, R>,
    after: Cache<T, R>,
    resp: PacketView,
) -> bool {
    if req.1.len() > 0 || req.3.len() > 0 || byte_len(req.2) > u16::MAX {
        replies_with(req, resp, 0x0004) && after == before
    } else {
        &&& after.well_formed()
        &&& after.capacity == before.capacity
        &&& after.storage_structure == before.storage_structure
        &&& match lookup(before.entries(), req.2) {
            Some(e) => if byte_len(req.2) + byte_len(e.1.0) <= u32::MAX {
                replies_carrying(req, resp, 0x0000, req.2, e.1.0)
            } else {
                replies_with(req, resp, 0x0084)
            },
            None => replies_carrying(req, resp, 0x0001, req.2, not_found_text()),
        }
    }
}

pub fn get_command<T: CacheStorageStructure, R: CacheReplacementPolicy>(
    request: MemPacket,
    cache: &mut Cache<T, R>,
) -> (r: Option<MemPacket>)
    requires
        old(cache).well_formed(),
    ensures
        final(cache).well_formed(),
        r is Some,
        get_outcome(request@, *old(cache), *final(cache), r->Some_0@),
{
    let mut response = reply_to(&request);
    if request.has_extras() || request.has_value() {
        response.header.with_status(0x0004);
        return Some(response);
    }
    let key_len = request.key.as_str().as_bytes().len();
    if key_len > 0xFFFF {
        response.header.with_status(0x0004);
        return Some(response);
    }
    let key_text = request.key.clone();
    match cache.get(Key::new(request.key)) {
        Some(entry) => {
            let value_len = entry.value.len();
            if value_len > (u32::MAX as usize) - key_len {
                response.header.with_status(0x0084);
            } else {
                response.with_key(key_text);
                response.with_value(entry.value.item);
            }
        },
        None => {
            proof {
                lemma_not_found_len();
            }
            response.header.with_status(0x0001);
            response.with_key(key_text);
            response.with_value("Not found".to_owned());
        },
    }
    Some(response)
}

} // verus!

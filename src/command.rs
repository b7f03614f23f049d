use vstd::prelude::*;
use vstd::utf8::encode_utf8;
use crate::cache::cache::Cache;
use crate::cache::key::byte_len;
use crate::cache::replacement_policy::CacheReplacementPolicy;
use crate::cache::storage_structure::CacheStorageStructure;



use crate::commands::delete::{delete_command, delete_outcome};
use crate::commands::get::{get_command, get_outcome};
use crate::commands::set::{
    add_command, add_outcome, replace_command, replace_outcome, set_command, set_outcome,
};
use crate::packet::{empty_header, MemHeader, MemPacket, PacketView};

verus! {

/// The header of a reply to a request with header `h`: a response magic,
/// the request's opcode and opaque echoed, every other field zero.
pub open spec fn reply_header(h: MemHeader) -> MemHeader {
    MemHeader { opcode: h.opcode, opaque: h.opaque, ..empty_header(false) }
}

/// `resp` answers `req` with `status` and carries nothing.
pub open spec fn replies_with(req: PacketView, resp: PacketView, status: u16) -> bool {
    &&& resp.0 == MemHeader { status, ..reply_header(req.0) }
    &&& resp.1 == Seq::<char>::empty()
    &&& resp.2 == Seq::<char>::empty()
    &&& resp.3 == Seq::<char>::empty()
}

/// `resp` answers `req` with `status` and carries key `k` and value `v`,
/// with their lengths in the header.
pub open spec fn replies_carrying(
    req: PacketView,
    resp: PacketView,
    status: u16,
    k: Seq<char>,
    v: Seq<char>,
) -> bool {
    &&& resp.0 == MemHeader {
        status,
        key_length: byte_len(k) as u16,
        total_body_length: (byte_len(k) + byte_len(v)) as u32,
        ..reply_header(req.0)
    }
    &&& resp.1 == Seq::<char>::empty()
    &&& resp.2 == k
    &&& resp.3 == v
}

/// A reply to `request` that carries nothing yet, with status zero.
pub(crate) fn reply_to(request: &MemPacket) -> (r: MemPacket)
    ensures
        replies_with(request@, r@, 0),
{
    let mut response = MemPacket::new(false);
    response.header.with_opcode(request.header.opcode);
    response.header.opaque = request.header.opaque;
    response
}

/// What handling the request `req` does: a request whose magic is not the
/// request magic 0x80 is answered with status 0x0084, the five supported
/// opcodes (GET, SET, ADD, REPLACE, DELETE) do what their commands do, and
/// every other opcode is answered with status 0x0081.
pub open spec fn handle_outcome<T: CacheStorageStructure, R: CacheReplacementPolicy>(
    req: PacketView,
    before: Cache<T, R>,
    after: Cache<T, R>,
    resp: PacketView,
) -> bool {
    if req.0.magic != 0x80 {
        replies_with(req, resp, 0x0084) && after == before
    } else if req.0.opcode == 0x00 {
        get_outcome(req, before, after, resp)
    } else if req.0.opcode == 0x01 {
        set_outcome(req, before, after, resp)
    } else if req.0.opcode == 0x02 {
        add_outcome(req, before, after, resp)
    } else if req.0.opcode == 0x03 {
        replace_outcome(req, before, after, resp)
    } else if req.0.opcode == 0x04 {
        delete_outcome(req, before, after, resp)
    } else {
        replies_with(req, resp, 0x0081) && after == before
    }
}

/// Answers one request packet, applying it to the cache.
pub fn handle_command<T: CacheStorageStructure, R: CacheReplacementPolicy>(
    packet: MemPacket,
    cache: &mut Cache<T, R>,
) -> (r: Option<MemPacket>)
    requires
        old(cache).well_formed(),
    ensures
        final(cache).well_formed(),
        r is Some,
        handle_outcome(packet@, *old(cache), *final(cache), r->Some_0@),
{
    let mut response = reply_to(&packet);
    if packet.header.magic != 0x80 {
        response.header.with_status(0x0084);
        return Some(response);
    }
    match packet.header.opcode {
        0x00 => get_command(packet, cache),
        0x01 => set_command(packet, cache),
        0x02 => add_command(packet, cache),
        0x03 => replace_command(packet, cache),
        0x04 => delete_command(packet, cache),
        _ => {
            response.header.with_status(0x0081);
            Some(response)
        },
    }
}

/// The words of `s`, as `str::split_whitespace` finds them.
pub uninterp spec fn words_of(s: Seq<char>) -> Seq<Seq<char>>;

/// `s` in upper case, as `str::to_uppercase` makes it.
pub uninterp spec fn upper_of(s: Seq<char>) -> Seq<char>;

/// Relies on `str::split_whitespace`: the words of `s` in order, which
/// depend on `s` alone.
#[verifier::external_body]
fn split_words(s: &str) -> (r: Vec<String>)
    ensures
        r@.map_values(|w: String| w@) == words_of(s@),
{
    s.split_whitespace().map(String::from).collect()
}

/// Relies on `str::to_uppercase`: the upper case of `s`, which depends on
/// `s` alone.
#[verifier::external_body]
fn uppercase(s: &str) -> (r: String)
    ensures
        r@ == upper_of(s@),
{
    s.to_uppercase()
}

/// Whether `a` and `b` hold the same text, compared byte by byte.
fn same_text(a: &str, b: &str) -> (r: bool)
    ensures
        r == (a@ == b@),
{
    let x = a.as_bytes();
    let y = b.as_bytes();
    proof {
        vstd::utf8::encode_utf8_decode_utf8(a@);
        vstd::utf8::encode_utf8_decode_utf8(b@);
    }
    if x.len() != y.len() {
        return false;
    }
    let mut i: usize = 0;
    while i < x.len()
        invariant
            x@ == encode_utf8(a@),
            y@ == encode_utf8(b@),
            x@.len() == y@.len(),
            i <= x@.len(),
            forall|j: int| 0 <= j < i ==> x@[j] == y@[j],
        decreases x@.len() - i,
    {
        if x[i] != y[i] {
            assert(x@ != y@);
            return false;
        }
        i += 1;
    }
    assert(x@ =~= y@);
    true
}

/// The opcode that a text command names (its name in upper case), or 0xFF
/// for a name that is no command.
pub open spec fn command_code(name: Seq<char>) -> u8 {
    if name == "GET"@ { 0x00 }
    else if name == "SET"@ { 0x01 }
    else if name == "ADD"@ { 0x02 }
    else if name == "REPLACE"@ { 0x03 }
    else if name == "DELETE"@ { 0x04 }
    else if name == "INCREMENT"@ { 0x05 }
    else if name == "DECREMENT"@ { 0x06 }
    else if name == "QUIT"@ { 0x07 }
    else if name == "FLUSH"@ { 0x08 }
    else if name == "GETQ"@ { 0x09 }
    else if name == "NO-OP"@ { 0x0a }
    else if name == "VERSION"@ { 0x0b }
    else if name == "GETK"@ { 0x0c }
    else if name == "GETKQ"@ { 0x0d }
    else if name == "APPEND"@ { 0x0e }
    else if name == "PREPEND"@ { 0x0f }
    else if name == "STAT"@ { 0x10 }
    else if name == "SETQ"@ { 0x11 }
    else if name == "ADDQ"@ { 0x12 }
    else if name == "REPLACEQ"@ { 0x13 }
    else if name == "DELETEQ"@ { 0x14 }
    else if name == "INCREMENTQ"@ { 0x15 }
    else if name == "DECREMENTQ"@ { 0x16 }
    else if name == "QUITQ"@ { 0x17 }
    else if name == "FLUSHQ"@ { 0x18 }
    else if name == "APPENDQ"@ { 0x19 }
    else if name == "PREPENDQ"@ { 0x1a }
    else { 0xFF }
}

/// The opcode that the command name `name` stands for.
fn code_of(name: &str) -> (r: u8)
    ensures
        r == command_code(name@),
{
    if same_text(name, "GET") { 0x00 }
    else if same_text(name, "SET") { 0x01 }
    else if same_text(name, "ADD") { 0x02 }
    else if same_text(name, "REPLACE") { 0x03 }
    else if same_text(name, "DELETE") { 0x04 }
    else if same_text(name, "INCREMENT") { 0x05 }
    else if same_text(name, "DECREMENT") { 0x06 }
    else if same_text(name, "QUIT") { 0x07 }
    else if same_text(name, "FLUSH") { 0x08 }
    else if same_text(name, "GETQ") { 0x09 }
    else if same_text(name, "NO-OP") { 0x0a }
    else if same_text(name, "VERSION") { 0x0b }
    else if same_text(name, "GETK") { 0x0c }
    else if same_text(name, "GETKQ") { 0x0d }
    else if same_text(name, "APPEND") { 0x0e }
    else if same_text(name, "PREPEND") { 0x0f }
    else if same_text(name, "STAT") { 0x10 }
    else if same_text(name, "SETQ") { 0x11 }
    else if same_text(name, "ADDQ") { 0x12 }
    else if same_text(name, "REPLACEQ") { 0x13 }
    else if same_text(name, "DELETEQ") { 0x14 }
    else if same_text(name, "INCREMENTQ") { 0x15 }
    else if same_text(name, "DECREMENTQ") { 0x16 }
    else if same_text(name, "QUITQ") { 0x17 }
    else if same_text(name, "FLUSHQ") { 0x18 }
    else if same_text(name, "APPENDQ") { 0x19 }
    else if same_text(name, "PREPENDQ") { 0x1a }
    else { 0xFF }
}

/// The key argument that a command with opcode `code` takes from `words`:
/// the second word for GET, SET, ADD, REPLACE and DELETE, else none.
pub open spec fn key_arg(code: u8, words: Seq<Seq<char>>) -> Seq<char> {
    if code <= 0x04 && words.len() >= 2 {
        words[1]
    } else {
        Seq::<char>::empty()
    }
}

/// The value argument: the third word for SET, ADD and REPLACE, else none.
pub open spec fn value_arg(code: u8, words: Seq<Seq<char>>) -> Seq<char> {
    if 0x01 <= code <= 0x03 && words.len() >= 3 {
        words[2]
    } else {
        Seq::<char>::empty()
    }
}

/// The command has the words it needs, and they fit in a packet.
pub open spec fn args_ok(code: u8, words: Seq<Seq<char>>) -> bool {
    &&& code <= 0x04 ==> words.len() >= 2
    &&& 0x01 <= code <= 0x03 ==> words.len() >= 3
    &&& byte_len(key_arg(code, words)) <= u16::MAX
    &&& byte_len(key_arg(code, words)) + byte_len(value_arg(code, words)) <= u32::MAX
}

/// The request packet that a text command with opcode `code` and the given
/// words stands for.
pub open spec fn text_request(code: u8, words: Seq<Seq<char>>) -> PacketView {
    let k = key_arg(code, words);
    let v = value_arg(code, words);
    (
        MemHeader {
            opcode: code,
            key_length: byte_len(k) as u16,
            total_body_length: (byte_len(k) + byte_len(v)) as u32,
            ..empty_header(true)
        },
        Seq::<char>::empty(),
        k,
        v,
    )
}

/// Handles a line of the text form of the protocol: a command name, in any
/// case, then its key and value as the command needs. An empty line is
/// answered with status 0x0084 and a command that lacks its words with
/// 0x0004; anything else is handled as the request packet it stands for.
pub fn parse_command<T: CacheStorageStructure, R: CacheReplacementPolicy>(
    command: &str,
    cache: &mut Cache<T, R>,
) -> (r: Option<MemPacket>)
    requires
        old(cache).well_formed(),
    ensures
        final(cache).well_formed(),
        r is Some,
        ({
            let words = words_of(command@);
            let resp = r->Some_0@;
            if words.len() == 0 {
                &&& resp == (
                    MemHeader { status: 0x0084, ..empty_header(false) },
                    Seq::<char>::empty(),
                    Seq::<char>::empty(),
                    Seq::<char>::empty(),
                )
                &&& *final(cache) == *old(cache)
            } else {
                let code = command_code(upper_of(words[0]));
                let req = text_request(code, words);
                if !args_ok(code, words) {
                    replies_with(req, resp, 0x0004) && *final(cache) == *old(cache)
                } else {
                    handle_outcome(req, *old(cache), *final(cache), resp)
                }
            }
        }),
{
    let words = split_words(command);
    let ghost ws = words_of(command@);
    assert(words@.len() == ws.len());
    if words.len() == 0 {
        let mut response = MemPacket::new(false);
        response.header.with_status(0x0084);
        return Some(response);
    }
    assert(words@[0]@ == ws[0]);
    let name = uppercase(words[0].as_str());
    let code = code_of(name.as_str());
    let mut key = String::new();
    let mut value = String::new();
    let mut complete = true;
    if code <= 0x04 {
        if words.len() >= 2 {
            assert(words@[1]@ == ws[1]);
            key = words[1].clone();
        } else {
            complete = false;
        }
    }
    if 0x01 <= code && code <= 0x03 {
        if words.len() >= 3 {
            assert(words@[2]@ == ws[2]);
            value = words[2].clone();
        } else {
            complete = false;
        }
    }
    let key_len = key.as_str().as_bytes().len();
    let value_len = value.as_str().as_bytes().len();
    if !complete || key_len > 0xFFFF || value_len > (u32::MAX as usize) - key_len {
        let mut response = MemPacket::new(false);
        response.header.with_opcode(code);
        response.header.with_status(0x0004);
        return Some(response);
    }
    let mut request = MemPacket::new(true);
    request.header.with_opcode(code);
    request.with_key(key);
    request.with_extras(String::new());
    request.with_value(value);
    handle_command(request, cache)
}

} // verus!

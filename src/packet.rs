use vstd::prelude::*;
use vstd::slice::slice_subrange;
use vstd::utf8::{decode_utf8, encode_utf8, valid_utf8};
use crate::cache::error::CacheError;
use crate::cache::key::byte_len;

verus! {

/// A header with every field zero but the magic byte: 0x80 for a request,
/// 0x81 for a response.
pub open spec fn empty_header(request: bool) -> MemHeader {
    MemHeader {
        magic: if request {
            0x80u8
        } else {
            0x81u8
        },
        opcode: 0,
        key_length: 0,
        extras_length: 0,
        data_type: 0,
        status: 0,
        total_body_length: 0,
        opaque: 0,
        cas: 0,
    }
}

/// The fixed 24-byte header of a memcached binary packet.
#[derive(Debug, Clone, Copy, PartialEq, Eq, Structural)]
pub struct MemHeader {
    pub magic: u8,
    pub opcode: u8,
    pub key_length: u16,
    pub extras_length: u8,
    pub data_type: u8,
    pub status: u16,
    pub total_body_length: u32,
    pub opaque: u32,
    pub cas: u64,
}

impl MemHeader {
    /// A header with every field zero but the magic byte: 0x80 for a
    /// request, 0x81 for a response.
    pub fn new(request: bool) -> (r: MemHeader)
        ensures
            r == empty_header(request),
    {
        MemHeader {
            magic: if request {
                0x80
            } else {
                0x81
            },
            opcode: 0x00,
            key_length: 0x0000,
            extras_length: 0x00,
            data_type: 0x00,
            status: 0x0000,
            total_body_length: 0x00000000,
            opaque: 0x00000000,
            cas: 0x0000000000000000,
        }
    }

    pub fn with_opcode(&mut self, opcode: u8) -> (r: &mut MemHeader)
        ensures
            *final(self) == *final(r),
            *r == (MemHeader { opcode, ..*old(self) }),
    {
        self.opcode = opcode;
        self
    }

    pub fn with_status(&mut self, status: u16) -> (r: &mut MemHeader)
        ensures
            *final(self) == *final(r),
            *r == (MemHeader { status, ..*old(self) }),
    {
        self.status = status;
        self
    }

    pub fn with_key_len(&mut self, key_length: u16) -> (r: &mut MemHeader)
        ensures
            *final(self) == *final(r),
            *r == (MemHeader { key_length, ..*old(self) }),
    {
        self.key_length = key_length;
        self
    }

    pub fn with_extras_len(&mut self, extras_length: u8) -> (r: &mut MemHeader)
        ensures
            *final(self) == *final(r),
            *r == (MemHeader { extras_length, ..*old(self) }),
    {
        self.extras_length = extras_length;
        self
    }

    /// Sets the total body length to the value length plus the key and
    /// extras lengths already in the header; the sum must fit in 32 bits.
    pub fn with_value_len(&mut self, value_length: u32) -> (r: &mut MemHeader)
        requires
            value_length + old(self).key_length + old(self).extras_length <= u32::MAX,
        ensures
            *final(self) == *final(r),
            *r == (MemHeader {
                total_body_length: (value_length + old(self).key_length
                    + old(self).extras_length) as u32,
                ..*old(self)
            }),
    {
        self.total_body_length = value_length + (self.key_length as u32) + (
        self.extras_length as u32);
        self
    }

    pub fn with_cas(&mut self, cas: u64) -> (r: &mut MemHeader)
        ensures
            *final(self) == *final(r),
            *r == (MemHeader { cas, ..*old(self) }),
    {
        self.cas = cas;
        self
    }

    /// The 24 bytes of the header, multi-byte fields big-endian.
    pub fn bytes(&self) -> (r: Vec<u8>)
        ensures
            r@ == header_bytes(*self),
    {
        let mut out: Vec<u8> = Vec::with_capacity(24);
        out.push(self.magic);
        out.push(self.opcode);
        out.push((self.key_length >> 8) as u8);
        out.push(self.key_length as u8);
        out.push(self.extras_length);
        out.push(self.data_type);
        out.push((self.status >> 8) as u8);
        out.push(self.status as u8);
        out.push((self.total_body_length >> 24) as u8);
        out.push((self.total_body_length >> 16) as u8);
        out.push((self.total_body_length >> 8) as u8);
        out.push(self.total_body_length as u8);
        out.push((self.opaque >> 24) as u8);
        out.push((self.opaque >> 16) as u8);
        out.push((self.opaque >> 8) as u8);
        out.push(self.opaque as u8);
        out.push((self.cas >> 56) as u8);
        out.push((self.cas >> 48) as u8);
        out.push((self.cas >> 40) as u8);
        out.push((self.cas >> 32) as u8);
        out.push((self.cas >> 24) as u8);
        out.push((self.cas >> 16) as u8);
        out.push((self.cas >> 8) as u8);
        out.push(self.cas as u8);
        assert(out@ =~= header_bytes(*self));
        out
    }
}

/// The wire form of a header.
pub open spec fn header_bytes(h: MemHeader) -> Seq<u8> {
    seq![
        h.magic,
        h.opcode,
        (h.key_length >> 8) as u8,
        h.key_length as u8,
        h.extras_length,
        h.data_type,
        (h.status >> 8) as u8,
        h.status as u8,
        (h.total_body_length >> 24) as u8,
        (h.total_body_length >> 16) as u8,
        (h.total_body_length >> 8) as u8,
        h.total_body_length as u8,
        (h.opaque >> 24) as u8,
        (h.opaque >> 16) as u8,
        (h.opaque >> 8) as u8,
        h.opaque as u8,
        (h.cas >> 56) as u8,
        (h.cas >> 48) as u8,
        (h.cas >> 40) as u8,
        (h.cas >> 32) as u8,
        (h.cas >> 24) as u8,
        (h.cas >> 16) as u8,
        (h.cas >> 8) as u8,
        h.cas as u8,
    ]
}

/// The big-endian 16-bit number in `b` at `i`.
pub open spec fn read16(b: Seq<u8>, i: int) -> u16 {
    ((b[i] as u16) << 8) | (b[i + 1] as u16)
}

/// The big-endian 32-bit number in `b` at `i`.
pub open spec fn read32(b: Seq<u8>, i: int) -> u32 {
    ((b[i] as u32) << 24) | ((b[i + 1] as u32) << 16) | ((b[i + 2] as u32) << 8) | (b[i
        + 3] as u32)
}

/// The big-endian 64-bit number in `b` at `i`.
pub open spec fn read64(b: Seq<u8>, i: int) -> u64 {
    ((b[i] as u64) << 56) | ((b[i + 1] as u64) << 48) | ((b[i + 2] as u64) << 40) | ((b[i
        + 3] as u64) << 32) | ((b[i + 4] as u64) << 24) | ((b[i + 5] as u64) << 16) | ((b[i
        + 6] as u64) << 8) | (b[i + 7] as u64)
}

/// The header that the first 24 bytes of `b` hold.
pub open spec fn header_of(b: Seq<u8>) -> MemHeader {
    MemHeader {
        magic: b[0],
        opcode: b[1],
        key_length: read16(b, 2),
        extras_length: b[4],
        data_type: b[5],
        status: read16(b, 6),
        total_body_length: read32(b, 8),
        opaque: read32(b, 12),
        cas: read64(b, 16),
    }
}

proof fn lemma_header_round_trip(h: MemHeader, b: Seq<u8>)
    requires
        b.len() >= 24,
        b.subrange(0, 24) == header_bytes(h),
    ensures
        header_of(b) == h,
{
    let hb = header_bytes(h);
    assert forall|i: int| 0 <= i < 24 implies b[i] == hb[i] by {
        assert(b.subrange(0, 24)[i] == b[i]);
    }
    let k = h.key_length;
    let st = h.status;
    let t = h.total_body_length;
    let o = h.opaque;
    let c = h.cas;
    assert(((((k >> 8) as u8) as u16) << 8) | (((k as u8) as u16)) == k) by (bit_vector);
    assert(((((st >> 8) as u8) as u16) << 8) | (((st as u8) as u16)) == st) by (bit_vector);
    assert(((((t >> 24) as u8) as u32) << 24) | ((((t >> 16) as u8) as u32) << 16) | ((((t
        >> 8) as u8) as u32) << 8) | (((t as u8) as u32)) == t) by (bit_vector);
    assert(((((o >> 24) as u8) as u32) << 24) | ((((o >> 16) as u8) as u32) << 16) | ((((o
        >> 8) as u8) as u32) << 8) | (((o as u8) as u32)) == o) by (bit_vector);
    assert(((((c >> 56) as u8) as u64) << 56) | ((((c >> 48) as u8) as u64) << 48) | ((((c
        >> 40) as u8) as u64) << 40) | ((((c >> 32) as u8) as u64) << 32) | ((((c >> 24) as u8)
        as u64) << 24) | ((((c >> 16) as u8) as u64) << 16) | ((((c >> 8) as u8) as u64) << 8)
        | (((c as u8) as u64)) == c) by (bit_vector);
}

/// What `String::from_utf8_lossy` makes of bytes that are not valid UTF-8.
pub uninterp spec fn lossy_repair(b: Seq<u8>) -> Seq<char>;

/// The text that bytes decode to, invalid sequences replaced.
pub open spec fn utf8_lossy(b: Seq<u8>) -> Seq<char> {
    if valid_utf8(b) {
        decode_utf8(b)
    } else {
        lossy_repair(b)
    }
}

/// Relies on `String::from_utf8_lossy`: bytes that are valid UTF-8 are
/// decoded as they stand, and the result depends on the bytes alone.
#[verifier::external_body]
fn text_from_bytes(b: &[u8]) -> (r: String)
    ensures
        valid_utf8(b@) ==> r@ == decode_utf8(b@),
        !valid_utf8(b@) ==> r@ == lossy_repair(b@),
{
    String::from_utf8_lossy(b).into_owned()
}

/// Appends the bytes of `b` to `out`.
fn append_bytes(out: &mut Vec<u8>, b: &[u8])
    ensures
        final(out)@ == old(out)@ + b@,
{
    let mut i: usize = 0;
    while i < b.len()
        invariant
            i <= b@.len(),
            out@ == old(out)@ + b@.subrange(0, i as int),
        decreases b@.len() - i,
    {
        out.push(b[i]);
        i += 1;
        assert(b@.subrange(0, i as int) =~= b@.subrange(0, i - 1).push(b@[i - 1]));
    }
    assert(b@.subrange(0, b@.len() as int) =~= b@);
}

/// What a packet is to the contracts: its header, extras, key and value.
pub type PacketView = (MemHeader, Seq<char>, Seq<char>, Seq<char>);

/// The header's lengths agree with the extras, key and value it comes with.
pub open spec fn consistent(p: PacketView) -> bool {
    &&& p.0.extras_length == byte_len(p.1)
    &&& p.0.key_length == byte_len(p.2)
    &&& p.0.total_body_length == byte_len(p.1) + byte_len(p.2) + byte_len(p.3)
}

/// The wire form of a packet: the header, then extras, key and value.
pub open spec fn packet_bytes(p: PacketView) -> Seq<u8> {
    header_bytes(p.0) + encode_utf8(p.1) + encode_utf8(p.2) + encode_utf8(p.3)
}

/// The packet that `b` holds, or none when the header's lengths do not add
/// up or the buffer is too short for the body they announce. Bytes past the
/// body are not part of the packet.
pub open spec fn decode(b: Seq<u8>) -> Option<PacketView> {
    if b.len() < 24 {
        None
    } else {
        let h = header_of(b);
        let e = h.extras_length as int;
        let k = h.key_length as int;
        let t = h.total_body_length as int;
        if t < e + k || b.len() < 24 + t {
            None
        } else {
            Some(
                (
                    h,
                    utf8_lossy(b.subrange(24, 24 + e)),
                    utf8_lossy(b.subrange(24 + e, 24 + e + k)),
                    utf8_lossy(b.subrange(24 + e + k, 24 + t)),
                ),
            )
        }
    }
}

/// A memcached binary packet: header, then extras, key and value.
#[derive(Debug)]
pub struct MemPacket {
    pub header: MemHeader,
    pub extras: String,
    pub key: String,
    pub value: String,
}

impl View for MemPacket {
    type V = PacketView;

    open spec fn view(&self) -> PacketView {
        (self.header, self.extras@, self.key@, self.value@)
    }
}

impl MemPacket {
    /// Reads a packet from `bytes`; fails with `MalformedPacket` when the
    /// total body length is less than the extras and key lengths together,
    /// or fewer bytes follow the header than the body length announces.
    pub fn from_bytes(bytes: &[u8]) -> (r: Result<MemPacket, CacheError>)
        ensures
            match r {
                Ok(p) => decode(bytes@) == Some(p@),
                Err(e) => e == CacheError::MalformedPacket && decode(bytes@) is None,
            },
    {
        if bytes.len() < 24 {
            return Err(CacheError::MalformedPacket);
        }
        let header = MemHeader {
            magic: bytes[0],
            opcode: bytes[1],
            key_length: ((bytes[2] as u16) << 8) | (bytes[3] as u16),
            extras_length: bytes[4],
            data_type: bytes[5],
            status: ((bytes[6] as u16) << 8) | (bytes[7] as u16),
            total_body_length: ((bytes[8] as u32) << 24) | ((bytes[9] as u32) << 16) | ((
            bytes[10] as u32) << 8) | (bytes[11] as u32),
            opaque: ((bytes[12] as u32) << 24) | ((bytes[13] as u32) << 16) | ((bytes[14] as u32)
                << 8) | (bytes[15] as u32),
            cas: ((bytes[16] as u64) << 56) | ((bytes[17] as u64) << 48) | ((bytes[18] as u64)
                << 40) | ((bytes[19] as u64) << 32) | ((bytes[20] as u64) << 24) | ((
            bytes[21] as u64) << 16) | ((bytes[22] as u64) << 8) | (bytes[23] as u64),
        };
        assert(header == header_of(bytes@));
        let e_len = header.extras_length as usize;
        let k_len = header.key_length as usize;
        let t_len = header.total_body_length as usize;
        if t_len < e_len + k_len || bytes.len() - 24 < t_len {
            return Err(CacheError::MalformedPacket);
        }
        let e_end = 24 + e_len;
        let k_end = e_end + k_len;
        let v_end = 24 + t_len;
        let extras = text_from_bytes(slice_subrange(bytes, 24, e_end));
        let key = text_from_bytes(slice_subrange(bytes, e_end, k_end));
        let value = text_from_bytes(slice_subrange(bytes, k_end, v_end));
        Ok(MemPacket { header, extras, key, value })
    }

    /// An empty request or response packet.
    pub fn new(request: bool) -> (r: MemPacket)
        ensures
            r.header == empty_header(request),
            r.extras@ == Seq::<char>::empty(),
            r.key@ == Seq::<char>::empty(),
            r.value@ == Seq::<char>::empty(),
    {
        MemPacket {
            header: MemHeader::new(request),
            key: String::new(),
            extras: String::new(),
            value: String::new(),
        }
    }

    /// Sets the key and its length in the header; the key must fit in the
    /// header's 16-bit key length.
    pub fn with_key(&mut self, key: String) -> (r: &mut MemPacket)
        requires
            byte_len(key@) <= u16::MAX,
        ensures
            *final(self) == *final(r),
            r@ == (MemHeader { key_length: byte_len(key@) as u16, ..old(self).header }, old(
                self,
            ).extras@, key@, old(self).value@),
    {
        let n = key.as_str().as_bytes().len();
        self.header.with_key_len(n as u16);
        self.key = key;
        self
    }

    /// Sets the extras and their length in the header; they must fit in the
    /// header's 8-bit extras length.
    pub fn with_extras(&mut self, extras: String) -> (r: &mut MemPacket)
        requires
            byte_len(extras@) <= u8::MAX,
        ensures
            *final(self) == *final(r),
            r@ == (MemHeader { extras_length: byte_len(extras@) as u8, ..old(self).header }, extras@,
            old(self).key@, old(self).value@),
    {
        let n = extras.as_str().as_bytes().len();
        self.header.with_extras_len(n as u8);
        self.extras = extras;
        self
    }

    /// Sets the value, and the total body length from it and the key and
    /// extras lengths in the header; the total must fit in 32 bits.
    pub fn with_value(&mut self, value: String) -> (r: &mut MemPacket)
        requires
            byte_len(value@) + old(self).header.key_length + old(self).header.extras_length
                <= u32::MAX,
        ensures
            *final(self) == *final(r),
            r@ == (MemHeader {
                total_body_length: (byte_len(value@) + old(self).header.key_length + old(
                    self,
                ).header.extras_length) as u32,
                ..old(self).header
            }, old(self).extras@, old(self).key@, value@),
    {
        let n = value.as_str().as_bytes().len();
        self.header.with_value_len(n as u32);
        self.value = value;
        self
    }

    /// The wire form of the packet: the header, then extras, key and value.
    pub fn bytes(&self) -> (r: Vec<u8>)
        ensures
            r@ == packet_bytes(self@),
    {
        let mut out = self.header.bytes();
        append_bytes(&mut out, self.extras.as_str().as_bytes());
        append_bytes(&mut out, self.key.as_str().as_bytes());
        append_bytes(&mut out, self.value.as_str().as_bytes());
        out
    }

    /// Whether the packet carries extras.
    pub fn has_extras(&self) -> (r: bool)
        ensures
            r == (self.extras@.len() > 0),
    {
        !self.extras.as_str().is_empty()
    }

    /// Whether the packet carries a key.
    pub fn has_key(&self) -> (r: bool)
        ensures
            r == (self.key@.len() > 0),
    {
        !self.key.as_str().is_empty()
    }

    /// Whether the packet carries a value.
    pub fn has_value(&self) -> (r: bool)
        ensures
            r == (self.value@.len() > 0),
    {
        !self.value.as_str().is_empty()
    }
}

/// Decoding undoes encoding: a packet whose header lengths agree with its
/// extras, key and value reads back from its wire form as itself.
pub proof fn lemma_decode_encode(p: PacketView)
    requires
        consistent(p),
    ensures
        decode(packet_bytes(p)) == Some(p),
{
    let b = packet_bytes(p);
    let hb = header_bytes(p.0);
    let eb = encode_utf8(p.1);
    let kb = encode_utf8(p.2);
    let vb = encode_utf8(p.3);
    assert(b.subrange(0, 24) =~= hb);
    lemma_header_round_trip(p.0, b);
    let e = eb.len() as int;
    let k = kb.len() as int;
    let v = vb.len() as int;
    assert(b.subrange(24, 24 + e) =~= eb);
    assert(b.subrange(24 + e, 24 + e + k) =~= kb);
    assert(b.subrange(24 + e + k, 24 + e + k + v) =~= vb);
    vstd::utf8::encode_utf8_valid_utf8(p.1);
    vstd::utf8::encode_utf8_valid_utf8(p.2);
    vstd::utf8::encode_utf8_valid_utf8(p.3);
    vstd::utf8::encode_utf8_decode_utf8(p.1);
    vstd::utf8::encode_utf8_decode_utf8(p.2);
    vstd::utf8::encode_utf8_decode_utf8(p.3);
}

} // verus!

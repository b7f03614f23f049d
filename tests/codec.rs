use memcache::cache::error::CacheError;
use memcache::packet::{MemHeader, MemPacket};

fn sample_packet() -> MemPacket {
    let mut p = MemPacket::new(true);
    p.header.with_opcode(0x01).with_status(0x0102).with_cas(0x0102030405060708);
    p.header.opaque = 0xDEADBEEF;
    p.with_key("key".to_string());
    p.with_extras("ex".to_string());
    p.with_value("value!".to_string());
    p
}

#[test]
fn header_bytes_are_big_endian() {
    let mut h = MemHeader::new(false);
    h.with_opcode(0x04).with_key_len(0x0203).with_extras_len(0x05).with_status(0x0607);
    h.with_value_len(0x0A0B0000);
    h.with_cas(0x1112131415161718);
    h.opaque = 0x0C0D0E0F;
    let b = h.bytes();
    assert_eq!(
        b,
        vec![
            0x81, 0x04, 0x02, 0x03, 0x05, 0x00, 0x06, 0x07, 0x0A, 0x0B, 0x02, 0x08, 0x0C, 0x0D,
            0x0E, 0x0F, 0x11, 0x12, 0x13, 0x14, 0x15, 0x16, 0x17, 0x18
        ]
    );
}

#[test]
fn new_header_request_and_response_magic() {
    assert_eq!(MemHeader::new(true).magic, 0x80);
    assert_eq!(MemHeader::new(false).magic, 0x81);
    assert_eq!(MemHeader::new(true).total_body_length, 0);
}

#[test]
fn builders_fill_lengths() {
    let p = sample_packet();
    assert_eq!(p.header.key_length, 3);
    assert_eq!(p.header.extras_length, 2);
    assert_eq!(p.header.total_body_length, 11);
}

#[test]
fn packet_bytes_layout() {
    let p = sample_packet();
    let b = p.bytes();
    assert_eq!(b.len(), 24 + 11);
    assert_eq!(&b[24..26], b"ex");
    assert_eq!(&b[26..29], b"key");
    assert_eq!(&b[29..35], b"value!");
}

#[test]
fn decode_of_encode_is_identity() {
    let p = sample_packet();
    let q = MemPacket::from_bytes(&p.bytes()).unwrap();
    assert_eq!(q.header, p.header);
    assert_eq!(q.extras, p.extras);
    assert_eq!(q.key, p.key);
    assert_eq!(q.value, p.value);
}

#[test]
fn decode_of_encode_with_multibyte_text() {
    let mut p = MemPacket::new(false);
    p.with_key("ключ".to_string());
    p.with_value("värde✓".to_string());
    let q = MemPacket::from_bytes(&p.bytes()).unwrap();
    assert_eq!(q.header, p.header);
    assert_eq!(q.key, "ключ");
    assert_eq!(q.value, "värde✓");
}

#[test]
fn body_shorter_than_key_and_extras_is_malformed() {
    let mut b = sample_packet().bytes();
    b[8] = 0;
    b[9] = 0;
    b[10] = 0;
    b[11] = 4;
    assert!(matches!(MemPacket::from_bytes(&b), Err(CacheError::MalformedPacket)));
}

#[test]
fn truncated_buffer_is_malformed() {
    let b = sample_packet().bytes();
    assert!(matches!(MemPacket::from_bytes(&b[..30]), Err(CacheError::MalformedPacket)));
    assert!(matches!(MemPacket::from_bytes(&b[..10]), Err(CacheError::MalformedPacket)));
}

#[test]
fn trailing_bytes_are_ignored() {
    let mut b = sample_packet().bytes();
    b.extend_from_slice(b"\r\n");
    let q = MemPacket::from_bytes(&b).unwrap();
    assert_eq!(q.value, "value!");
}

#[test]
fn invalid_utf8_is_replaced() {
    let mut p = MemPacket::new(true);
    p.with_key("ab".to_string());
    p.with_value(String::new());
    let mut b = p.bytes();
    b[24] = 0xFF;
    let q = MemPacket::from_bytes(&b).unwrap();
    assert_eq!(q.key, "\u{FFFD}b");
}

#[test]
fn presence_helpers() {
    let p = sample_packet();
    assert!(p.has_key() && p.has_extras() && p.has_value());
    let e = MemPacket::new(true);
    assert!(!e.has_key() && !e.has_extras() && !e.has_value());
}

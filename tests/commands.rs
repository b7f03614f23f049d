use memcache::cache::cache::Cache;
use memcache::cache::replacement_policy::{CacheReplacementPolicy, LRU};
use memcache::cache::storage_structure::{CacheStorageStructure, NaiveStorageStructure};
use memcache::command::{handle_command, parse_command};
use memcache::commands::delete::delete_command;
use memcache::commands::get::get_command;
use memcache::commands::set::{add_command, replace_command, set_command};
use memcache::packet::MemPacket;

fn cache() -> Cache<NaiveStorageStructure, LRU> {
    Cache::new(360, NaiveStorageStructure::new(), LRU::new())
}

fn request(opcode: u8, key: &str, value: &str) -> MemPacket {
    let mut p = MemPacket::new(true);
    p.header.with_opcode(opcode);
    p.header.opaque = 77;
    p.with_key(key.to_string());
    p.with_value(value.to_string());
    p
}

fn status(r: Option<MemPacket>) -> u16 {
    r.unwrap().header.status
}

#[test]
fn add_existing_and_replace_missing_give_key_exists() {
    let mut c = cache();
    assert_eq!(status(set_command(request(0x01, "k", "v"), &mut c)), 0x0000);
    assert_eq!(status(add_command(request(0x02, "k", "w"), &mut c)), 0x0005);
    assert_eq!(status(replace_command(request(0x03, "missing", "w"), &mut c)), 0x0005);
    assert_eq!(c.get(memcache::cache::key::Key::new("k".to_string())).unwrap().value.item, "v");
}

#[test]
fn add_missing_and_replace_existing_store() {
    let mut c = cache();
    assert_eq!(status(add_command(request(0x02, "k", "v"), &mut c)), 0x0000);
    assert_eq!(status(replace_command(request(0x03, "k", "w"), &mut c)), 0x0000);
    let r = get_command(request(0x00, "k", ""), &mut c).unwrap();
    assert_eq!(r.value, "w");
}

#[test]
fn set_reply_has_cas_one_and_echoes() {
    let mut c = cache();
    let r = set_command(request(0x01, "k", "v"), &mut c).unwrap();
    assert_eq!(r.header.magic, 0x81);
    assert_eq!(r.header.opcode, 0x01);
    assert_eq!(r.header.opaque, 77);
    assert_eq!(r.header.cas, 1);
}

#[test]
fn set_too_large_is_internal_error() {
    let mut c = Cache::new(4, NaiveStorageStructure::new(), LRU::new());
    assert_eq!(status(set_command(request(0x01, "key", "value"), &mut c)), 0x0084);
}

#[test]
fn set_without_key_is_invalid() {
    let mut c = cache();
    assert_eq!(status(set_command(request(0x01, "", "v"), &mut c)), 0x0004);
}

#[test]
fn get_hit_and_miss_replies() {
    let mut c = cache();
    set_command(request(0x01, "k", "hello"), &mut c);
    let hit = get_command(request(0x00, "k", ""), &mut c).unwrap();
    assert_eq!(hit.header.status, 0x0000);
    assert_eq!(hit.key, "k");
    assert_eq!(hit.value, "hello");
    assert_eq!(hit.header.total_body_length, 6);
    let miss = get_command(request(0x00, "nope", ""), &mut c).unwrap();
    assert_eq!(miss.header.status, 0x0001);
    assert_eq!(miss.value, "Not found");
    assert_eq!(miss.header.key_length, 4);
    assert_eq!(miss.header.total_body_length, 13);
}

#[test]
fn get_with_value_is_invalid() {
    let mut c = cache();
    assert_eq!(status(get_command(request(0x00, "k", "v"), &mut c)), 0x0004);
}

#[test]
fn delete_replies_ok_either_way() {
    let mut c = cache();
    set_command(request(0x01, "k", "v"), &mut c);
    assert_eq!(status(delete_command(request(0x04, "k", ""), &mut c)), 0x0000);
    assert_eq!(status(delete_command(request(0x04, "k", ""), &mut c)), 0x0000);
    assert_eq!(status(get_command(request(0x00, "k", ""), &mut c)), 0x0001);
    assert_eq!(status(delete_command(request(0x04, "k", "x"), &mut c)), 0x0004);
}

#[test]
fn dispatch_by_opcode() {
    let mut c = cache();
    assert_eq!(status(handle_command(request(0x01, "a", "1"), &mut c)), 0x0000);
    assert_eq!(status(handle_command(request(0x02, "a", "1"), &mut c)), 0x0005);
    assert_eq!(status(handle_command(request(0x00, "a", ""), &mut c)), 0x0000);
    assert_eq!(status(handle_command(request(0x07, "", ""), &mut c)), 0x0081);
    assert_eq!(status(handle_command(request(0x1a, "", ""), &mut c)), 0x0081);
}

#[test]
fn dispatch_rejects_response_magic() {
    let mut c = cache();
    let mut p = request(0x01, "a", "1");
    p.header.magic = 0x81;
    assert_eq!(status(handle_command(p, &mut c)), 0x0084);
    assert!(!c.contains(memcache::cache::key::Key::new("a".to_string())));
}

#[test]
fn text_commands_any_case() {
    let mut c = cache();
    assert_eq!(status(parse_command("set  greeting   hi\r\n", &mut c)), 0x0000);
    let r = parse_command("GeT greeting", &mut c).unwrap();
    assert_eq!(r.header.status, 0x0000);
    assert_eq!(r.header.opcode, 0x00);
    assert_eq!(r.value, "hi");
    assert_eq!(status(parse_command("add greeting x", &mut c)), 0x0005);
    assert_eq!(status(parse_command("REPLACE nothing x", &mut c)), 0x0005);
    assert_eq!(status(parse_command("delete greeting", &mut c)), 0x0000);
    assert_eq!(status(parse_command("get greeting", &mut c)), 0x0001);
}

#[test]
fn text_command_errors() {
    let mut c = cache();
    assert_eq!(status(parse_command("   ", &mut c)), 0x0084);
    assert_eq!(status(parse_command("set onlykey", &mut c)), 0x0004);
    assert_eq!(status(parse_command("get", &mut c)), 0x0004);
    assert_eq!(status(parse_command("flush", &mut c)), 0x0081);
    assert_eq!(status(parse_command("bogus a b", &mut c)), 0x0081);
    let r = parse_command("no-op", &mut c).unwrap();
    assert_eq!(r.header.opcode, 0x0a);
}

//! An in-memory key/value cache that speaks the memcached binary protocol.
//!
//! The cache engine couples a storage structure (entries addressed by key and
//! by a stable slot index) with a replacement policy (which slot to evict
//! next), and keeps the byte size of the stored entries within a capacity.

pub mod cache;
pub mod packet;
pub mod command;
pub mod commands;

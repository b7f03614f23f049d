use vstd::prelude::*;

verus! {

/// The errors that the cache engine and the wire codec report.
#[derive(Debug, Clone, Copy, PartialEq, Eq, Structural)]
pub enum CacheError {
    /// A key that was looked up or removed is absent.
    KeyNotFound,
    /// The cache could not make room for a new entry.
    EvictionFailure,
    /// A replacement policy was asked for a victim while tracking nothing.
    NothingToEvict,
    /// A byte buffer does not hold a well-formed packet.
    MalformedPacket,
}

} // verus!

use vstd::prelude::*;
use crate::cache::key::{byte_len, Key};
use crate::cache::value::Value;

verus! {

/// What an entry is to the contracts: its key, and its value with the version.
pub type EntryView = (Seq<char>, (Seq<char>, u64));

/// The bytes an entry occupies: the length of its key plus that of its value.
pub open spec fn entry_len(e: EntryView) -> nat {
    byte_len(e.0) + byte_len(e.1.0)
}

/// A key together with its value: the unit of capacity accounting.
#[derive(Debug, Clone, Eq, Hash)]
pub struct DataEntry {
    pub key: Key,
    pub value: Value,
}

impl View for DataEntry {
    type V = EntryView;

    open spec fn view(&self) -> EntryView {
        (self.key@, self.value@)
    }
}

impl PartialEq for DataEntry {
    fn eq(&self, other: &DataEntry) -> (r: bool) {
        self.key == other.key && self.value == other.value
    }
}

impl vstd::std_specs::cmp::PartialEqSpecImpl for DataEntry {
    open spec fn obeys_eq_spec() -> bool {
        true
    }

    open spec fn eq_spec(&self, other: &DataEntry) -> bool {
        self@ == other@
    }
}

impl DataEntry {
    pub fn new(key: Key, value: Value) -> (r: DataEntry)
        ensures
            r@ == (key@, value@),
    {
        DataEntry { key, value }
    }

    /// Length of the entry in bytes: key and value together.
    pub fn len(&self) -> (r: usize)
        requires
            entry_len(self@) <= usize::MAX,
        ensures
            r == entry_len(self@),
    {
        self.key.len() + self.value.len()
    }

    /// A copy of this entry with the same key, value and version.
    pub fn duplicate(&self) -> (r: DataEntry)
        ensures
            r@ == self@,
    {
        DataEntry { key: self.key.duplicate(), value: self.value.duplicate() }
    }
}

} // verus!

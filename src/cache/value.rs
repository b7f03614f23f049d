use vstd::prelude::*;
use crate::cache::key::byte_len;

verus! {

/// The value stored under a key, with a version counter.
#[derive(Debug, Clone, Eq, Hash)]
pub struct Value {
    pub item: String,
    pub cas: u64,
}

impl View for Value {
    type V = (Seq<char>, u64);

    open spec fn view(&self) -> (Seq<char>, u64) {
        (self.item@, self.cas)
    }
}

impl PartialEq for Value {
    fn eq(&self, other: &Value) -> (r: bool) {
        self.item == other.item && self.cas == other.cas
    }
}

impl vstd::std_specs::cmp::PartialEqSpecImpl for Value {
    open spec fn obeys_eq_spec() -> bool {
        true
    }

    open spec fn eq_spec(&self, other: &Value) -> bool {
        self@ == other@
    }
}

impl Value {
    /// A value holding `item`, at version 0.
    pub fn new(item: String) -> (r: Value)
        ensures
            r@ == (item@, 0u64),
    {
        Value { item, cas: 0 }
    }

    /// Advances the version counter by one; it stays at its maximum once there.
    pub fn inc_cas(&mut self)
        ensures
            final(self).item@ == old(self).item@,
            final(self).cas == if old(self).cas < u64::MAX {
                (old(self).cas + 1) as u64
            } else {
                u64::MAX
            },
    {
        self.cas = self.cas.saturating_add(1);
    }

    /// Length of the value in bytes.
    pub fn len(&self) -> (r: usize)
        ensures
            r == byte_len(self.item@),
    {
        self.item.as_str().as_bytes().len()
    }

    /// A copy of this value with the same contents and version.
    pub fn duplicate(&self) -> (r: Value)
        ensures
            r@ == self@,
    {
        Value { item: self.item.clone(), cas: self.cas }
    }
}

} // verus!

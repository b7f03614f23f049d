use vstd::prelude::*;
use vstd::utf8::encode_utf8;

verus! {

/// The number of bytes in the UTF-8 encoding of `s`.
pub open spec fn byte_len(s: Seq<char>) -> nat {
    encode_utf8(s).len()
}

/// The key under which an entry is stored.
#[derive(Debug, Clone, Eq, Hash)]
pub struct Key {
    pub item: String,
}

impl View for Key {
    type V = Seq<char>;

    open spec fn view(&self) -> Seq<char> {
        self.item@
    }
}

impl PartialEq for Key {
    fn eq(&self, other: &Key) -> (r: bool) {
        self.item == other.item
    }
}

impl vstd::std_specs::cmp::PartialEqSpecImpl for Key {
    open spec fn obeys_eq_spec() -> bool {
        true
    }

    open spec fn eq_spec(&self, other: &Key) -> bool {
        self@ == other@
    }
}

impl Key {
    pub fn new(item: String) -> (r: Key)
        ensures
            r@ == item@,
    {
        Key { item }
    }

    /// Length of the key in bytes.
    pub fn len(&self) -> (r: usize)
        ensures
            r == byte_len(self@),
    {
        self.item.as_str().as_bytes().len()
    }

    /// A copy of this key with the same contents.
    pub fn duplicate(&self) -> (r: Key)
        ensures
            r@ == self@,
    {
        Key { item: self.item.clone() }
    }
}

} // verus!

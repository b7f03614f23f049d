use vstd::prelude::*;
use crate::cache::data_entry::{entry_len, DataEntry, EntryView};
use crate::cache::key::Key;
use crate::cache::value::Value;

verus! {

/// Some slot of `m` holds an entry whose key is `k`.
pub open spec fn has_key(m: Map<usize, EntryView>, k: Seq<char>) -> bool {
    exists|i: usize| #[trigger] m.contains_key(i) && m[i].0 == k
}

/// The slot of `m` whose entry has key `k` (meaningful when `has_key(m, k)`).
pub open spec fn slot_of(m: Map<usize, EntryView>, k: Seq<char>) -> usize {
    choose|i: usize| #[trigger] m.contains_key(i) && m[i].0 == k
}

/// No two slots of `m` hold entries with the same key.
pub open spec fn keys_unique(m: Map<usize, EntryView>) -> bool {
    forall|i: usize, j: usize|
        #[trigger] m.contains_key(i) && #[trigger] m.contains_key(j) && m[i].0 == m[j].0 ==> i == j
}

/// The bytes that the entry under `k` occupies in `m`, or 0 when `k` is absent.
pub open spec fn stored_len(m: Map<usize, EntryView>, k: Seq<char>) -> nat {
    if has_key(m, k) {
        entry_len(m[slot_of(m, k)])
    } else {
        0
    }
}

/// The bytes of the entries of `m` in the slots below `n`.
pub open spec fn entries_total(m: Map<usize, EntryView>, n: nat) -> nat
    decreases n,
{
    if n == 0 {
        0
    } else {
        entries_total(m, (n - 1) as nat) + if m.contains_key((n - 1) as usize) {
            entry_len(m[(n - 1) as usize])
        } else {
            0
        }
    }
}

/// An associative store from key to entry, in which every live entry also
/// has a slot index. A slot index stays with its entry until the entry is
/// removed: removals never move other entries to other slots.
pub trait CacheStorageStructure: Sized {
    /// The live entries, by slot index.
    spec fn entries(&self) -> Map<usize, EntryView>;

    /// The bytes of all live entries together.
    spec fn total(&self) -> nat;

    spec fn well_formed(&self) -> bool;

    /// A well-formed store holds each key at most once, and its total fits
    /// in a `usize` and is the sum of the lengths of its entries: summed over
    /// the slots below any bound that lies above every slot in use.
    proof fn lemma_well_formed(&self)
        requires
            self.well_formed(),
        ensures
            keys_unique(self.entries()),
            self.total() <= usize::MAX,
            forall|i: usize| #[trigger]
                self.entries().contains_key(i) ==> entry_len(self.entries()[i]) <= self.total(),
            forall|n: nat|
                n <= usize::MAX + 1 && (forall|i: usize| #[trigger]
                    self.entries().contains_key(i) ==> i < n) ==> self.total() == #[trigger] entries_total(
                    self.entries(),
                    n,
                ),
    ;

    fn new() -> (r: Self)
        ensures
            r.well_formed(),
            r.entries() == Map::<usize, EntryView>::empty(),
            r.total() == 0,
    ;

    /// Total bytes of the live entries.
    fn size(&self) -> (r: usize)
        requires
            self.well_formed(),
        ensures
            r == self.total(),
    ;

    /// The slot and entry stored under `key`, if any.
    fn get(&mut self, key: Key) -> (r: Option<(usize, DataEntry)>)
        requires
            old(self).well_formed(),
        ensures
            *final(self) == *old(self),
            match r {
                Some((i, e)) => old(self).entries().contains_key(i) && old(self).entries()[i]
                    == e@ && e@.0 == key@,
                None => !has_key(old(self).entries(), key@),
            },
    ;

    /// The entry at slot `index`, if that slot is in use.
    fn get_index(&mut self, index: usize) -> (r: Option<(usize, DataEntry)>)
        requires
            old(self).well_formed(),
        ensures
            *final(self) == *old(self),
            match r {
                Some((i, e)) => i == index && old(self).entries().contains_key(index)
                    && old(self).entries()[index] == e@,
                None => !old(self).entries().contains_key(index),
            },
    ;

    /// Stores `value` under `key`. An entry already under `key` is replaced in
    /// its own slot and handed back; otherwise the entry gets a slot that was
    /// free.
    fn set(&mut self, key: Key, value: Value) -> (r: (usize, Option<DataEntry>))
        requires
            old(self).well_formed(),
            old(self).total() - stored_len(old(self).entries(), key@) + entry_len((key@, value@))
                <= usize::MAX,
        ensures
            final(self).well_formed(),
            final(self).entries() == old(self).entries().insert(r.0, (key@, value@)),
            final(self).total() == old(self).total() - stored_len(old(self).entries(), key@)
                + entry_len((key@, value@)),
            match r.1 {
                Some(e) => old(self).entries().contains_key(r.0) && old(self).entries()[r.0]
                    == e@ && e@.0 == key@,
                None => !has_key(old(self).entries(), key@) && !old(self).entries().contains_key(
                    r.0,
                ),
            },
    ;

    /// Removes the entry under `key`, handing back its slot and the entry.
    fn remove(&mut self, key: Key) -> (r: Option<(usize, DataEntry)>)
        requires
            old(self).well_formed(),
        ensures
            final(self).well_formed(),
            match r {
                Some((i, e)) => old(self).entries().contains_key(i) && old(self).entries()[i]
                    == e@ && e@.0 == key@ && final(self).entries() == old(self).entries().remove(i)
                    && final(self).total() + entry_len(e@) == old(self).total(),
                None => !has_key(old(self).entries(), key@) && *final(self) == *old(self),
            },
    ;

    /// Removes the entry at slot `index`, if that slot is in use.
    fn remove_index(&mut self, index: usize) -> (r: Option<(usize, DataEntry)>)
        requires
            old(self).well_formed(),
        ensures
            final(self).well_formed(),
            match r {
                Some((i, e)) => i == index && old(self).entries().contains_key(index)
                    && old(self).entries()[index] == e@ && final(self).entries()
                    == old(self).entries().remove(index) && final(self).total() + entry_len(e@)
                    == old(self).total(),
                None => !old(self).entries().contains_key(index) && *final(self) == *old(self),
            },
    ;

    /// Whether an entry is stored under `key`.
    fn contains(&mut self, key: Key) -> (r: bool)
        requires
            old(self).well_formed(),
        ensures
            *final(self) == *old(self),
            r == has_key(old(self).entries(), key@),
    ;
}

/// The bytes held in one slot: the entry's length, or 0 for a free slot.
pub open spec fn slot_len(o: Option<DataEntry>) -> nat {
    match o {
        Some(e) => entry_len(e@),
        None => 0,
    }
}

/// The bytes held in all the slots of `s`.
pub open spec fn slots_total(s: Seq<Option<DataEntry>>) -> nat
    decreases s.len(),
{
    if s.len() == 0 {
        0
    } else {
        slots_total(s.drop_last()) + slot_len(s.last())
    }
}

proof fn lemma_slots_total_push(s: Seq<Option<DataEntry>>, o: Option<DataEntry>)
    ensures
        slots_total(s.push(o)) == slots_total(s) + slot_len(o),
{
    assert(s.push(o).drop_last() =~= s);
}

proof fn lemma_slots_total_update(s: Seq<Option<DataEntry>>, i: int, o: Option<DataEntry>)
    requires
        0 <= i < s.len(),
    ensures
        slots_total(s.update(i, o)) + slot_len(s[i]) == slots_total(s) + slot_len(o),
    decreases s.len(),
{
    let t = s.update(i, o);
    if i == s.len() - 1 {
        assert(t.drop_last() =~= s.drop_last());
    } else {
        assert(t.drop_last() =~= s.drop_last().update(i, o));
        lemma_slots_total_update(s.drop_last(), i, o);
    }
}

proof fn lemma_slots_total_bounds(s: Seq<Option<DataEntry>>, i: int)
    requires
        0 <= i < s.len(),
    ensures
        slot_len(s[i]) <= slots_total(s),
    decreases s.len(),
{
    if i < s.len() - 1 {
        lemma_slots_total_bounds(s.drop_last(), i);
    }
}

proof fn lemma_entries_total_prefix(s: Seq<Option<DataEntry>>, m: Map<usize, EntryView>, k: nat)
    requires
        k <= s.len(),
        s.len() <= usize::MAX,
        forall|i: usize| #[trigger]
            m.contains_key(i) <==> (i as int) < s.len() && s[i as int] is Some,
        forall|i: usize| #[trigger] m.contains_key(i) ==> m[i] == s[i as int]->Some_0@,
    ensures
        entries_total(m, k) == slots_total(s.subrange(0, k as int)),
    decreases k,
{
    if k > 0 {
        lemma_entries_total_prefix(s, m, (k - 1) as nat);
        assert(s.subrange(0, k as int).drop_last() =~= s.subrange(0, k - 1));
        let i = (k - 1) as usize;
        if s[i as int] is Some {
            assert(m.contains_key(i));
        } else {
            assert(!m.contains_key(i));
        }
    }
}

proof fn lemma_entries_total_beyond(m: Map<usize, EntryView>, len: nat, k: nat)
    requires
        len <= k <= usize::MAX + 1,
        forall|i: usize| #[trigger] m.contains_key(i) ==> i < len,
    ensures
        entries_total(m, k) == entries_total(m, len),
    decreases k,
{
    if k > len {
        lemma_entries_total_beyond(m, len, (k - 1) as nat);
        assert(!m.contains_key((k - 1) as usize));
    }
}

proof fn lemma_slots_total_free_tail(s: Seq<Option<DataEntry>>, k: int)
    requires
        0 <= k <= s.len(),
        forall|j: int| k <= j < s.len() ==> s[j] is None,
    ensures
        slots_total(s) == slots_total(s.subrange(0, k)),
    decreases s.len(),
{
    if s.len() > k {
        lemma_slots_total_free_tail(s.drop_last(), k);
        assert(s.drop_last().subrange(0, k) =~= s.subrange(0, k));
    } else {
        assert(s.subrange(0, k) =~= s);
    }
}

/// A store kept as a list of slots, each free or holding one entry.
/// Lookup by key scans the slots. A new key takes the first free slot, or a
/// slot appended at the end; a removal frees its slot and moves nothing else,
/// so slot indices are stable.
pub struct NaiveStorageStructure {
    data: Vec<Option<DataEntry>>,
    size: usize,
}

impl NaiveStorageStructure {
    /// Position of the slot holding `key`, if any.
    fn find(&self, key: &Key) -> (r: Option<usize>)
        ensures
            match r {
                Some(i) => i < self.data@.len() && self.data@[i as int] is Some
                    && self.data@[i as int]->Some_0@.0 == key@,
                None => forall|j: int|
                    0 <= j < self.data@.len() && #[trigger] self.data@[j] is Some
                        ==> self.data@[j]->Some_0@.0 != key@,
            },
    {
        let mut i: usize = 0;
        while i < self.data.len()
            invariant
                i <= self.data@.len(),
                forall|j: int|
                    0 <= j < i && #[trigger] self.data@[j] is Some ==> self.data@[j]->Some_0@.0
                        != key@,
            decreases self.data@.len() - i,
        {
            match &self.data[i] {
                Some(e) => {
                    if e.key.item == key.item {
                        return Some(i);
                    }
                },
                None => {},
            }
            i += 1;
        }
        None
    }

    /// The first free slot, or the length of the list when every slot is taken.
    fn free_slot(&self) -> (r: usize)
        ensures
            r <= self.data@.len(),
            r < self.data@.len() ==> self.data@[r as int] is None,
            forall|j: int| 0 <= j < r ==> #[trigger] self.data@[j] is Some,
    {
        let mut i: usize = 0;
        while i < self.data.len()
            invariant
                i <= self.data@.len(),
                forall|j: int| 0 <= j < i ==> #[trigger] self.data@[j] is Some,
            decreases self.data@.len() - i,
        {
            if self.data[i].is_none() {
                return i;
            }
            i += 1;
        }
        i
    }
}

impl CacheStorageStructure for NaiveStorageStructure {
    closed spec fn entries(&self) -> Map<usize, EntryView> {
        Map::new(
            |i: usize| (i as int) < self.data@.len() && self.data@[i as int] is Some,
            |i: usize| self.data@[i as int]->Some_0@,
        )
    }

    closed spec fn total(&self) -> nat {
        slots_total(self.data@)
    }

    closed spec fn well_formed(&self) -> bool {
        &&& self.data@.len() <= usize::MAX
        &&& self.size == slots_total(self.data@)
        &&& forall|i: int, j: int|
            0 <= i < self.data@.len() && 0 <= j < self.data@.len() && #[trigger] self.data@[i] is Some
                && #[trigger] self.data@[j] is Some && self.data@[i]->Some_0@.0
                == self.data@[j]->Some_0@.0 ==> i == j
    }

    proof fn lemma_well_formed(&self) {
        let m = self.entries();
        let s = self.data@;
        assert forall|n: nat|
            n <= usize::MAX + 1 && (forall|i: usize| #[trigger]
                m.contains_key(i) ==> i < n) implies self.total() == #[trigger] entries_total(
            m,
            n,
        ) by {
            if n >= s.len() {
                lemma_entries_total_prefix(s, m, s.len());
                assert(s.subrange(0, s.len() as int) =~= s);
                lemma_entries_total_beyond(m, s.len(), n);
            } else {
                lemma_entries_total_prefix(s, m, n);
                assert forall|j: int| n <= j < s.len() implies s[j] is None by {
                    if s[j] is Some {
                        assert(m.contains_key(j as usize));
                    }
                }
                lemma_slots_total_free_tail(s, n as int);
            }
        }
        assert forall|i: usize| #[trigger] self.entries().contains_key(i) implies entry_len(
            self.entries()[i],
        ) <= self.total() by {
            lemma_slots_total_bounds(self.data@, i as int);
        }
        assert forall|i: usize, j: usize|
            #[trigger] self.entries().contains_key(i) && #[trigger] self.entries().contains_key(j)
                && self.entries()[i].0 == self.entries()[j].0 implies i == j by {
            assert(self.data@[i as int] is Some && self.data@[j as int] is Some);
        }
    }

    fn new() -> (r: Self) {
        let r = NaiveStorageStructure { data: Vec::new(), size: 0 };
        assert(r.entries() =~= Map::<usize, EntryView>::empty());
        r
    }

    fn size(&self) -> (r: usize) {
        self.size
    }

    fn get(&mut self, key: Key) -> (r: Option<(usize, DataEntry)>) {
        match self.find(&key) {
            Some(i) => self.get_index(i),
            None => {
                assert forall|i: usize| #[trigger] self.entries().contains_key(i) implies self.entries()[i].0 != key@ by {
                    assert(self.data@[i as int] is Some);
                }
                None
            },
        }
    }

    fn get_index(&mut self, index: usize) -> (r: Option<(usize, DataEntry)>) {
        if index < self.data.len() {
            match &self.data[index] {
                Some(e) => Some((index, e.duplicate())),
                None => None,
            }
        } else {
            None
        }
    }

    /// A new key takes the lowest free slot.
    fn set(&mut self, key: Key, value: Value) -> (r: (usize, Option<DataEntry>))
        ensures
            r.1 is None ==> forall|j: usize| j < r.0 ==> #[trigger] old(self).entries().contains_key(j),
    {
        let ghost old_data = self.data@;
        let ghost new_view = (key@, value@);
        proof {
            self.lemma_well_formed();
        }
        match self.find(&key) {
            Some(i) => {
                let ghost m = self.entries();
                assert(m.contains_key(i) && m[i].0 == key@);
                assert(has_key(m, key@));
                let ghost k = slot_of(m, key@);
                assert(m.contains_key(k) && m[k].0 == key@);
                assert(k == i);
                let mut slot = Some(DataEntry::new(key, value));
                self.data.set_and_swap(i, &mut slot);
                let old_entry = match slot {
                    Some(e) => e,
                    None => {
                        assert(false);
                        return (i, None);
                    },
                };
                let old_len = old_entry.len();
                proof {
                    lemma_slots_total_update(old_data, i as int, self.data@[i as int]);
                }
                let new_len = match &self.data[i] {
                    Some(e) => e.len(),
                    None => 0,
                };
                self.size = self.size - old_len + new_len;
                assert(self.entries() =~= old(self).entries().insert(i, new_view));
                assert forall|a: int, b: int|
                    0 <= a < self.data@.len() && 0 <= b < self.data@.len() && #[trigger] self.data@[a] is Some
                        && #[trigger] self.data@[b] is Some && self.data@[a]->Some_0@.0
                        == self.data@[b]->Some_0@.0 implies a == b by {
                    assert(old_data[a] is Some && old_data[b] is Some);
                }
                (i, Some(old_entry))
            },
            None => {
                assert forall|j: usize| #[trigger] old(self).entries().contains_key(j) implies old(self).entries()[j].0 != key@ by {
                    assert(old_data[j as int] is Some);
                }
                let new_entry = DataEntry::new(key, value);
                let new_len = new_entry.len();
                let f = self.free_slot();
                if f < self.data.len() {
                    self.data.set(f, Some(new_entry));
                    proof {
                        lemma_slots_total_update(old_data, f as int, self.data@[f as int]);
                    }
                } else {
                    self.data.push(Some(new_entry));
                    // A vector's length always fits in a usize.
                    let _slots = self.data.len();
                    proof {
                        lemma_slots_total_push(old_data, self.data@[f as int]);
                        assert(self.data@ =~= old_data.push(self.data@[f as int]));
                    }
                }
                self.size = self.size + new_len;
                assert(self.entries() =~= old(self).entries().insert(f, new_view));
                assert forall|a: int, b: int|
                    0 <= a < self.data@.len() && 0 <= b < self.data@.len() && #[trigger] self.data@[a] is Some
                        && #[trigger] self.data@[b] is Some && self.data@[a]->Some_0@.0
                        == self.data@[b]->Some_0@.0 implies a == b by {
                    if a != f && b != f {
                        assert(old_data[a] is Some && old_data[b] is Some);
                    } else if a != f {
                        assert(old_data[a] is Some);
                    } else if b != f {
                        assert(old_data[b] is Some);
                    }
                }
                (f, None)
            },
        }
    }

    fn remove(&mut self, key: Key) -> (r: Option<(usize, DataEntry)>) {
        match self.find(&key) {
            Some(i) => self.remove_index(i),
            None => {
                assert forall|j: usize| #[trigger] self.entries().contains_key(j) implies self.entries()[j].0 != key@ by {
                    assert(self.data@[j as int] is Some);
                }
                None
            },
        }
    }

    fn remove_index(&mut self, index: usize) -> (r: Option<(usize, DataEntry)>) {
        if index >= self.data.len() || self.data[index].is_none() {
            return None;
        }
        let ghost old_data = self.data@;
        let mut slot: Option<DataEntry> = None;
        self.data.set_and_swap(index, &mut slot);
        match slot {
            Some(e) => {
                proof {
                    lemma_slots_total_update(old_data, index as int, None);
                    lemma_slots_total_bounds(old_data, index as int);
                }
                let n = e.len();
                self.size = self.size - n;
                assert(self.entries() =~= old(self).entries().remove(index));
                assert forall|a: int, b: int|
                    0 <= a < self.data@.len() && 0 <= b < self.data@.len() && #[trigger] self.data@[a] is Some
                        && #[trigger] self.data@[b] is Some && self.data@[a]->Some_0@.0
                        == self.data@[b]->Some_0@.0 implies a == b by {
                    assert(old_data[a] is Some && old_data[b] is Some);
                }
                Some((index, e))
            },
            None => None,
        }
    }

    fn contains(&mut self, key: Key) -> (r: bool) {
        match self.find(&key) {
            Some(i) => {
                assert(self.entries().contains_key(i));
                true
            },
            None => {
                assert forall|j: usize| #[trigger] self.entries().contains_key(j) implies self.entries()[j].0 != key@ by {
                    assert(self.data@[j as int] is Some);
                }
                false
            },
        }
    }
}

/// Storing under a key that is already stored keeps its slot. `first` is a
/// store in which `set(k, v1)` has put its entry in slot `a`; a second
/// `set(k, v2)` on it answers with slot `b` and the entry it replaced, and
/// leaves `second`. Then `b` is `a`, and the replaced entry is the first one.
pub proof fn lemma_overwrite_keeps_slot<T: CacheStorageStructure>(
    first: &T,
    second: &T,
    k: Seq<char>,
    v1: (Seq<char>, u64),
    v2: (Seq<char>, u64),
    a: usize,
    b: usize,
    replaced: Option<EntryView>,
)
    requires
        first.well_formed(),
        first.entries().contains_key(a),
        first.entries()[a] == (k, v1),
        second.entries() == first.entries().insert(b, (k, v2)),
        match replaced {
            Some(e) => first.entries().contains_key(b) && first.entries()[b] == e && e.0 == k,
            None => !has_key(first.entries(), k) && !first.entries().contains_key(b),
        },
    ensures
        b == a,
        replaced == Some((k, v1)),
        second.entries() == first.entries().insert(a, (k, v2)),
{
    first.lemma_well_formed();
    assert(has_key(first.entries(), k));
}

} // verus!

use vstd::prelude::*;
use crate::cache::data_entry::{entry_len, DataEntry, EntryView};
use crate::cache::error::CacheError;
use crate::cache::key::Key;
use crate::cache::replacement_policy::{bumped, CacheReplacementPolicy};
use crate::cache::storage_structure::{
    entries_total, has_key, slot_of, stored_len, CacheStorageStructure,
};
use crate::cache::value::Value;

verus! {

/// `n` plus `k`, staying at the maximum once there.
pub open spec fn bumped_by(n: u64, k: nat) -> u64 {
    if n + k <= u64::MAX {
        (n + k) as u64
    } else {
        u64::MAX
    }
}

/// An entry of `n` bytes under `k` fits beside the entries of `m`, which
/// hold `total` bytes, within `cap` bytes.
pub open spec fn room_in(m: Map<usize, EntryView>, total: int, k: Seq<char>, n: nat, cap: nat) -> bool {
    total - stored_len(m, k) + n <= cap
}

/// The eviction that makes room for an entry of `n` bytes under `k`: while
/// it does not fit, the policy in state `p` chooses its victim, whose entry
/// leaves the store. `m` and `total` are the store's entries and bytes, and
/// `fuel` bounds the number of evictions (the number of entries will do).
/// Gives the entries, bytes and policy state after it, and the number of
/// entries evicted.
pub open spec fn evict_for<R: CacheReplacementPolicy>(
    m: Map<usize, EntryView>,
    total: int,
    p: <R as View>::V,
    k: Seq<char>,
    n: nat,
    cap: nat,
    fuel: nat,
) -> (Map<usize, EntryView>, int, <R as View>::V, nat)
    decreases fuel,
{
    if fuel == 0 || room_in(m, total, k, n, cap) {
        (m, total, p, 0)
    } else {
        let v = R::victim(p);
        let rest = evict_for::<R>(
            m.remove(v),
            total - entry_len(m[v]),
            R::evicted(p),
            k,
            n,
            cap,
            (fuel - 1) as nat,
        );
        (rest.0, rest.1, rest.2, rest.3 + 1)
    }
}

/// The entry stored under `k` in `m`, if any.
pub open spec fn lookup(m: Map<usize, EntryView>, k: Seq<char>) -> Option<EntryView> {
    if has_key(m, k) {
        Some(m[slot_of(m, k)])
    } else {
        None
    }
}

/// `after` holds `v` under `k`, and every entry of `after` under another
/// key was in `before`, in the same slot. This alone does not say which
/// entries of `before` are left.
pub open spec fn installs(
    before: Map<usize, EntryView>,
    after: Map<usize, EntryView>,
    k: Seq<char>,
    v: (Seq<char>, u64),
) -> bool {
    &&& lookup(after, k) == Some((k, v))
    &&& forall|i: usize|
        #[trigger] after.contains_key(i) && after[i].0 != k ==> before.contains_key(i)
            && after[i] == before[i]
}

/// Counters of what the cache has done.
pub struct CacheMetrics {
    pub evictions: u64,
    pub hit_count_get: u64,
    pub hit_count_set: u64,
    pub hit_count_delete: u64,
    pub miss_count_get: u64,
    pub miss_count_set: u64,
    pub miss_count_delete: u64,
}

impl CacheMetrics {
    /// Every counter is at zero.
    pub open spec fn is_zero(&self) -> bool {
        &&& self.evictions == 0
        &&& self.hit_count_get == 0
        &&& self.hit_count_set == 0
        &&& self.hit_count_delete == 0
        &&& self.miss_count_get == 0
        &&& self.miss_count_set == 0
        &&& self.miss_count_delete == 0
    }

    /// All counters at zero.
    pub fn new() -> (r: CacheMetrics)
        ensures
            r.is_zero(),
    {
        CacheMetrics {
            evictions: 0,
            hit_count_get: 0,
            hit_count_set: 0,
            hit_count_delete: 0,
            miss_count_get: 0,
            miss_count_set: 0,
            miss_count_delete: 0,
        }
    }
}

/// A bounded cache: a storage structure, a replacement policy that follows
/// exactly the slots in use, and a capacity in bytes that the stored entries
/// never exceed.
pub struct Cache<T, R> {
    pub capacity: usize,
    pub item_lifetime: u64,
    pub max_key_len: usize,
    pub max_val_len: usize,
    pub storage_structure: T,
    pub replacement_policy: R,
    pub metrics: CacheMetrics,
}

impl<T: CacheStorageStructure, R: CacheReplacementPolicy> Cache<T, R> {
    /// The live entries, by slot index.
    pub open spec fn entries(&self) -> Map<usize, EntryView> {
        self.storage_structure.entries()
    }

    /// Both parts are well formed, the policy follows exactly the slots in
    /// use, and the stored bytes are within the capacity.
    pub open spec fn well_formed(&self) -> bool {
        &&& self.storage_structure.well_formed()
        &&& self.replacement_policy.well_formed()
        &&& self.replacement_policy.indices() == self.storage_structure.entries().dom()
        &&& self.storage_structure.total() <= self.capacity
    }

    /// Whether an entry of `n` bytes under `k` fits in beside the others.
    pub open spec fn has_room(&self, k: Seq<char>, n: nat) -> bool {
        self.storage_structure.total() - stored_len(self.entries(), k) + n <= self.capacity
    }

    /// A cache of `capacity` bytes over the given parts, with the default
    /// limits and all counters at zero. The policy must follow exactly the
    /// slots of the store, and the store must fit in the capacity.
    pub fn new(capacity: usize, storage_structure: T, replacement_policy: R) -> (r: Cache<T, R>)
        requires
            storage_structure.well_formed(),
            replacement_policy.well_formed(),
            replacement_policy.indices() == storage_structure.entries().dom(),
            storage_structure.total() <= capacity,
        ensures
            r.well_formed(),
            r.capacity == capacity,
            r.item_lifetime == 60000,
            r.max_key_len == 256,
            r.max_val_len == 512,
            r.storage_structure == storage_structure,
            r.replacement_policy == replacement_policy,
            r.metrics.is_zero(),
    {
        Cache {
            capacity,
            item_lifetime: 60 * 1000,
            max_key_len: 256,
            max_val_len: 512,
            storage_structure,
            replacement_policy,
            metrics: CacheMetrics::new(),
        }
    }

    /// Looks `key` up. A hit counts as a touch of its slot for the policy.
    pub fn get(&mut self, key: Key) -> (r: Option<DataEntry>)
        requires
            old(self).well_formed(),
        ensures
            final(self).well_formed(),
            final(self).storage_structure == old(self).storage_structure,
            final(self).capacity == old(self).capacity,
            match r {
                Some(e) => lookup(old(self).entries(), key@) == Some(e@),
                None => lookup(old(self).entries(), key@) is None,
            },
            r is Some ==> final(self).replacement_policy@ == R::touched(
                old(self).replacement_policy@,
                slot_of(old(self).entries(), key@),
            ),
            r is None ==> final(self).replacement_policy == old(self).replacement_policy,
            final(self).metrics.hit_count_get == if r is Some {
                bumped(old(self).metrics.hit_count_get)
            } else {
                old(self).metrics.hit_count_get
            },
            final(self).metrics.miss_count_get == if r is Some {
                old(self).metrics.miss_count_get
            } else {
                bumped(old(self).metrics.miss_count_get)
            },
            final(self).metrics.evictions == old(self).metrics.evictions,
            final(self).metrics.hit_count_set == old(self).metrics.hit_count_set,
            final(self).metrics.miss_count_set == old(self).metrics.miss_count_set,
            final(self).metrics.hit_count_delete == old(self).metrics.hit_count_delete,
            final(self).metrics.miss_count_delete == old(self).metrics.miss_count_delete,
    {
        let ghost m = self.entries();
        proof {
            self.storage_structure.lemma_well_formed();
        }
        match self.storage_structure.get(key) {
            Some((index, entry)) => {
                assert(slot_of(m, entry@.0) == index);
                self.replacement_policy.update(index);
                assert(self.replacement_policy.indices() =~= m.dom());
                self.metrics.hit_count_get = self.metrics.hit_count_get.saturating_add(1);
                Some(entry)
            },
            None => {
                self.metrics.miss_count_get = self.metrics.miss_count_get.saturating_add(1);
                None
            },
        }
    }

    /// Whether the bytes of an entry of `n` bytes under `key` fit in beside
    /// the other entries.
    fn room_for(&mut self, key: &Key, n: usize) -> (r: bool)
        requires
            old(self).well_formed(),
        ensures
            *final(self) == *old(self),
            r == old(self).has_room(key@, n as nat),
    {
        proof {
            self.storage_structure.lemma_well_formed();
        }
        let ghost m = self.entries();
        let current = match self.storage_structure.get(key.duplicate()) {
            Some((index, entry)) => {
                assert(slot_of(m, entry@.0) == index);
                entry.len()
            },
            None => 0,
        };
        let size = self.storage_structure.size();
        n <= self.capacity && size - current <= self.capacity - n
    }

    /// Stores `value` under `key`, evicting the entries that the policy
    /// chooses until the new entry fits. Fails with `EvictionFailure`, and
    /// changes nothing but the counters, when the entry alone is longer than
    /// the capacity. The stored entry counts as a touch of its slot.
    pub fn set(&mut self, key: Key, value: Value) -> (r: Result<(), CacheError>)
        requires
            old(self).well_formed(),
        ensures
            final(self).well_formed(),
            final(self).capacity == old(self).capacity,
            r is Ok <==> entry_len((key@, value@)) <= old(self).capacity,
            r is Err ==> r == Err::<(), CacheError>(CacheError::EvictionFailure)
                && final(self).storage_structure == old(self).storage_structure
                && final(self).replacement_policy == old(self).replacement_policy,
            r is Ok ==> installs(old(self).entries(), final(self).entries(), key@, value@),
            r is Ok ==> ({
                let (m1, _, p1, count) = evict_for::<R>(
                    old(self).entries(),
                    old(self).storage_structure.total() as int,
                    old(self).replacement_policy@,
                    key@,
                    entry_len((key@, value@)),
                    old(self).capacity as nat,
                    old(self).entries().dom().len(),
                );
                let s = slot_of(final(self).entries(), key@);
                &&& final(self).entries() == m1.insert(s, (key@, value@))
                &&& has_key(m1, key@) ==> s == slot_of(m1, key@)
                &&& !has_key(m1, key@) ==> !m1.contains_key(s)
                &&& final(self).replacement_policy@ == R::touched(p1, s)
                &&& final(self).metrics.evictions == bumped_by(old(self).metrics.evictions, count)
            }),
            r is Ok && old(self).has_room(key@, entry_len((key@, value@))) ==> ({
                let s = slot_of(final(self).entries(), key@);
                &&& final(self).entries() == old(self).entries().insert(s, (key@, value@))
                &&& has_key(old(self).entries(), key@) ==> s == slot_of(old(self).entries(), key@)
                &&& final(self).metrics.evictions == old(self).metrics.evictions
            }),
            r is Err ==> final(self).metrics.evictions == old(self).metrics.evictions,
            final(self).metrics.hit_count_set == if has_key(old(self).entries(), key@) {
                bumped(old(self).metrics.hit_count_set)
            } else {
                old(self).metrics.hit_count_set
            },
            final(self).metrics.miss_count_set == if has_key(old(self).entries(), key@) {
                old(self).metrics.miss_count_set
            } else {
                bumped(old(self).metrics.miss_count_set)
            },
            final(self).metrics.hit_count_get == old(self).metrics.hit_count_get,
            final(self).metrics.miss_count_get == old(self).metrics.miss_count_get,
            final(self).metrics.hit_count_delete == old(self).metrics.hit_count_delete,
            final(self).metrics.miss_count_delete == old(self).metrics.miss_count_delete,
    {
        let ghost new_view = (key@, value@);
        let ghost m0 = self.entries();
        proof {
            self.storage_structure.lemma_well_formed();
        }
        let present = self.storage_structure.contains(key.duplicate());
        if present {
            self.metrics.hit_count_set = self.metrics.hit_count_set.saturating_add(1);
        } else {
            self.metrics.miss_count_set = self.metrics.miss_count_set.saturating_add(1);
        }
        let key_len = key.len();
        let value_len = value.len();
        if key_len > self.capacity || value_len > self.capacity - key_len {
            return Err(CacheError::EvictionFailure);
        }
        let n = key_len + value_len;
        let ghost cap = self.capacity as nat;
        let ghost goal = evict_for::<R>(
            m0,
            self.storage_structure.total() as int,
            self.replacement_policy@,
            key@,
            n as nat,
            cap,
            m0.dom().len(),
        );
        let ghost mut done: nat = 0;
        let mut fits = self.room_for(&key, n);
        while !fits
            invariant
                self.well_formed(),
                self.capacity == old(self).capacity,
                cap == self.capacity,
                n == entry_len(new_view),
                n <= self.capacity,
                fits == self.has_room(key@, n as nat),
                forall|i: usize| #[trigger]
                    self.entries().contains_key(i) ==> m0.contains_key(i) && self.entries()[i]
                        == m0[i],
                ({
                    let now = evict_for::<R>(
                        self.entries(),
                        self.storage_structure.total() as int,
                        self.replacement_policy@,
                        key@,
                        n as nat,
                        cap,
                        self.entries().dom().len(),
                    );
                    &&& goal.0 == now.0
                    &&& goal.2 == now.2
                    &&& goal.3 == now.3 + done
                }),
                self.metrics.evictions == bumped_by(old(self).metrics.evictions, done),
                self.metrics.hit_count_get == old(self).metrics.hit_count_get,
                self.metrics.miss_count_get == old(self).metrics.miss_count_get,
                self.metrics.hit_count_delete == old(self).metrics.hit_count_delete,
                self.metrics.miss_count_delete == old(self).metrics.miss_count_delete,
                self.metrics.hit_count_set == (if has_key(m0, key@) {
                    bumped(old(self).metrics.hit_count_set)
                } else {
                    old(self).metrics.hit_count_set
                }),
                self.metrics.miss_count_set == (if has_key(m0, key@) {
                    old(self).metrics.miss_count_set
                } else {
                    bumped(old(self).metrics.miss_count_set)
                }),
            decreases self.entries().dom().len(),
        {
            proof {
                self.replacement_policy.lemma_well_formed();
            }
            let ghost before = self.entries();
            let ghost before_total = self.storage_structure.total() as int;
            let ghost before_policy = self.replacement_policy@;
            match self.evict_next() {
                Ok(()) => {},
                Err(e) => {
                    // The policy follows every slot in use, so it runs dry only
                    // when the store is empty, and then the entry fits.
                    proof {
                        assert(before.dom() =~= Set::<usize>::empty());
                        assert(!has_key(before, key@));
                        self.storage_structure.lemma_well_formed();
                        assert(entries_total(before, 0) == 0);
                    }
                    return Err(e);
                },
            }
            proof {
                let v = R::victim(before_policy);
                assert(before.dom().contains(v));
                assert(self.entries().dom() == before.dom().remove(v));
                assert(self.entries().dom().len() == before.dom().len() - 1);
                assert(!room_in(before, before_total, key@, n as nat, cap));
            }
            self.metrics.evictions = self.metrics.evictions.saturating_add(1);
            proof {
                done = done + 1;
            }
            fits = self.room_for(&key, n);
        }
        proof {
            self.storage_structure.lemma_well_formed();
            assert(room_in(
                self.entries(),
                self.storage_structure.total() as int,
                key@,
                n as nat,
                cap,
            ));
        }
        let ghost m1 = self.entries();
        let ghost p1 = self.replacement_policy@;
        let (index, _) = self.storage_structure.set(key, value);
        self.replacement_policy.update(index);
        proof {
            self.storage_structure.lemma_well_formed();
            let m2 = self.entries();
            assert(m2 == m1.insert(index, new_view));
            assert(m2.contains_key(index) && m2[index].0 == key@);
            assert(has_key(m2, key@));
            assert(slot_of(m2, key@) == index);
            if has_key(m1, key@) {
                let k1 = slot_of(m1, key@);
                assert(m1.contains_key(k1) && m1[k1].0 == key@);
            }
        }
        Ok(())
    }

    /// Removes the entry under `key`, if there is one, from the store and
    /// from the policy.
    pub fn remove(&mut self, key: Key)
        requires
            old(self).well_formed(),
        ensures
            final(self).well_formed(),
            final(self).capacity == old(self).capacity,
            lookup(final(self).entries(), key@) is None,
            has_key(old(self).entries(), key@) ==> final(self).entries() == old(
                self,
            ).entries().remove(slot_of(old(self).entries(), key@)),
            has_key(old(self).entries(), key@) ==> final(self).replacement_policy@ == R::without(
                old(self).replacement_policy@,
                slot_of(old(self).entries(), key@),
            ),
            !has_key(old(self).entries(), key@) ==> final(self).storage_structure == old(
                self,
            ).storage_structure && final(self).replacement_policy == old(
                self,
            ).replacement_policy,
            final(self).metrics.hit_count_delete == if has_key(old(self).entries(), key@) {
                bumped(old(self).metrics.hit_count_delete)
            } else {
                old(self).metrics.hit_count_delete
            },
            final(self).metrics.miss_count_delete == if has_key(old(self).entries(), key@) {
                old(self).metrics.miss_count_delete
            } else {
                bumped(old(self).metrics.miss_count_delete)
            },
            final(self).metrics.evictions == old(self).metrics.evictions,
            final(self).metrics.hit_count_get == old(self).metrics.hit_count_get,
            final(self).metrics.miss_count_get == old(self).metrics.miss_count_get,
            final(self).metrics.hit_count_set == old(self).metrics.hit_count_set,
            final(self).metrics.miss_count_set == old(self).metrics.miss_count_set,
    {
        let ghost m0 = self.entries();
        proof {
            self.storage_structure.lemma_well_formed();
        }
        let ghost k = key@;
        match self.storage_structure.remove(key) {
            Some((index, _)) => {
                self.replacement_policy.remove(index);
                self.metrics.hit_count_delete = self.metrics.hit_count_delete.saturating_add(1);
                proof {
                    assert(has_key(m0, k));
                    assert(slot_of(m0, k) == index);
                    assert forall|i: usize| #[trigger]
                        self.entries().contains_key(i) implies self.entries()[i].0 != k by {}
                }
            },
            None => {
                self.metrics.miss_count_delete = self.metrics.miss_count_delete.saturating_add(1);
            },
        }
    }

    /// Whether an entry is stored under `key`.
    pub fn contains(&mut self, key: Key) -> (r: bool)
        requires
            old(self).well_formed(),
        ensures
            *final(self) == *old(self),
            r == has_key(old(self).entries(), key@),
    {
        self.storage_structure.contains(key)
    }

    /// Evicts the entry in the slot that the policy chooses. Fails with
    /// `EvictionFailure`, changing nothing, exactly when the cache is empty.
    fn evict_next(&mut self) -> (r: Result<(), CacheError>)
        requires
            old(self).well_formed(),
        ensures
            final(self).well_formed(),
            final(self).capacity == old(self).capacity,
            final(self).metrics == old(self).metrics,
            r is Ok <==> old(self).entries().dom() != Set::<usize>::empty(),
            r is Ok ==> ({
                let v = R::victim(old(self).replacement_policy@);
                &&& old(self).entries().contains_key(v)
                &&& final(self).entries() == old(self).entries().remove(v)
                &&& final(self).storage_structure.total() + entry_len(old(self).entries()[v])
                    == old(self).storage_structure.total()
                &&& final(self).replacement_policy@ == R::evicted(old(self).replacement_policy@)
            }),
            r is Err ==> r == Err::<(), CacheError>(CacheError::EvictionFailure) && *final(self)
                == *old(self),
    {
        match self.replacement_policy.evict_next() {
            Ok(evict_index) => {
                match self.storage_structure.remove_index(evict_index) {
                    Some((_, _)) => Ok(()),
                    None => {
                        assert(false);
                        Err(CacheError::EvictionFailure)
                    },
                }
            },
            Err(_) => Err(CacheError::EvictionFailure),
        }
    }
}

/// The stored bytes never exceed the capacity. Every operation of the cache
/// keeps it well formed, and a well-formed cache holds at most `capacity`
/// bytes.
pub proof fn lemma_capacity_bound<T: CacheStorageStructure, R: CacheReplacementPolicy>(
    c: &Cache<T, R>,
)
    requires
        c.well_formed(),
    ensures
        c.storage_structure.total() <= c.capacity,
{
}

/// The size that the store reports is the sum of the lengths of its entries,
/// summed over the slots below any bound above every slot in use.
pub proof fn lemma_size_accounting<T: CacheStorageStructure, R: CacheReplacementPolicy>(
    c: &Cache<T, R>,
    n: nat,
)
    requires
        c.well_formed(),
        n <= usize::MAX + 1,
        forall|i: usize| #[trigger] c.entries().contains_key(i) ==> i < n,
    ensures
        c.storage_structure.total() == entries_total(c.entries(), n),
{
    c.storage_structure.lemma_well_formed();
}

/// The policy follows exactly the slots that the store has in use, in every
/// well-formed cache, and so after every operation.
pub proof fn lemma_policy_matches_storage<T: CacheStorageStructure, R: CacheReplacementPolicy>(
    c: &Cache<T, R>,
)
    requires
        c.well_formed(),
    ensures
        forall|i: usize|
            #[trigger] c.replacement_policy.indices().contains(i) <==> c.entries().contains_key(
                i,
            ),
{
}

/// A get after a successful set of `k` to `v` finds `v`: `after` is the cache
/// as `set` leaves it, and `get` hands back what `lookup` finds there.
pub proof fn lemma_get_after_set<T: CacheStorageStructure, R: CacheReplacementPolicy>(
    before: &Cache<T, R>,
    after: &Cache<T, R>,
    k: Seq<char>,
    v: (Seq<char>, u64),
    r: Result<(), CacheError>,
)
    requires
        before.well_formed(),
        entry_len((k, v)) <= before.capacity,
        r is Ok <==> entry_len((k, v)) <= before.capacity,
        r is Ok ==> installs(before.entries(), after.entries(), k, v),
    ensures
        r is Ok,
        lookup(after.entries(), k) == Some((k, v)),
{
}

/// Removing a key a second time changes neither the store nor the policy:
/// `once` is the cache after the first removal, `twice` after the second.
/// Only the miss counter of removals moves.
pub proof fn lemma_remove_idempotent<T: CacheStorageStructure, R: CacheReplacementPolicy>(
    once: &Cache<T, R>,
    twice: &Cache<T, R>,
    k: Seq<char>,
)
    requires
        once.well_formed(),
        lookup(once.entries(), k) is None,
        !has_key(once.entries(), k) ==> twice.storage_structure == once.storage_structure
            && twice.replacement_policy == once.replacement_policy,
    ensures
        twice.storage_structure == once.storage_structure,
        twice.replacement_policy == once.replacement_policy,
        twice.entries() == once.entries(),
{
}

} // verus!

use vstd::prelude::*;
use std::collections::VecDeque;
use crate::cache::error::CacheError;

verus! {

/// Decides which slot index to evict next, from the touches and removals it
/// has been told of. It works on the stable slot indices that the storage
/// structure hands out, and assumes nothing of how dense they are.
pub trait CacheReplacementPolicy: Sized + View {
    /// The slot indices the policy currently follows.
    spec fn indices(&self) -> Set<usize>;

    /// The state after a touch of `i` in state `m`.
    spec fn touched(m: Self::V, i: usize) -> Self::V;

    /// The state after `i` stops being followed in state `m`.
    spec fn without(m: Self::V, i: usize) -> Self::V;

    /// The index that state `m` chooses as the next victim.
    spec fn victim(m: Self::V) -> usize;

    /// The state after the victim of `m` is chosen and dropped.
    spec fn evicted(m: Self::V) -> Self::V;

    spec fn well_formed(&self) -> bool;

    /// A well-formed policy follows finitely many indices.
    proof fn lemma_well_formed(&self)
        requires
            self.well_formed(),
        ensures
            self.indices().finite(),
    ;

    fn new() -> (r: Self)
        ensures
            r.well_formed(),
            r.indices() == Set::<usize>::empty(),
    ;

    /// Records a touch of `index`, which is followed from then on.
    fn update(&mut self, index: usize)
        requires
            old(self).well_formed(),
        ensures
            final(self).well_formed(),
            final(self).indices() == old(self).indices().insert(index),
            final(self)@ == Self::touched(old(self)@, index),
    ;

    /// Stops following `index`.
    fn remove(&mut self, index: usize)
        requires
            old(self).well_formed(),
        ensures
            final(self).well_formed(),
            final(self).indices() == old(self).indices().remove(index),
            final(self)@ == Self::without(old(self)@, index),
    ;

    /// Chooses a followed index as the victim and stops following it; fails
    /// with `NothingToEvict` exactly when nothing is followed.
    fn evict_next(&mut self) -> (r: Result<usize, CacheError>)
        requires
            old(self).well_formed(),
        ensures
            final(self).well_formed(),
            r is Ok <==> old(self).indices() != Set::<usize>::empty(),
            match r {
                Ok(i) => i == Self::victim(old(self)@) && old(self).indices().contains(i)
                    && final(self).indices() == old(self).indices().remove(i) && final(self)@
                    == Self::evicted(old(self)@),
                Err(e) => e == CacheError::NothingToEvict && *final(self) == *old(self),
            },
    ;
}

/// `n` plus one, staying at the maximum once there.
pub open spec fn bumped(n: u64) -> u64 {
    if n < u64::MAX {
        (n + 1) as u64
    } else {
        u64::MAX
    }
}

/// The position of `i` in `s` (meaningful when `s` contains `i`).
pub open spec fn position_in(s: Seq<usize>, i: usize) -> int {
    choose|p: int| 0 <= p < s.len() && s[p] == i
}

/// The position of the pair of `s` whose slot index is `i` (meaningful when
/// there is one).
pub open spec fn pair_position<T>(s: Seq<(usize, T)>, i: usize) -> int {
    choose|p: int| 0 <= p < s.len() && #[trigger] s[p].0 == i
}

/// The slot indices named in the first components of `s`.
pub open spec fn pair_slots<T>(s: Seq<(usize, T)>) -> Set<usize> {
    Set::new(|i: usize| exists|p: int| 0 <= p < s.len() && #[trigger] s[p].0 == i)
}

/// No slot index is named twice in the first components of `s`.
pub open spec fn distinct_slots<T>(s: Seq<(usize, T)>) -> bool {
    forall|p: int, q: int|
        0 <= p < s.len() && 0 <= q < s.len() && #[trigger] s[p].0 == #[trigger] s[q].0 ==> p == q
}

proof fn lemma_pair_slots_finite<T>(s: Seq<(usize, T)>)
    ensures
        pair_slots(s).finite(),
{
    let firsts = s.map_values(|e: (usize, T)| e.0);
    assert(pair_slots(s) =~= firsts.to_set()) by {
        assert forall|i: usize| pair_slots(s).contains(i) implies firsts.to_set().contains(i) by {
            let p = choose|p: int| 0 <= p < s.len() && #[trigger] s[p].0 == i;
            assert(firsts[p] == i);
        }
        assert forall|i: usize| firsts.to_set().contains(i) implies pair_slots(s).contains(i) by {
            let p = choose|p: int| 0 <= p < firsts.len() && firsts[p] == i;
            assert(s[p].0 == i);
        }
    }
    vstd::seq_lib::seq_to_set_is_finite(firsts);
}

proof fn lemma_pair_slots_update<T>(s: Seq<(usize, T)>, p: int, v: (usize, T))
    requires
        0 <= p < s.len(),
        v.0 == s[p].0,
        distinct_slots(s),
    ensures
        pair_slots(s.update(p, v)) == pair_slots(s),
        distinct_slots(s.update(p, v)),
{
    let t = s.update(p, v);
    assert(pair_slots(t) =~= pair_slots(s)) by {
        assert forall|i: usize| pair_slots(s).contains(i) implies pair_slots(t).contains(i) by {
            let q = choose|q: int| 0 <= q < s.len() && #[trigger] s[q].0 == i;
            assert(t[q].0 == i);
        }
        assert forall|i: usize| pair_slots(t).contains(i) implies pair_slots(s).contains(i) by {
            let q = choose|q: int| 0 <= q < t.len() && #[trigger] t[q].0 == i;
            assert(s[q].0 == i);
        }
    }
    assert forall|a: int, b: int|
        0 <= a < t.len() && 0 <= b < t.len() && #[trigger] t[a].0 == #[trigger] t[b].0 implies a
        == b by {
        assert(s[a].0 == t[a].0 && s[b].0 == t[b].0);
    }
}

proof fn lemma_pair_slots_push<T>(s: Seq<(usize, T)>, v: (usize, T))
    requires
        !pair_slots(s).contains(v.0),
        distinct_slots(s),
    ensures
        pair_slots(s.push(v)) == pair_slots(s).insert(v.0),
        distinct_slots(s.push(v)),
{
    let t = s.push(v);
    assert(pair_slots(t) =~= pair_slots(s).insert(v.0)) by {
        assert forall|i: usize| pair_slots(s).insert(v.0).contains(i) implies pair_slots(
            t,
        ).contains(i) by {
            if i == v.0 {
                assert(t[s.len() as int].0 == i);
            } else {
                let q = choose|q: int| 0 <= q < s.len() && #[trigger] s[q].0 == i;
                assert(t[q].0 == i);
            }
        }
        assert forall|i: usize| pair_slots(t).contains(i) implies pair_slots(s).insert(
            v.0,
        ).contains(i) by {
            let q = choose|q: int| 0 <= q < t.len() && #[trigger] t[q].0 == i;
            if q < s.len() {
                assert(s[q].0 == i);
            }
        }
    }
    assert forall|a: int, b: int|
        0 <= a < t.len() && 0 <= b < t.len() && #[trigger] t[a].0 == #[trigger] t[b].0 implies a
        == b by {
        if a < s.len() && b < s.len() {
            assert(s[a].0 == s[b].0);
        } else if a < s.len() {
            assert(s[a].0 == v.0);
        } else if b < s.len() {
            assert(s[b].0 == v.0);
        }
    }
}

proof fn lemma_pair_slots_remove<T>(s: Seq<(usize, T)>, p: int)
    requires
        0 <= p < s.len(),
        distinct_slots(s),
    ensures
        pair_slots(s.remove(p)) == pair_slots(s).remove(s[p].0),
        distinct_slots(s.remove(p)),
{
    let t = s.remove(p);
    assert(pair_slots(t) =~= pair_slots(s).remove(s[p].0)) by {
        assert forall|i: usize| pair_slots(s).remove(s[p].0).contains(i) implies pair_slots(
            t,
        ).contains(i) by {
            let q = choose|q: int| 0 <= q < s.len() && #[trigger] s[q].0 == i;
            if q < p {
                assert(t[q].0 == i);
            } else {
                assert(q != p);
                assert(t[q - 1].0 == i);
            }
        }
        assert forall|i: usize| pair_slots(t).contains(i) implies pair_slots(s).remove(
            s[p].0,
        ).contains(i) by {
            let q = choose|q: int| 0 <= q < t.len() && #[trigger] t[q].0 == i;
            if q < p {
                assert(s[q].0 == i);
            } else {
                assert(s[q + 1].0 == i);
            }
        }
    }
    assert forall|a: int, b: int|
        0 <= a < t.len() && 0 <= b < t.len() && #[trigger] t[a].0 == #[trigger] t[b].0 implies a
        == b by {
        let a1 = if a < p { a } else { a + 1 };
        let b1 = if b < p { b } else { b + 1 };
        assert(s[a1].0 == t[a].0 && s[b1].0 == t[b].0);
    }
}

/// Position in `v` of the pair whose slot index is `index`, if any.
fn find_pair<T>(v: &Vec<(usize, T)>, index: usize) -> (r: Option<usize>)
    ensures
        match r {
            Some(p) => p < v@.len() && v@[p as int].0 == index,
            None => !pair_slots(v@).contains(index),
        },
{
    let mut p: usize = 0;
    while p < v.len()
        invariant
            p <= v@.len(),
            forall|q: int| 0 <= q < p ==> #[trigger] v@[q].0 != index,
        decreases v@.len() - p,
    {
        if v[p].0 == index {
            return Some(p);
        }
        p += 1;
    }
    None
}

proof fn lemma_seq_remove(s: Seq<usize>, p: int)
    requires
        0 <= p < s.len(),
        s.no_duplicates(),
    ensures
        s.remove(p).to_set() == s.to_set().remove(s[p]),
        s.remove(p).no_duplicates(),
{
    let t = s.remove(p);
    assert(t.to_set() =~= s.to_set().remove(s[p])) by {
        assert forall|i: usize| s.to_set().remove(s[p]).contains(i) implies t.to_set().contains(
            i,
        ) by {
            let q = choose|q: int| 0 <= q < s.len() && s[q] == i;
            if q < p {
                assert(t[q] == i);
            } else {
                assert(t[q - 1] == i);
            }
        }
        assert forall|i: usize| t.to_set().contains(i) implies s.to_set().remove(s[p]).contains(
            i,
        ) by {
            let q = choose|q: int| 0 <= q < t.len() && t[q] == i;
            if q < p {
                assert(s[q] == i);
            } else {
                assert(s[q + 1] == i);
            }
        }
    }
    assert forall|a: int, b: int| 0 <= a < t.len() && 0 <= b < t.len() && a != b implies t[a]
        != t[b] by {
        let a1 = if a < p { a } else { a + 1 };
        let b1 = if b < p { b } else { b + 1 };
        assert(s[a1] == t[a] && s[b1] == t[b]);
    }
}

proof fn lemma_seq_push(s: Seq<usize>, x: usize)
    requires
        !s.contains(x),
        s.no_duplicates(),
    ensures
        s.push(x).to_set() == s.to_set().insert(x),
        s.push(x).no_duplicates(),
{
    let t = s.push(x);
    assert(t.to_set() =~= s.to_set().insert(x)) by {
        assert forall|i: usize| s.to_set().insert(x).contains(i) implies t.to_set().contains(
            i,
        ) by {
            if i == x {
                assert(t[s.len() as int] == i);
            } else {
                let q = choose|q: int| 0 <= q < s.len() && s[q] == i;
                assert(t[q] == i);
            }
        }
        assert forall|i: usize| t.to_set().contains(i) implies s.to_set().insert(x).contains(
            i,
        ) by {
            let q = choose|q: int| 0 <= q < t.len() && t[q] == i;
            if q < s.len() {
                assert(s[q] == i);
            }
        }
    }
    assert forall|a: int, b: int| 0 <= a < t.len() && 0 <= b < t.len() && a != b implies t[a]
        != t[b] by {
        if a < s.len() && b < s.len() {
        } else if a < s.len() {
            assert(s[a] == t[a]);
        } else if b < s.len() {
            assert(s[b] == t[b]);
        }
    }
}

/// Position of `index` in `v`, if it is there.
fn position_of(v: &VecDeque<usize>, index: usize) -> (r: Option<usize>)
    ensures
        match r {
            Some(p) => p < v@.len() && v@[p as int] == index,
            None => !v@.contains(index),
        },
{
    let mut p: usize = 0;
    while p < v.len()
        invariant
            p <= v@.len(),
            forall|q: int| 0 <= q < p ==> v@[q] != index,
        decreases v@.len() - p,
    {
        if v[p] == index {
            return Some(p);
        }
        p += 1;
    }
    None
}

/// Least recently used: indices in order of their last touch, the least
/// recent first. A touch moves an index to the back, and the victim is the
/// index at the front.
pub struct LRU {
    recently_used: VecDeque<usize>,
}

impl View for LRU {
    type V = Seq<usize>;

    closed spec fn view(&self) -> Seq<usize> {
        self.recently_used@
    }
}

impl CacheReplacementPolicy for LRU {
    open spec fn indices(&self) -> Set<usize> {
        self@.to_set()
    }

    /// A touched index moves to the back, joining there when it is new.
    open spec fn touched(m: Seq<usize>, i: usize) -> Seq<usize> {
        if m.contains(i) {
            m.remove(position_in(m, i)).push(i)
        } else {
            m.push(i)
        }
    }

    open spec fn without(m: Seq<usize>, i: usize) -> Seq<usize> {
        if m.contains(i) {
            m.remove(position_in(m, i))
        } else {
            m
        }
    }

    /// The least recently touched index, at the front.
    open spec fn victim(m: Seq<usize>) -> usize {
        m[0]
    }

    open spec fn evicted(m: Seq<usize>) -> Seq<usize> {
        m.drop_first()
    }

    open spec fn well_formed(&self) -> bool {
        self@.no_duplicates()
    }

    proof fn lemma_well_formed(&self) {
        vstd::seq_lib::seq_to_set_is_finite(self@);
    }

    fn new() -> (r: Self)
        ensures
            r@ == Seq::<usize>::empty(),
    {
        let r = LRU { recently_used: VecDeque::new() };
        assert(r@.to_set() =~= Set::<usize>::empty());
        r
    }

    fn update(&mut self, index: usize)
        ensures
            !old(self)@.contains(index) ==> final(self)@ == old(self)@.push(index),
            forall|p: int|
                0 <= p < old(self)@.len() && old(self)@[p] == index ==> final(self)@ == old(
                    self,
                )@.remove(p).push(index),
    {
        let ghost s0 = self@;
        match position_of(&self.recently_used, index) {
            Some(p) => {
                self.recently_used.remove(p);
                proof {
                    lemma_seq_remove(s0, p as int);
                    assert forall|q: int| 0 <= q < s0.len() && s0[q] == index implies q == p by {}
                    assert(!s0.remove(p as int).contains(index)) by {
                        if s0.remove(p as int).contains(index) {
                            let q = choose|q: int| 0 <= q < s0.len() - 1 && s0.remove(p as int)[q] == index;
                            if q < p {
                                assert(s0[q] == index);
                            } else {
                                assert(s0[q + 1] == index);
                            }
                        }
                    }
                    lemma_seq_push(s0.remove(p as int), index);
                }
            },
            None => {
                proof {
                    lemma_seq_push(s0, index);
                }
            },
        }
        self.recently_used.push_back(index);
    }

    fn remove(&mut self, index: usize)
        ensures
            !old(self)@.contains(index) ==> final(self)@ == old(self)@,
            forall|p: int|
                0 <= p < old(self)@.len() && old(self)@[p] == index ==> final(self)@ == old(
                    self,
                )@.remove(p),
    {
        let ghost s0 = self@;
        match position_of(&self.recently_used, index) {
            Some(p) => {
                self.recently_used.remove(p);
                proof {
                    lemma_seq_remove(s0, p as int);
                    assert forall|q: int| 0 <= q < s0.len() && s0[q] == index implies q == p by {}
                }
            },
            None => {
                assert(s0.to_set().remove(index) =~= s0.to_set());
            },
        }
    }

    fn evict_next(&mut self) -> (r: Result<usize, CacheError>)
        ensures
            old(self)@.len() > 0 ==> r == Ok::<usize, CacheError>(old(self)@[0]) && final(self)@
                == old(self)@.drop_first(),
            old(self)@.len() == 0 ==> final(self)@ == old(self)@,
    {
        let ghost s0 = self@;
        if self.recently_used.len() == 0 {
            assert(s0.to_set() =~= Set::<usize>::empty());
            return Err(CacheError::NothingToEvict);
        }
        match self.recently_used.pop_front() {
            Some(index) => {
                proof {
                    lemma_seq_remove(s0, 0);
                    assert(s0.remove(0) =~= s0.drop_first());
                    assert(s0.contains(s0[0]));
                    assert(s0.to_set().contains(s0[0]));
                    assert(s0.to_set() != Set::<usize>::empty());
                }
                Ok(index)
            },
            None => Err(CacheError::NothingToEvict),
        }
    }
}

/// The position of the victim of the least-frequently-used policy in `s`.
pub open spec fn least_position(s: Seq<(usize, u64)>) -> int {
    choose|p: int| least_frequent(s, p)
}

/// A pair of `s` whose count is the least, the lowest slot index among equal
/// counts: the victim of the least-frequently-used policy.
pub open spec fn least_frequent(s: Seq<(usize, u64)>, p: int) -> bool {
    &&& 0 <= p < s.len()
    &&& forall|q: int|
        0 <= q < s.len() ==> s[p].1 < #[trigger] s[q].1 || (s[p].1 == s[q].1 && s[p].0 <= s[q].0)
}

/// Least frequently used: a touch count for each index. A touch counts one
/// more (a new index starts at one), and the victim is the index with the
/// smallest count, the lowest index among equal counts.
pub struct LFU {
    frequency_list: Vec<(usize, u64)>,
}

impl View for LFU {
    type V = Seq<(usize, u64)>;

    closed spec fn view(&self) -> Seq<(usize, u64)> {
        self.frequency_list@
    }
}

impl CacheReplacementPolicy for LFU {
    open spec fn indices(&self) -> Set<usize> {
        pair_slots(self@)
    }

    /// A touched index counts one more; a new one joins at the end with a
    /// count of one.
    open spec fn touched(m: Seq<(usize, u64)>, i: usize) -> Seq<(usize, u64)> {
        if pair_slots(m).contains(i) {
            let p = pair_position(m, i);
            m.update(p, (i, bumped(m[p].1)))
        } else {
            m.push((i, 1u64))
        }
    }

    open spec fn without(m: Seq<(usize, u64)>, i: usize) -> Seq<(usize, u64)> {
        if pair_slots(m).contains(i) {
            m.remove(pair_position(m, i))
        } else {
            m
        }
    }

    /// The index with the least count, the lowest among equal counts.
    open spec fn victim(m: Seq<(usize, u64)>) -> usize {
        m[least_position(m)].0
    }

    open spec fn evicted(m: Seq<(usize, u64)>) -> Seq<(usize, u64)> {
        m.remove(least_position(m))
    }

    open spec fn well_formed(&self) -> bool {
        distinct_slots(self@)
    }

    proof fn lemma_well_formed(&self) {
        lemma_pair_slots_finite(self@);
    }

    fn new() -> (r: Self)
        ensures
            r@ == Seq::<(usize, u64)>::empty(),
    {
        let r = LFU { frequency_list: Vec::new() };
        assert(pair_slots(r@) =~= Set::<usize>::empty());
        r
    }

    /// The count of `index` grows by one, and stays at its maximum once there.
    fn update(&mut self, index: usize)
        ensures
            !pair_slots(old(self)@).contains(index) ==> final(self)@ == old(self)@.push(
                (index, 1u64),
            ),
            forall|p: int|
                0 <= p < old(self)@.len() && #[trigger] old(self)@[p].0 == index ==> final(self)@
                    == old(self)@.update(
                    p,
                    (index, if old(self)@[p].1 < u64::MAX {
                        (old(self)@[p].1 + 1) as u64
                    } else {
                        u64::MAX
                    }),
                ),
    {
        let ghost s0 = self@;
        match find_pair(&self.frequency_list, index) {
            Some(p) => {
                let count = self.frequency_list[p].1.saturating_add(1);
                self.frequency_list.set(p, (index, count));
                proof {
                    lemma_pair_slots_update(s0, p as int, (index, count));
                    assert(pair_slots(s0).contains(index)) by {
                        assert(s0[p as int].0 == index);
                    }
                    assert(pair_slots(s0).insert(index) =~= pair_slots(s0));
                }
            },
            None => {
                self.frequency_list.push((index, 1));
                proof {
                    lemma_pair_slots_push(s0, (index, 1u64));
                }
            },
        }
    }

    fn remove(&mut self, index: usize)
        ensures
            !pair_slots(old(self)@).contains(index) ==> final(self)@ == old(self)@,
            forall|p: int|
                0 <= p < old(self)@.len() && #[trigger] old(self)@[p].0 == index ==> final(self)@
                    == old(self)@.remove(p),
    {
        let ghost s0 = self@;
        match find_pair(&self.frequency_list, index) {
            Some(p) => {
                self.frequency_list.remove(p);
                proof {
                    lemma_pair_slots_remove(s0, p as int);
                }
            },
            None => {
                assert(pair_slots(s0).remove(index) =~= pair_slots(s0));
            },
        }
    }

    fn evict_next(&mut self) -> (r: Result<usize, CacheError>)
        ensures
            old(self)@.len() == 0 ==> final(self)@ == old(self)@,
            r is Ok <==> old(self)@.len() > 0,
            r is Ok ==> exists|p: int|
                least_frequent(old(self)@, p) && r == Ok::<usize, CacheError>(old(self)@[p].0)
                    && final(self)@ == old(self)@.remove(p),
    {
        let ghost s0 = self@;
        if self.frequency_list.len() == 0 {
            assert(pair_slots(s0) =~= Set::<usize>::empty());
            return Err(CacheError::NothingToEvict);
        }
        let mut best: usize = 0;
        let mut k: usize = 1;
        while k < self.frequency_list.len()
            invariant
                self@ == s0,
                1 <= k <= s0.len(),
                best < k,
                forall|q: int|
                    0 <= q < k ==> s0[best as int].1 < #[trigger] s0[q].1 || (s0[best as int].1
                        == s0[q].1 && s0[best as int].0 <= s0[q].0),
            decreases s0.len() - k,
        {
            let (ki, kc) = self.frequency_list[k];
            let (bi, bc) = self.frequency_list[best];
            if kc < bc || (kc == bc && ki < bi) {
                best = k;
            }
            k += 1;
        }
        let victim = self.frequency_list.remove(best);
        proof {
            lemma_pair_slots_remove(s0, best as int);
            assert(pair_slots(s0).contains(s0[best as int].0));
            assert(least_frequent(s0, best as int));
        }
        Ok(victim.0)
    }
}

/// The number of pairs of `s` whose referenced bit is set.
pub open spec fn referenced_count(s: Seq<(usize, bool)>) -> nat
    decreases s.len(),
{
    if s.len() == 0 {
        0
    } else {
        referenced_count(s.drop_last()) + if s.last().1 {
            1nat
        } else {
            0nat
        }
    }
}

proof fn lemma_referenced_count_clear(s: Seq<(usize, bool)>, h: int)
    requires
        0 <= h < s.len(),
        s[h].1,
    ensures
        referenced_count(s.update(h, (s[h].0, false))) + 1 == referenced_count(s),
    decreases s.len(),
{
    let t = s.update(h, (s[h].0, false));
    if h == s.len() - 1 {
        assert(t.drop_last() =~= s.drop_last());
    } else {
        assert(t.drop_last() =~= s.drop_last().update(h, (s[h].0, false)));
        lemma_referenced_count_clear(s.drop_last(), h);
    }
}

/// The position after `h` in a circle of `n` positions.
pub open spec fn clock_next(h: int, n: int) -> int {
    if h + 1 == n {
        0
    } else {
        h + 1
    }
}

/// The sweep of the clock hand from position `h`: a set bit is cleared and
/// the hand moves on, until it stops at a pair whose bit is clear. Gives the
/// pairs after the sweep and the position where the hand stopped.
pub open spec fn clock_sweep(s: Seq<(usize, bool)>, h: int) -> (Seq<(usize, bool)>, int)
    decreases referenced_count(s),
    when 0 <= h < s.len()
    via clock_sweep_decreases
{
    if s[h].1 {
        clock_sweep(s.update(h, (s[h].0, false)), clock_next(h, s.len() as int))
    } else {
        (s, h)
    }
}

#[via_fn]
proof fn clock_sweep_decreases(s: Seq<(usize, bool)>, h: int) {
    if 0 <= h < s.len() && s[h].1 {
        lemma_referenced_count_clear(s, h);
    }
}

proof fn lemma_clock_sweep(s: Seq<(usize, bool)>, h: int)
    requires
        0 <= h < s.len(),
        distinct_slots(s),
    ensures
        0 <= clock_sweep(s, h).1 < s.len(),
        clock_sweep(s, h).0.len() == s.len(),
        !clock_sweep(s, h).0[clock_sweep(s, h).1].1,
        pair_slots(clock_sweep(s, h).0) == pair_slots(s),
        distinct_slots(clock_sweep(s, h).0),
    decreases referenced_count(s),
{
    if s[h].1 {
        let t = s.update(h, (s[h].0, false));
        lemma_referenced_count_clear(s, h);
        lemma_pair_slots_update(s, h, (s[h].0, false));
        lemma_clock_sweep(t, clock_next(h, s.len() as int));
    }
}

/// Where the hand stands after the pair at `p` is taken out of a circle that
/// then has `n` pairs: it keeps pointing at the same pair, or at the one after
/// the removed pair, wrapping to the start past the end.
pub open spec fn hand_after_removal(hand: int, p: int, n: int) -> int {
    let h = if p < hand {
        hand - 1
    } else {
        hand
    };
    if h >= n {
        0
    } else {
        h
    }
}

/// Second chance: a circle of (index, referenced bit) pairs and a hand. A
/// touch of a followed index sets its bit; a new index joins at the end of the
/// circle with its bit clear. To choose a victim the hand clears set bits and
/// moves on until it reaches a pair whose bit is clear, which is evicted.
pub struct Clock {
    hand: usize,
    referenced_list: Vec<(usize, bool)>,
}

impl View for Clock {
    type V = (Seq<(usize, bool)>, usize);

    closed spec fn view(&self) -> (Seq<(usize, bool)>, usize) {
        (self.referenced_list@, self.hand)
    }
}

impl CacheReplacementPolicy for Clock {
    open spec fn indices(&self) -> Set<usize> {
        pair_slots(self@.0)
    }

    /// A touch sets the bit of a followed index; a new index joins at the
    /// end with its bit clear. The hand stays.
    open spec fn touched(m: (Seq<(usize, bool)>, usize), i: usize) -> (Seq<(usize, bool)>, usize) {
        if pair_slots(m.0).contains(i) {
            (m.0.update(pair_position(m.0, i), (i, true)), m.1)
        } else {
            (m.0.push((i, false)), m.1)
        }
    }

    open spec fn without(m: (Seq<(usize, bool)>, usize), i: usize) -> (Seq<(usize, bool)>, usize) {
        if pair_slots(m.0).contains(i) {
            let p = pair_position(m.0, i);
            (m.0.remove(p), hand_after_removal(m.1 as int, p, m.0.len() - 1) as usize)
        } else {
            m
        }
    }

    /// The index at which the sweep of the hand stops.
    open spec fn victim(m: (Seq<(usize, bool)>, usize)) -> usize {
        let (swept, at) = clock_sweep(m.0, m.1 as int);
        swept[at].0
    }

    open spec fn evicted(m: (Seq<(usize, bool)>, usize)) -> (Seq<(usize, bool)>, usize) {
        let (swept, at) = clock_sweep(m.0, m.1 as int);
        (swept.remove(at), hand_after_removal(at, at, swept.len() - 1) as usize)
    }

    open spec fn well_formed(&self) -> bool {
        &&& distinct_slots(self@.0)
        &&& if self@.0.len() == 0 {
            self@.1 == 0
        } else {
            self@.1 < self@.0.len()
        }
    }

    proof fn lemma_well_formed(&self) {
        lemma_pair_slots_finite(self@.0);
    }

    fn new() -> (r: Self)
        ensures
            r@ == (Seq::<(usize, bool)>::empty(), 0usize),
    {
        let r = Clock { hand: 0, referenced_list: Vec::new() };
        assert(pair_slots(r@.0) =~= Set::<usize>::empty());
        r
    }

    fn update(&mut self, index: usize)
        ensures
            final(self)@.1 == old(self)@.1,
            !pair_slots(old(self)@.0).contains(index) ==> final(self)@.0 == old(self)@.0.push(
                (index, false),
            ),
            forall|p: int|
                0 <= p < old(self)@.0.len() && #[trigger] old(self)@.0[p].0 == index
                    ==> final(self)@.0 == old(self)@.0.update(p, (index, true)),
    {
        let ghost s0 = self@.0;
        match find_pair(&self.referenced_list, index) {
            Some(p) => {
                self.referenced_list.set(p, (index, true));
                proof {
                    lemma_pair_slots_update(s0, p as int, (index, true));
                    assert(pair_slots(s0).contains(index)) by {
                        assert(s0[p as int].0 == index);
                    }
                    assert(pair_slots(s0).insert(index) =~= pair_slots(s0));
                }
            },
            None => {
                self.referenced_list.push((index, false));
                proof {
                    lemma_pair_slots_push(s0, (index, false));
                }
            },
        }
    }

    fn remove(&mut self, index: usize)
        ensures
            !pair_slots(old(self)@.0).contains(index) ==> final(self)@ == old(self)@,
            forall|p: int|
                0 <= p < old(self)@.0.len() && #[trigger] old(self)@.0[p].0 == index
                    ==> final(self)@.0 == old(self)@.0.remove(p) && final(self)@.1
                    == hand_after_removal(old(self)@.1 as int, p, old(self)@.0.len() - 1),
    {
        let ghost s0 = self@.0;
        match find_pair(&self.referenced_list, index) {
            Some(p) => {
                self.referenced_list.remove(p);
                if p < self.hand {
                    self.hand = self.hand - 1;
                }
                if self.hand >= self.referenced_list.len() {
                    self.hand = 0;
                }
                proof {
                    lemma_pair_slots_remove(s0, p as int);
                }
            },
            None => {
                assert(pair_slots(s0).remove(index) =~= pair_slots(s0));
            },
        }
    }

    fn evict_next(&mut self) -> (r: Result<usize, CacheError>)
        ensures
            old(self)@.0.len() == 0 ==> final(self)@ == old(self)@,
            old(self)@.0.len() > 0 ==> ({
                let (swept, at) = clock_sweep(old(self)@.0, old(self)@.1 as int);
                &&& r == Ok::<usize, CacheError>(swept[at].0)
                &&& final(self)@.0 == swept.remove(at)
                &&& final(self)@.1 == hand_after_removal(at, at, swept.len() - 1)
            }),
    {
        let ghost s0 = self@.0;
        let ghost h0 = self.hand as int;
        if self.referenced_list.len() == 0 {
            assert(pair_slots(s0) =~= Set::<usize>::empty());
            return Err(CacheError::NothingToEvict);
        }
        proof {
            lemma_clock_sweep(s0, h0);
        }
        while self.referenced_list[self.hand].1
            invariant
                self.referenced_list@.len() == s0.len(),
                s0.len() > 0,
                self.hand < s0.len(),
                distinct_slots(self.referenced_list@),
                pair_slots(self.referenced_list@) == pair_slots(s0),
                clock_sweep(self.referenced_list@, self.hand as int) == clock_sweep(s0, h0),
            decreases referenced_count(self.referenced_list@),
        {
            let ghost before = self.referenced_list@;
            let index = self.referenced_list[self.hand].0;
            self.referenced_list.set(self.hand, (index, false));
            proof {
                lemma_referenced_count_clear(before, self.hand as int);
                lemma_pair_slots_update(before, self.hand as int, (index, false));
            }
            let n = self.referenced_list.len();
            if self.hand + 1 == n {
                self.hand = 0;
            } else {
                self.hand = self.hand + 1;
            }
        }
        let ghost swept = self.referenced_list@;
        let ghost at = self.hand as int;
        assert(clock_sweep(swept, at) == (swept, at));
        let victim = self.referenced_list.remove(self.hand);
        if self.hand >= self.referenced_list.len() {
            self.hand = 0;
        }
        proof {
            lemma_pair_slots_remove(swept, at);
            assert(pair_slots(swept).contains(victim.0)) by {
                assert(swept[at].0 == victim.0);
            }
        }
        Ok(victim.0)
    }
}

} // verus!

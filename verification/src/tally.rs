//! Small sets and counters, keyed like a [`Table`](crate::table::Table).

use crate::table::TableKey;
use vstd::prelude::*;

verus! {

/// A set that remembers the order in which its members came.
pub struct KeySet<K: TableKey> {
    items: Vec<K>,
}

impl<K: TableKey> View for KeySet<K> {
    type V = Set<K::V>;

    closed spec fn view(&self) -> Set<K::V> {
        Set::new(|k: K::V| exists|i: int| 0 <= i < self.items.len() && (#[trigger] self.items[i]).key() == k)
    }
}

impl<K: TableKey> KeySet<K> {
    /// No member is held twice.
    pub closed spec fn wf(&self) -> bool {
        forall|i: int, j: int|
            0 <= i < j < self.items.len() ==> (#[trigger] self.items[i]).key() != (
            #[trigger] self.items[j]).key()
    }

    pub fn new() -> (r: Self)
        ensures
            r.wf(),
            r@ == Set::<K::V>::empty(),
    {
        let r = KeySet { items: Vec::new() };
        assert(r@ =~= Set::<K::V>::empty());
        r
    }

    pub fn contains(&self, k: &K) -> (r: bool)
        ensures
            r == self@.contains(k.key()),
    {
        let mut i: usize = 0;
        while i < self.items.len()
            invariant
                i <= self.items.len(),
                forall|j: int| 0 <= j < i ==> (#[trigger] self.items[j]).key() != k.key(),
            decreases self.items.len() - i,
        {
            if self.items[i].same(k) {
                return true;
            }
            i += 1;
        }
        false
    }

    /// Adds a member; the result says whether it was absent.
    pub fn insert(&mut self, k: &K) -> (fresh: bool)
        requires
            old(self).wf(),
        ensures
            final(self).wf(),
            final(self)@ == old(self)@.insert(k.key()),
            fresh == !old(self)@.contains(k.key()),
    {
        if self.contains(k) {
            assert(self@ =~= old(self)@.insert(k.key()));
            false
        } else {
            self.items.push(k.duplicate());
            proof {
                let n = old(self).items.len() as int;
                assert(forall|j: int| 0 <= j < n ==> (#[trigger] self.items[j]) == old(self).items[j]);
                assert forall|v: K::V| #[trigger]
                    self@.contains(v) == old(self)@.insert(k.key()).contains(v) by {
                    if old(self)@.contains(v) {
                        let j = choose|j: int|
                            0 <= j < n && (#[trigger] old(self).items[j]).key() == v;
                        assert(self.items[j].key() == v);
                    }
                    if v == k.key() {
                        assert(self.items[n].key() == v);
                    }
                    if self@.contains(v) {
                        let j = choose|j: int|
                            0 <= j < self.items.len() && (#[trigger] self.items[j]).key() == v;
                        if j < n {
                            assert(old(self).items[j].key() == v);
                        }
                    }
                }
                assert(self@ =~= old(self)@.insert(k.key()));
            }
            true
        }
    }

    pub fn clear(&mut self)
        ensures
            final(self).wf(),
            final(self)@ == Set::<K::V>::empty(),
    {
        self.items.clear();
        assert(self@ =~= Set::<K::V>::empty());
    }

    pub fn len(&self) -> (r: usize)
        ensures
            r == self.spec_len(),
    {
        self.items.len()
    }

    pub closed spec fn spec_len(&self) -> nat {
        self.items@.len()
    }

    /// Every member comes at some place.
    pub proof fn lemma_member_index(&self, v: K::V) -> (i: int)
        requires
            self@.contains(v),
        ensures
            0 <= i < self.spec_len(),
            self.spec_get(i).key() == v,
    {
        choose|i: int| 0 <= i < self.items.len() && (#[trigger] self.items[i]).key() == v
    }

    pub closed spec fn spec_get(&self, i: int) -> K {
        self.items[i]
    }

    /// Whatever comes at some place is a member.
    pub proof fn lemma_get_member(&self, i: int)
        requires
            0 <= i < self.spec_len(),
        ensures
            self@.contains(self.spec_get(i).key()),
    {
        assert(self.items[i].key() == self.spec_get(i).key());
    }

    /// The member that came `i`-th.
    pub fn get(&self, i: usize) -> (r: &K)
        requires
            i < self.spec_len(),
        ensures
            *r == self.spec_get(i as int),
            self@.contains(r.key()),
    {
        assert(self.items[i as int].key() == self.items[i as int].key());
        &self.items[i]
    }

    pub fn duplicate(&self) -> (r: Self)
        requires
            self.wf(),
        ensures
            r.wf(),
            r@ == self@,
    {
        let mut items: Vec<K> = Vec::new();
        let mut i: usize = 0;
        while i < self.items.len()
            invariant
                i <= self.items.len(),
                items.len() == i,
                forall|j: int| 0 <= j < i ==> (#[trigger] items[j]).key() == self.items[j].key(),
            decreases self.items.len() - i,
        {
            items.push(self.items[i].duplicate());
            i += 1;
        }
        let r = KeySet { items };
        proof {
            assert forall|a: int, b: int| 0 <= a < b < r.items.len() implies (
            #[trigger] r.items[a]).key() != (#[trigger] r.items[b]).key() by {
                assert(self.items[a].key() != self.items[b].key());
            }
            assert forall|v: K::V| #[trigger] r@.contains(v) == self@.contains(v) by {
                if r@.contains(v) {
                    let j = choose|j: int|
                        0 <= j < r.items.len() && (#[trigger] r.items[j]).key() == v;
                    assert(self.items[j].key() == v);
                }
                if self@.contains(v) {
                    let j = choose|j: int|
                        0 <= j < self.items.len() && (#[trigger] self.items[j]).key() == v;
                    assert(r.items[j].key() == v);
                }
            }
            assert(r@ =~= self@);
        }
        r
    }
}

/// How often each key was counted, up to `u32::MAX`.
pub struct Counter<K: TableKey> {
    counts: Vec<(K, u32)>,
}

/// The count of `k` in a map of counts, where an absent key counts as zero.
pub open spec fn count_in<K>(m: Map<K, nat>, k: K) -> nat {
    if m.contains_key(k) {
        m[k]
    } else {
        0
    }
}

/// The map of counts after `k` was counted once more.
pub open spec fn count_more<K>(m: Map<K, nat>, k: K) -> Map<K, nat> {
    m.insert(k, bumped(count_in(m, k)))
}

/// One more, unless the count is at its ceiling already.
pub open spec fn bumped(n: nat) -> nat {
    if n < u32::MAX {
        n + 1
    } else {
        n
    }
}

impl<K: TableKey> Counter<K> {
    /// No key is held twice, and no held count is zero.
    pub closed spec fn wf(&self) -> bool {
        &&& forall|i: int, j: int|
            0 <= i < j < self.counts.len() ==> (#[trigger] self.counts[i]).0.key() != (
            #[trigger] self.counts[j]).0.key()
        &&& forall|i: int| 0 <= i < self.counts.len() ==> (#[trigger] self.counts[i]).1 > 0
    }

    /// How often `k` was counted.
    pub closed spec fn count(&self, k: K::V) -> nat {
        if exists|i: int| 0 <= i < self.counts.len() && (#[trigger] self.counts[i]).0.key() == k {
            let i = choose|i: int|
                0 <= i < self.counts.len() && (#[trigger] self.counts[i]).0.key() == k;
            self.counts[i].1 as nat
        } else {
            0
        }
    }

    /// The counts as a map that holds the keys counted at least once.
    pub open spec fn as_map(&self) -> Map<K::V, nat> {
        Map::new(|k: K::V| self.count(k) > 0, |k: K::V| self.count(k))
    }

    proof fn lemma_count_at(&self, i: int)
        requires
            self.wf(),
            0 <= i < self.counts.len(),
        ensures
            self.count(self.counts[i].0.key()) == self.counts[i].1,
    {
        let k = self.counts[i].0.key();
        let j = choose|j: int| 0 <= j < self.counts.len() && (#[trigger] self.counts[j]).0.key() == k;
        if j < i {
            assert(self.counts[j].0.key() != self.counts[i].0.key());
        }
        if i < j {
            assert(self.counts[i].0.key() != self.counts[j].0.key());
        }
    }

    pub fn new() -> (r: Self)
        ensures
            r.wf(),
            forall|k: K::V| r.count(k) == 0,
    {
        Counter { counts: Vec::new() }
    }

    /// How often `k` was counted.
    pub fn get(&self, k: &K) -> (r: u32)
        requires
            self.wf(),
        ensures
            r == self.count(k.key()),
    {
        let mut i: usize = 0;
        while i < self.counts.len()
            invariant
                i <= self.counts.len(),
                self.wf(),
                forall|j: int| 0 <= j < i ==> (#[trigger] self.counts[j]).0.key() != k.key(),
            decreases self.counts.len() - i,
        {
            if self.counts[i].0.same(k) {
                proof {
                    self.lemma_count_at(i as int);
                }
                return self.counts[i].1;
            }
            i += 1;
        }
        0
    }

    /// Counts `k` once more.
    pub fn bump(&mut self, k: &K)
        requires
            old(self).wf(),
        ensures
            final(self).wf(),
            forall|k2: K::V|
                #[trigger] final(self).count(k2) == if k2 == k.key() {
                    bumped(old(self).count(k2))
                } else {
                    old(self).count(k2)
                },
    {
        let mut i: usize = 0;
        while i < self.counts.len()
            invariant
                i <= self.counts.len(),
                *self == *old(self),
                old(self).wf(),
                forall|j: int| 0 <= j < i ==> (#[trigger] self.counts[j]).0.key() != k.key(),
            decreases self.counts.len() - i,
        {
            if self.counts[i].0.same(k) {
                proof {
                    old(self).lemma_count_at(i as int);
                }
                let n = self.counts[i].1;
                if n < u32::MAX {
                    self.counts[i].1 = n + 1;
                }
                proof {
                    assert(self.counts.len() == old(self).counts.len());
                    assert(forall|j: int|
                        0 <= j < self.counts.len() ==> (#[trigger] self.counts[j]).0
                            == old(self).counts[j].0);
                    assert(forall|j: int|
                        0 <= j < self.counts.len() && j != i ==> (#[trigger] self.counts[j])
                            == old(self).counts[j]);
                    assert(self.wf());
                    self.lemma_count_at(i as int);
                    assert forall|k2: K::V|
                        #[trigger] self.count(k2) == if k2 == k.key() {
                            bumped(old(self).count(k2))
                        } else {
                            old(self).count(k2)
                        } by {
                        if k2 != k.key() {
                            if exists|j: int|
                                0 <= j < self.counts.len() && (#[trigger] self.counts[j]).0.key()
                                    == k2 {
                                let j = choose|j: int|
                                    0 <= j < self.counts.len() && (
                                    #[trigger] self.counts[j]).0.key() == k2;
                                assert(old(self).counts[j].0.key() == k2);
                                self.lemma_count_at(j);
                                old(self).lemma_count_at(j);
                            } else {
                                if exists|j: int|
                                    0 <= j < old(self).counts.len() && (
                                    #[trigger] old(self).counts[j]).0.key() == k2 {
                                    let j = choose|j: int|
                                        0 <= j < old(self).counts.len() && (
                                        #[trigger] old(self).counts[j]).0.key() == k2;
                                    assert(self.counts[j].0.key() == k2);
                                }
                            }
                        }
                    }
                }
                return ;
            }
            i += 1;
        }
        self.counts.push((k.duplicate(), 1));
        proof {
            let n = old(self).counts.len() as int;
            assert(forall|j: int| 0 <= j < n ==> (#[trigger] self.counts[j]) == old(self).counts[j]);
            assert(self.wf());
            self.lemma_count_at(n);
            assert forall|k2: K::V|
                #[trigger] self.count(k2) == if k2 == k.key() {
                    bumped(old(self).count(k2))
                } else {
                    old(self).count(k2)
                } by {
                if k2 != k.key() {
                    if exists|j: int|
                        0 <= j < self.counts.len() && (#[trigger] self.counts[j]).0.key() == k2 {
                        let j = choose|j: int|
                            0 <= j < self.counts.len() && (#[trigger] self.counts[j]).0.key() == k2;
                        assert(old(self).counts[j].0.key() == k2);
                        self.lemma_count_at(j);
                        old(self).lemma_count_at(j);
                    } else {
                        if exists|j: int|
                            0 <= j < old(self).counts.len() && (
                            #[trigger] old(self).counts[j]).0.key() == k2 {
                            let j = choose|j: int|
                                0 <= j < old(self).counts.len() && (
                                #[trigger] old(self).counts[j]).0.key() == k2;
                            assert(self.counts[j].0.key() == k2);
                        }
                    }
                }
            }
        }
    }

    pub fn duplicate(&self) -> (r: Self)
        requires
            self.wf(),
        ensures
            r.wf(),
            forall|k: K::V| #[trigger] r.count(k) == self.count(k),
    {
        let mut counts: Vec<(K, u32)> = Vec::new();
        let mut i: usize = 0;
        while i < self.counts.len()
            invariant
                i <= self.counts.len(),
                counts.len() == i,
                forall|j: int|
                    0 <= j < i ==> (#[trigger] counts[j]).0.key() == self.counts[j].0.key()
                        && counts[j].1 == self.counts[j].1,
            decreases self.counts.len() - i,
        {
            counts.push((self.counts[i].0.duplicate(), self.counts[i].1));
            i += 1;
        }
        let r = Counter { counts };
        proof {
            assert forall|a: int, b: int| 0 <= a < b < r.counts.len() implies (
            #[trigger] r.counts[a]).0.key() != (#[trigger] r.counts[b]).0.key() by {
                assert(self.counts[a].0.key() != self.counts[b].0.key());
            }
            assert forall|a: int| 0 <= a < r.counts.len() implies (#[trigger] r.counts[a]).1
                > 0 by {
                assert(self.counts[a].1 > 0);
            }
            assert forall|k: K::V| #[trigger] r.count(k) == self.count(k) by {
                if exists|j: int|
                    0 <= j < r.counts.len() && (#[trigger] r.counts[j]).0.key() == k {
                    let j = choose|j: int|
                        0 <= j < r.counts.len() && (#[trigger] r.counts[j]).0.key() == k;
                    assert(self.counts[j].0.key() == k);
                    r.lemma_count_at(j);
                    self.lemma_count_at(j);
                } else {
                    if exists|j: int|
                        0 <= j < self.counts.len() && (#[trigger] self.counts[j]).0.key() == k {
                        let j = choose|j: int|
                            0 <= j < self.counts.len() && (#[trigger] self.counts[j]).0.key() == k;
                        assert(r.counts[j].0.key() == k);
                    }
                }
            }
        }
        r
    }
}

} // verus!

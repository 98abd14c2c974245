//! Secondary indices of the task queue.
//!
//! A [`Table`] maps a key (a status, a kind, an index name, a timestamp, an
//! identifier) to the set of identifiers filed under it. A key with nothing filed
//! under it has no entry, so that an absent key and an empty set are the same thing.

use crate::bitmap::{
    bitmap_contains, bitmap_insert, bitmap_is_empty, bitmap_new, bitmap_remove, bitmap_union_with,
    members,
};
use roaring::RoaringBitmap;
use vstd::prelude::*;

verus! {

/// What a type needs to serve as the key of a [`Table`].
pub trait TableKey: Sized {
    /// The mathematical value that the key stands for.
    type V;

    spec fn key(&self) -> Self::V;

    fn same(&self, other: &Self) -> (r: bool)
        ensures
            r == (self.key() == other.key()),
    ;

    fn duplicate(&self) -> (r: Self)
        ensures
            r.key() == self.key(),
    ;
}

impl TableKey for u32 {
    type V = u32;

    open spec fn key(&self) -> u32 {
        *self
    }

    fn same(&self, other: &Self) -> (r: bool) {
        *self == *other
    }

    fn duplicate(&self) -> (r: Self) {
        *self
    }
}

impl TableKey for i128 {
    type V = i128;

    open spec fn key(&self) -> i128 {
        *self
    }

    fn same(&self, other: &Self) -> (r: bool) {
        *self == *other
    }

    fn duplicate(&self) -> (r: Self) {
        *self
    }
}

impl TableKey for String {
    type V = Seq<char>;

    open spec fn key(&self) -> Seq<char> {
        self@
    }

    fn same(&self, other: &Self) -> (r: bool) {
        *self == *other
    }

    fn duplicate(&self) -> (r: Self) {
        self.clone()
    }
}

/// A map from keys to non-empty sets of identifiers.
pub struct Table<K: TableKey> {
    entries: Vec<(K, RoaringBitmap)>,
}

impl<K: TableKey> Table<K> {
    /// No key occurs twice and no entry is empty.
    pub closed spec fn wf(&self) -> bool {
        &&& forall|i: int, j: int|
            0 <= i < j < self.entries.len() ==> (#[trigger] self.entries[i]).0.key() != (
            #[trigger] self.entries[j]).0.key()
        &&& forall|i: int|
            0 <= i < self.entries.len() ==> members((#[trigger] self.entries[i]).1)
                != Set::<u32>::empty()
    }

    /// Whether `id` is filed under `k`.
    pub closed spec fn has(&self, k: K::V, id: u32) -> bool {
        exists|i: int|
            0 <= i < self.entries.len() && (#[trigger] self.entries[i]).0.key() == k && members(
                self.entries[i].1,
            ).contains(id)
    }

    /// Everything filed under `k`.
    pub open spec fn ids(&self, k: K::V) -> Set<u32> {
        Set::new(|id: u32| self.has(k, id))
    }

    pub fn new() -> (r: Self)
        ensures
            r.wf(),
            forall|k: K::V, id: u32| !r.has(k, id),
    {
        Table { entries: Vec::new() }
    }

    fn position(&self, k: &K) -> (r: Option<usize>)
        ensures
            match r {
                Some(i) => i < self.entries.len() && self.entries[i as int].0.key() == k.key(),
                None => forall|i: int|
                    0 <= i < self.entries.len() ==> (#[trigger] self.entries[i]).0.key()
                        != k.key(),
            },
    {
        let mut i: usize = 0;
        while i < self.entries.len()
            invariant
                i <= self.entries.len(),
                forall|j: int| 0 <= j < i ==> (#[trigger] self.entries[j]).0.key() != k.key(),
            decreases self.entries.len() - i,
        {
            if self.entries[i].0.same(k) {
                return Some(i);
            }
            i += 1;
        }
        None
    }

    /// What is filed under `k`, as a bitmap of its own.
    pub fn get(&self, k: &K) -> (r: RoaringBitmap)
        requires
            self.wf(),
        ensures
            members(r) == self.ids(k.key()),
    {
        match self.position(k) {
            Some(i) => {
                let r = self.entries[i].1.clone();
                proof {
                    assert forall|id: u32| members(r).contains(id) == self.has(k.key(), id) by {
                        if self.has(k.key(), id) {
                            let j = choose|j: int|
                                0 <= j < self.entries.len() && (#[trigger] self.entries[j]).0.key()
                                    == k.key() && members(self.entries[j].1).contains(id);
                            assert(j == i);
                        }
                    }
                    assert(members(r) =~= self.ids(k.key()));
                }
                r
            },
            None => {
                let r = bitmap_new();
                proof {
                    assert(members(r) =~= self.ids(k.key()));
                }
                r
            },
        }
    }

    /// Whether `id` is filed under `k`.
    pub fn contains(&self, k: &K, id: u32) -> (r: bool)
        requires
            self.wf(),
        ensures
            r == self.has(k.key(), id),
    {
        match self.position(k) {
            Some(i) => {
                let r = bitmap_contains(&self.entries[i].1, id);
                proof {
                    if self.has(k.key(), id) {
                        let j = choose|j: int|
                            0 <= j < self.entries.len() && (#[trigger] self.entries[j]).0.key()
                                == k.key() && members(self.entries[j].1).contains(id);
                        assert(j == i);
                    }
                }
                r
            },
            None => false,
        }
    }

    /// Files `id` under `k`.
    pub fn insert(&mut self, k: &K, id: u32)
        requires
            old(self).wf(),
        ensures
            final(self).wf(),
            forall|k2: K::V, id2: u32|
                #[trigger] final(self).has(k2, id2) == (old(self).has(k2, id2) || (k2 == k.key()
                    && id2 == id)),
    {
        let ghost before = *self;
        match self.position(k) {
            Some(i) => {
                bitmap_insert(&mut self.entries[i].1, id);
                proof {
                    assert(self.entries.len() == before.entries.len());
                    assert(forall|j: int|
                        0 <= j < self.entries.len() ==> (#[trigger] self.entries[j]).0
                            == before.entries[j].0);
                    assert(forall|j: int|
                        0 <= j < self.entries.len() && j != i ==> (#[trigger] self.entries[j])
                            == before.entries[j]);
                    assert(members(self.entries[i as int].1).contains(id));
                    assert forall|k2: K::V, id2: u32|
                        #[trigger] self.has(k2, id2) == (before.has(k2, id2) || (k2 == k.key()
                            && id2 == id)) by {
                        if before.has(k2, id2) {
                            let j = choose|j: int|
                                0 <= j < before.entries.len() && (
                                #[trigger] before.entries[j]).0.key() == k2 && members(
                                    before.entries[j].1,
                                ).contains(id2);
                            assert(self.entries[j].0.key() == k2 && members(
                                self.entries[j].1,
                            ).contains(id2));
                        }
                        if k2 == k.key() && id2 == id {
                            assert(self.entries[i as int].0.key() == k2);
                        }
                        if self.has(k2, id2) {
                            let j = choose|j: int|
                                0 <= j < self.entries.len() && (#[trigger] self.entries[j]).0.key()
                                    == k2 && members(self.entries[j].1).contains(id2);
                            if j != i || id2 != id {
                                assert(before.entries[j].0.key() == k2 && members(
                                    before.entries[j].1,
                                ).contains(id2));
                            }
                        }
                    }
                }
            },
            None => {
                let mut bitmap = bitmap_new();
                bitmap_insert(&mut bitmap, id);
                self.entries.push((k.duplicate(), bitmap));
                proof {
                    let n = before.entries.len() as int;
                    assert(self.entries.len() == n + 1);
                    assert(forall|j: int|
                        0 <= j < n ==> (#[trigger] self.entries[j]) == before.entries[j]);
                    assert(members(self.entries[n].1).contains(id));
                    assert forall|k2: K::V, id2: u32|
                        #[trigger] self.has(k2, id2) == (before.has(k2, id2) || (k2 == k.key()
                            && id2 == id)) by {
                        if before.has(k2, id2) {
                            let j = choose|j: int|
                                0 <= j < before.entries.len() && (
                                #[trigger] before.entries[j]).0.key() == k2 && members(
                                    before.entries[j].1,
                                ).contains(id2);
                            assert(self.entries[j].0.key() == k2 && members(
                                self.entries[j].1,
                            ).contains(id2));
                        }
                        if k2 == k.key() && id2 == id {
                            assert(self.entries[n].0.key() == k2);
                        }
                        if self.has(k2, id2) {
                            let j = choose|j: int|
                                0 <= j < self.entries.len() && (#[trigger] self.entries[j]).0.key()
                                    == k2 && members(self.entries[j].1).contains(id2);
                            if j < n {
                                assert(before.entries[j].0.key() == k2 && members(
                                    before.entries[j].1,
                                ).contains(id2));
                            }
                        }
                    }
                }
            },
        }
    }

    /// Takes `id` away from under `k`.
    pub fn remove(&mut self, k: &K, id: u32)
        requires
            old(self).wf(),
        ensures
            final(self).wf(),
            forall|k2: K::V, id2: u32|
                #[trigger] final(self).has(k2, id2) == (old(self).has(k2, id2) && !(k2 == k.key()
                    && id2 == id)),
    {
        let ghost before = *self;
        match self.position(k) {
            Some(i) => {
                bitmap_remove(&mut self.entries[i].1, id);
                let ghost mid = *self;
                proof {
                    assert(mid.entries.len() == before.entries.len());
                    assert(forall|j: int|
                        0 <= j < mid.entries.len() ==> (#[trigger] mid.entries[j]).0
                            == before.entries[j].0);
                    assert(forall|j: int|
                        0 <= j < mid.entries.len() && j != i ==> (#[trigger] mid.entries[j])
                            == before.entries[j]);
                }
                if bitmap_is_empty(&self.entries[i].1) {
                    self.entries.remove(i);
                    proof {
                        let n = before.entries.len() as int;
                        assert(self.entries.len() == n - 1);
                        assert(forall|j: int|
                            0 <= j < i ==> (#[trigger] self.entries[j]) == before.entries[j]);
                        assert(forall|j: int|
                            i <= j < n - 1 ==> (#[trigger] self.entries[j]) == before.entries[j
                                + 1]);
                        assert forall|a: int, b: int| 0 <= a < b < self.entries.len() implies (
                        #[trigger] self.entries[a]).0.key() != (
                        #[trigger] self.entries[b]).0.key() by {
                            let a0 = if a < i { a } else { a + 1 };
                            let b0 = if b < i { b } else { b + 1 };
                            assert(before.entries[a0].0.key() != before.entries[b0].0.key());
                        }
                        assert forall|k2: K::V, id2: u32|
                            #[trigger] self.has(k2, id2) == (before.has(k2, id2) && !(k2 == k.key()
                                && id2 == id)) by {
                            if before.has(k2, id2) && !(k2 == k.key() && id2 == id) {
                                let j = choose|j: int|
                                    0 <= j < before.entries.len() && (
                                    #[trigger] before.entries[j]).0.key() == k2 && members(
                                        before.entries[j].1,
                                    ).contains(id2);
                                if j == i {
                                    assert(members(mid.entries[i as int].1).contains(id2));
                                    assert(false);
                                }
                                let j1 = if j < i { j } else { j - 1 };
                                assert(self.entries[j1].0.key() == k2 && members(
                                    self.entries[j1].1,
                                ).contains(id2));
                            }
                            if self.has(k2, id2) {
                                let j = choose|j: int|
                                    0 <= j < self.entries.len() && (
                                    #[trigger] self.entries[j]).0.key() == k2 && members(
                                        self.entries[j].1,
                                    ).contains(id2);
                                let j0 = if j < i { j } else { j + 1 };
                                assert(before.entries[j0].0.key() == k2 && members(
                                    before.entries[j0].1,
                                ).contains(id2));
                                assert(before.entries[j0].0.key() != before.entries[i as int].0.key());
                            }
                        }
                    }
                } else {
                    proof {
                        assert forall|k2: K::V, id2: u32|
                            #[trigger] self.has(k2, id2) == (before.has(k2, id2) && !(k2 == k.key()
                                && id2 == id)) by {
                            if before.has(k2, id2) && !(k2 == k.key() && id2 == id) {
                                let j = choose|j: int|
                                    0 <= j < before.entries.len() && (
                                    #[trigger] before.entries[j]).0.key() == k2 && members(
                                        before.entries[j].1,
                                    ).contains(id2);
                                assert(self.entries[j].0.key() == k2 && members(
                                    self.entries[j].1,
                                ).contains(id2));
                            }
                            if self.has(k2, id2) {
                                let j = choose|j: int|
                                    0 <= j < self.entries.len() && (
                                    #[trigger] self.entries[j]).0.key() == k2 && members(
                                        self.entries[j].1,
                                    ).contains(id2);
                                assert(before.entries[j].0.key() == k2 && members(
                                    before.entries[j].1,
                                ).contains(id2));
                                if k2 == k.key() {
                                    assert(j == i);
                                }
                            }
                        }
                    }
                }
            },
            None => {
                proof {
                    assert forall|k2: K::V, id2: u32|
                        #[trigger] self.has(k2, id2) == (before.has(k2, id2) && !(k2 == k.key()
                            && id2 == id)) by {
                        if before.has(k2, id2) {
                            let j = choose|j: int|
                                0 <= j < before.entries.len() && (
                                #[trigger] before.entries[j]).0.key() == k2 && members(
                                    before.entries[j].1,
                                ).contains(id2);
                            assert(k2 != k.key());
                        }
                    }
                }
            },
        }
    }
}

impl<K: TableKey> Table<K> {
    /// Everything filed under one of the keys of a list.
    pub fn union_over(&self, keys: &Vec<K>) -> (r: RoaringBitmap)
        requires
            self.wf(),
        ensures
            forall|id: u32|
                #[trigger] members(r).contains(id) <==> exists|i: int|
                    0 <= i < keys.len() && self.has((#[trigger] keys[i]).key(), id),
    {
        let mut r = bitmap_new();
        let mut n: usize = 0;
        while n < keys.len()
            invariant
                n <= keys.len(),
                self.wf(),
                forall|id: u32|
                    #[trigger] members(r).contains(id) <==> exists|i: int|
                        0 <= i < n && self.has((#[trigger] keys[i]).key(), id),
            decreases keys.len() - n,
        {
            let ghost prev = members(r);
            let found = self.get(&keys[n]);
            bitmap_union_with(&mut r, &found);
            proof {
                assert forall|id: u32|
                    #[trigger] members(r).contains(id) <==> exists|i: int|
                        0 <= i < n + 1 && self.has((#[trigger] keys[i]).key(), id) by {
                    if prev.contains(id) {
                        let i = choose|i: int|
                            0 <= i < n && self.has((#[trigger] keys[i]).key(), id);
                        assert(self.has(keys[i].key(), id));
                    }
                    if members(found).contains(id) {
                        assert(self.has(keys[n as int].key(), id));
                    }
                    if exists|i: int|
                        0 <= i < n + 1 && self.has((#[trigger] keys[i]).key(), id) {
                        let i = choose|i: int|
                            0 <= i < n + 1 && self.has((#[trigger] keys[i]).key(), id);
                        if i < n {
                            assert(self.has(keys[i].key(), id));
                        } else {
                            assert(self.ids(keys[n as int].key()).contains(id));
                        }
                    }
                }
            }
            n += 1;
        }
        r
    }
}

/// Whether the time `at` lies strictly between the two bounds, where a bound that is
/// not given does not bind.
pub open spec fn within(at: i128, after: Option<i128>, before: Option<i128>) -> bool {
    &&& (after matches Some(a) ==> a < at)
    &&& (before matches Some(b) ==> at < b)
}

impl Table<i128> {
    /// Everything filed under a time strictly between the two bounds.
    pub fn union_between(&self, after: Option<i128>, before: Option<i128>) -> (r: RoaringBitmap)
        requires
            self.wf(),
        ensures
            forall|id: u32|
                #[trigger] members(r).contains(id) <==> exists|at: i128|
                    within(at, after, before) && #[trigger] self.has(at, id),
    {
        let mut r = bitmap_new();
        let mut i: usize = 0;
        while i < self.entries.len()
            invariant
                i <= self.entries.len(),
                forall|id: u32|
                    #[trigger] members(r).contains(id) <==> exists|j: int|
                        0 <= j < i && within((#[trigger] self.entries[j]).0, after, before)
                            && members(self.entries[j].1).contains(id),
            decreases self.entries.len() - i,
        {
            let at = self.entries[i].0;
            let above = match after {
                Some(a) => a < at,
                None => true,
            };
            let below = match before {
                Some(b) => at < b,
                None => true,
            };
            let ghost prev = members(r);
            if above && below {
                bitmap_union_with(&mut r, &self.entries[i].1);
            }
            proof {
                assert forall|id: u32|
                    #[trigger] members(r).contains(id) <==> exists|j: int|
                        0 <= j < i + 1 && within((#[trigger] self.entries[j]).0, after, before)
                            && members(self.entries[j].1).contains(id) by {
                    if prev.contains(id) {
                        let j = choose|j: int|
                            0 <= j < i && within((#[trigger] self.entries[j]).0, after, before)
                                && members(self.entries[j].1).contains(id);
                        assert(within(self.entries[j].0, after, before));
                    }
                    if above && below && members(self.entries[i as int].1).contains(id) {
                        assert(within(self.entries[i as int].0, after, before));
                    }
                    if exists|j: int|
                        0 <= j < i + 1 && within((#[trigger] self.entries[j]).0, after, before)
                            && members(self.entries[j].1).contains(id) {
                        let j = choose|j: int|
                            0 <= j < i + 1 && within((#[trigger] self.entries[j]).0, after, before)
                                && members(self.entries[j].1).contains(id);
                        if j < i {
                            assert(within(self.entries[j].0, after, before));
                        }
                    }
                }
            }
            i += 1;
        }
        proof {
            assert forall|id: u32|
                #[trigger] members(r).contains(id) <==> exists|at: i128|
                    within(at, after, before) && #[trigger] self.has(at, id) by {
                if members(r).contains(id) {
                    let j = choose|j: int|
                        0 <= j < self.entries.len() && within(
                            (#[trigger] self.entries[j]).0,
                            after,
                            before,
                        ) && members(self.entries[j].1).contains(id);
                    assert(self.entries[j].0.key() == self.entries[j].0);
                    assert(self.has(self.entries[j].0, id));
                }
                if exists|at: i128| within(at, after, before) && #[trigger] self.has(at, id) {
                    let at = choose|at: i128| within(at, after, before) && #[trigger] self.has(at, id);
                    let j = choose|j: int|
                        0 <= j < self.entries.len() && (#[trigger] self.entries[j]).0.key() == at
                            && members(self.entries[j].1).contains(id);
                    assert(within(self.entries[j].0, after, before));
                }
            }
        }
        r
    }
}

} // verus!

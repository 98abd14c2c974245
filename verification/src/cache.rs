//! The cache of an extractor thread.
//!
//! Each extractor thread collects, for every key it meets, the documents to take
//! out of and to put into the posting list of that key. The cache is split into
//! buckets by the hash of the key, so that bucket `b` of every thread can later be
//! merged by one thread without looking at any other bucket.
//!
//! Once the arena of the thread has handed out as much memory as the cache may
//! use, the cache starts spilling: a key that is resident keeps its delta in
//! memory, while a key that is not yet known goes to the sorter of its bucket.

use crate::arena::{arena_allocated_bytes, arena_copy};
use crate::del_add::{
    lemma_with_one_joined, DelAddBbbul, DelAddRoaringBitmap, DelAddView, FrozenDelAddBbbul,
};
use crate::order::{bytes_less, compare_bytes, Rank};
use crate::sorted_map::{
    content_of, keys_ascending, lemma_bytes_order, lemma_bytes_total, lemma_content_at, ByteKey,
    Delta, SortedMap,
};
use bumpalo::Bump;
use std::hash::BuildHasher;
use vstd::prelude::*;
use vstd::slice::slice_to_vec;

verus! {

/// The hash that `rustc_hash::FxBuildHasher` gives a byte string.
pub uninterp spec fn fx_hash(key: Seq<u8>) -> u64;

/// `BuildHasher::hash_one` of `rustc_hash::FxBuildHasher` on a byte string. The
/// hasher has no seed and no state: on one target the hash depends on the bytes alone.
#[verifier::external_body]
pub(crate) fn hash_key(key: &[u8]) -> (r: u64)
    ensures
        r == fx_hash(key@),
{
    rustc_hash::FxBuildHasher.hash_one(key)
}

/// The bucket that a hash falls into.
pub open spec fn bucket_for(buckets: usize, hash: u64) -> usize {
    ((hash as usize) % buckets) as usize
}

/// The bucket that a key falls into.
pub open spec fn bucket_of(key: Seq<u8>, buckets: usize) -> usize {
    bucket_for(buckets, fx_hash(key))
}

pub fn compute_bucket_from_hash(buckets: usize, hash: u64) -> (r: usize)
    requires
        buckets > 0,
    ensures
        r == bucket_for(buckets, hash),
        r < buckets,
{
    hash as usize % buckets
}

/// The delta that a map holds for a key; the empty delta where it holds none.
pub open spec fn view_at(m: Map<Seq<u8>, DelAddView>, key: Seq<u8>) -> DelAddView {
    if m.contains_key(key) {
        m[key]
    } else {
        DelAddView::empty()
    }
}

/// The map that holds, for every key of either map, the merged deltas.
pub open spec fn merged_maps(a: Map<Seq<u8>, DelAddView>, b: Map<Seq<u8>, DelAddView>) -> Map<
    Seq<u8>,
    DelAddView,
> {
    Map::new(
        |key: Seq<u8>| a.contains_key(key) || b.contains_key(key),
        |key: Seq<u8>| view_at(a, key).merged(view_at(b, key)),
    )
}

/// The first `n` maps of a list, merged from first to last.
pub open spec fn merged_upto(maps: Seq<Map<Seq<u8>, DelAddView>>, n: int) -> Map<
    Seq<u8>,
    DelAddView,
>
    decreases n,
{
    if n <= 0 {
        Map::empty()
    } else {
        merged_maps(merged_upto(maps, n - 1), maps[n - 1])
    }
}

/// All maps of a list, merged.
pub open spec fn merged_all(maps: Seq<Map<Seq<u8>, DelAddView>>) -> Map<Seq<u8>, DelAddView> {
    merged_upto(maps, maps.len() as int)
}

/// The map after one more identifier was asked of a side of the delta of a key.
pub open spec fn with_insert(
    m: Map<Seq<u8>, DelAddView>,
    key: Seq<u8>,
    n: u32,
    add: bool,
) -> Map<Seq<u8>, DelAddView> {
    m.insert(
        key,
        if add {
            view_at(m, key).with_add(n)
        } else {
            view_at(m, key).with_del(n)
        },
    )
}

/// What the merge of a list of maps holds for a key: the key is there when one of
/// the maps has it, and each side of its delta is the union of that side over the maps.
pub proof fn lemma_merged_upto(maps: Seq<Map<Seq<u8>, DelAddView>>, n: int, key: Seq<u8>)
    requires
        0 <= n <= maps.len(),
    ensures
        merged_upto(maps, n).contains_key(key) <==> exists|i: int|
            0 <= i < n && (#[trigger] maps[i]).contains_key(key),
        forall|v: u32|
            crate::del_add::side(view_at(merged_upto(maps, n), key).add).contains(v) <==> exists|
                i: int,
            |
                0 <= i < n && crate::del_add::side(#[trigger] view_at(maps[i], key).add).contains(
                    v,
                ),
        forall|v: u32|
            crate::del_add::side(view_at(merged_upto(maps, n), key).del).contains(v) <==> exists|
                i: int,
            |
                0 <= i < n && crate::del_add::side(#[trigger] view_at(maps[i], key).del).contains(
                    v,
                ),
    decreases n,
{
    if n > 0 {
        lemma_merged_upto(maps, n - 1, key);
        let prev = merged_upto(maps, n - 1);
        let last = maps[n - 1];
        assert(view_at(merged_upto(maps, n), key) == view_at(prev, key).merged(view_at(last, key)));
        if merged_upto(maps, n).contains_key(key) {
            if prev.contains_key(key) {
                let i = choose|i: int| 0 <= i < n - 1 && (#[trigger] maps[i]).contains_key(key);
                assert(maps[i].contains_key(key));
            } else {
                assert(maps[n - 1].contains_key(key));
            }
        }
        assert forall|v: u32|
            crate::del_add::side(view_at(merged_upto(maps, n), key).add).contains(v) <==> exists|
                i: int,
            |
                0 <= i < n && crate::del_add::side(#[trigger] view_at(maps[i], key).add).contains(
                    v,
                ) by {
            if crate::del_add::side(view_at(prev, key).add).contains(v) {
                let i = choose|i: int|
                    0 <= i < n - 1 && crate::del_add::side(
                        #[trigger] view_at(maps[i], key).add,
                    ).contains(v);
                assert(crate::del_add::side(view_at(maps[i], key).add).contains(v));
            }
            if crate::del_add::side(view_at(last, key).add).contains(v) {
                assert(crate::del_add::side(view_at(maps[n - 1], key).add).contains(v));
            }
        }
        assert forall|v: u32|
            crate::del_add::side(view_at(merged_upto(maps, n), key).del).contains(v) <==> exists|
                i: int,
            |
                0 <= i < n && crate::del_add::side(#[trigger] view_at(maps[i], key).del).contains(
                    v,
                ) by {
            if crate::del_add::side(view_at(prev, key).del).contains(v) {
                let i = choose|i: int|
                    0 <= i < n - 1 && crate::del_add::side(
                        #[trigger] view_at(maps[i], key).del,
                    ).contains(v);
                assert(crate::del_add::side(view_at(maps[i], key).del).contains(v));
            }
            if crate::del_add::side(view_at(last, key).del).contains(v) {
                assert(crate::del_add::side(view_at(maps[n - 1], key).del).contains(v));
            }
        }
    }
}

/// Puts a delta into the sorter of a bucket, merging it into what the sorter holds
/// for the key already. A delta that asks for nothing is dropped.
pub fn spill_entry_to_sorter(
    spilled_entries: &mut SortedMap<Vec<u8>, DelAddRoaringBitmap>,
    key: &[u8],
    deladd: DelAddRoaringBitmap,
)
    requires
        old(spilled_entries).wf(),
    ensures
        final(spilled_entries).wf(),
        final(spilled_entries).content() == if deladd@ == DelAddView::empty() {
            old(spilled_entries).content()
        } else {
            old(spilled_entries).content().insert(
                key@,
                view_at(old(spilled_entries).content(), key@).merged(deladd@),
            )
        },
{
    if deladd.del.is_none() && deladd.add.is_none() {
        return ;
    }
    match spilled_entries.search(key) {
        Ok(i) => {
            let held = spilled_entries.value_mut(i);
            held.merge_from(&deladd);
        },
        Err(i) => {
            spilled_entries.insert_at(i, slice_to_vec(key), deladd);
        },
    }
}

/// A cache that stores byte keys associated to deltas, balanced over buckets for
/// later merging.
pub struct BalancedCaches<'extractor> {
    alloc: &'extractor Bump,
    max_memory: Option<usize>,
    spilling: bool,
    caches: Vec<SortedMap<&'extractor [u8], DelAddBbbul<'extractor>>>,
    spilled_entries: Vec<SortedMap<Vec<u8>, DelAddRoaringBitmap>>,
}

impl<'extractor> BalancedCaches<'extractor> {
    /// The number of buckets.
    pub closed spec fn spec_buckets(&self) -> nat {
        self.caches@.len()
    }

    /// Whether the cache has started spilling.
    pub closed spec fn is_spilling(&self) -> bool {
        self.spilling
    }

    /// The limit on the memory of the arena beyond which the cache spills.
    pub closed spec fn limit(&self) -> Option<usize> {
        self.max_memory
    }

    /// What bucket `b` holds in memory.
    pub closed spec fn resident(&self, b: int) -> Map<Seq<u8>, DelAddView> {
        self.caches[b].content()
    }

    /// What bucket `b` has spilled.
    pub closed spec fn spilled(&self, b: int) -> Map<Seq<u8>, DelAddView> {
        self.spilled_entries[b].content()
    }

    /// Everything that bucket `b` holds, in memory and spilled.
    pub open spec fn bucket_content(&self, b: int) -> Map<Seq<u8>, DelAddView> {
        merged_maps(self.resident(b), self.spilled(b))
    }

    /// Everything that the cache holds: for each key the delta asked of it so far.
    pub open spec fn content(&self) -> Map<Seq<u8>, DelAddView> {
        Map::new(
            |key: Seq<u8>|
                self.bucket_content(bucket_of(key, self.spec_buckets() as usize) as int).contains_key(
                    key,
                ),
            |key: Seq<u8>|
                self.bucket_content(bucket_of(key, self.spec_buckets() as usize) as int)[key],
        )
    }

    /// There is a bucket, every key lies in the bucket of its hash, and nothing is
    /// spilled before the cache starts spilling.
    pub closed spec fn wf(&self) -> bool {
        &&& self.caches.len() > 0
        &&& self.caches.len() == self.spilled_entries.len()
        &&& forall|b: int| 0 <= b < self.caches.len() ==> (#[trigger] self.caches[b]).wf()
        &&& forall|b: int|
            0 <= b < self.caches.len() ==> (#[trigger] self.spilled_entries[b]).wf()
        &&& forall|b: int, i: int|
            0 <= b < self.caches.len() && 0 <= i < self.caches[b].spec_len() ==> (
            #[trigger] self.caches[b].value_at(i)).wf()
        &&& forall|b: int, key: Seq<u8>|
            0 <= b < self.caches.len() && #[trigger] self.resident(b).contains_key(key)
                ==> bucket_of(key, self.caches.len()) == b
        &&& forall|b: int, key: Seq<u8>|
            0 <= b < self.caches.len() && #[trigger] self.spilled(b).contains_key(key)
                ==> bucket_of(key, self.caches.len()) == b
        &&& !self.spilling ==> forall|b: int|
            0 <= b < self.caches.len() ==> #[trigger] self.spilled(b) == Map::<
                Seq<u8>,
                DelAddView,
            >::empty()
    }

    /// Every key lies in the bucket of its hash.
    pub proof fn lemma_buckets(&self, b: int, key: Seq<u8>)
        requires
            self.wf(),
            0 <= b < self.spec_buckets(),
            self.bucket_content(b).contains_key(key),
        ensures
            self.spec_buckets() > 0,
            bucket_of(key, self.spec_buckets() as usize) == b,
            self.content().contains_key(key),
            self.content()[key] == self.bucket_content(b)[key],
    {
        if self.resident(b).contains_key(key) {
        } else {
            assert(self.spilled(b).contains_key(key));
        }
    }

    /// A cache of `buckets` buckets that spills once the arena has handed out
    /// `max_memory` bytes, if a limit is given.
    pub fn new_in(buckets: usize, max_memory: Option<usize>, alloc: &'extractor Bump) -> (r: Self)
        requires
            buckets > 0,
        ensures
            r.wf(),
            r.spec_buckets() == buckets,
            !r.is_spilling(),
            r.limit() == max_memory,
            r.content() == Map::<Seq<u8>, DelAddView>::empty(),
            forall|b: int|
                0 <= b < buckets ==> #[trigger] r.bucket_content(b) == Map::<
                    Seq<u8>,
                    DelAddView,
                >::empty(),
    {
        let mut caches: Vec<SortedMap<&'extractor [u8], DelAddBbbul<'extractor>>> = Vec::new();
        let mut spilled_entries: Vec<SortedMap<Vec<u8>, DelAddRoaringBitmap>> = Vec::new();
        let mut i: usize = 0;
        while i < buckets
            invariant
                i <= buckets,
                caches.len() == i,
                spilled_entries.len() == i,
                forall|b: int|
                    0 <= b < i ==> (#[trigger] caches[b]).wf() && caches[b].spec_len() == 0
                        && caches[b].content() == Map::<Seq<u8>, DelAddView>::empty(),
                forall|b: int|
                    0 <= b < i ==> (#[trigger] spilled_entries[b]).wf()
                        && spilled_entries[b].content() == Map::<Seq<u8>, DelAddView>::empty(),
            decreases buckets - i,
        {
            caches.push(SortedMap::new());
            spilled_entries.push(SortedMap::new());
            i += 1;
        }
        let r = BalancedCaches { alloc, max_memory, spilling: false, caches, spilled_entries };
        proof {
            assert forall|b: int| 0 <= b < buckets implies #[trigger] r.bucket_content(b) == Map::<
                Seq<u8>,
                DelAddView,
            >::empty() by {
                assert(r.resident(b) == Map::<Seq<u8>, DelAddView>::empty());
                assert(r.spilled(b) == Map::<Seq<u8>, DelAddView>::empty());
                assert(r.bucket_content(b) =~= Map::<Seq<u8>, DelAddView>::empty());
            }
            assert(r.content() =~= Map::<Seq<u8>, DelAddView>::empty()) by {
                assert forall|key: Seq<u8>| !r.content().contains_key(key) by {
                    let b = bucket_of(key, buckets) as int;
                    assert(r.bucket_content(b) == Map::<Seq<u8>, DelAddView>::empty());
                }
            }
        }
        r
    }

    /// The number of buckets.
    pub fn buckets(&self) -> (r: usize)
        ensures
            r == self.spec_buckets(),
    {
        self.caches.len()
    }

    /// Hands out what a bucket has spilled so far, so that it can be written to a
    /// file; the cache no longer holds it. What is resident stays.
    pub fn take_spilled(&mut self, bucket: usize) -> (r: SortedMap<Vec<u8>, DelAddRoaringBitmap>)
        requires
            old(self).wf(),
            bucket < old(self).spec_buckets(),
        ensures
            final(self).wf(),
            final(self).spec_buckets() == old(self).spec_buckets(),
            final(self).limit() == old(self).limit(),
            final(self).is_spilling() == old(self).is_spilling(),
            r.wf(),
            r.content() == old(self).spilled(bucket as int),
            forall|b: int|
                0 <= b < old(self).spec_buckets() ==> #[trigger] final(self).resident(b) == old(self).resident(b),
            forall|b: int|
                0 <= b < old(self).spec_buckets() ==> #[trigger] final(self).spilled(b) == (if b
                    == bucket {
                    Map::<Seq<u8>, DelAddView>::empty()
                } else {
                    old(self).spilled(b)
                }),
    {
        let mut taken = SortedMap::new();
        core::mem::swap(&mut self.spilled_entries[bucket], &mut taken);
        proof {
            assert forall|b: int| 0 <= b < self.caches.len() implies (
            #[trigger] self.spilled_entries[b]).wf() by {
                if b != bucket {
                    assert(self.spilled_entries[b] == old(self).spilled_entries[b]);
                }
            }
            assert forall|b: int, key: Seq<u8>|
                0 <= b < self.caches.len() && #[trigger] self.spilled(b).contains_key(
                    key,
                ) implies bucket_of(key, self.caches.len()) == b by {
                if b != bucket {
                    assert(self.spilled_entries[b] == old(self).spilled_entries[b]);
                    assert(old(self).spilled(b).contains_key(key));
                }
            }
            assert forall|b: int, key: Seq<u8>|
                0 <= b < self.caches.len() && #[trigger] self.resident(b).contains_key(
                    key,
                ) implies bucket_of(key, self.caches.len()) == b by {
                assert(old(self).resident(b).contains_key(key));
            }
            assert forall|b: int, i: int|
                0 <= b < self.caches.len() && 0 <= i < self.caches[b].spec_len() implies (
            #[trigger] self.caches[b].value_at(i)).wf() by {
                assert(old(self).caches[b].value_at(i).wf());
            }
            if !self.spilling {
                assert forall|b: int| 0 <= b < self.caches.len() implies #[trigger] self.spilled(
                    b,
                ) == Map::<Seq<u8>, DelAddView>::empty() by {
                    if b != bucket {
                        assert(self.spilled_entries[b] == old(self).spilled_entries[b]);
                        assert(old(self).spilled(b) == Map::<Seq<u8>, DelAddView>::empty());
                    }
                }
            }
            assert forall|b: int| 0 <= b < old(self).spec_buckets() implies #[trigger] self.spilled(
                b,
            ) == (if b == bucket {
                Map::<Seq<u8>, DelAddView>::empty()
            } else {
                old(self).spilled(b)
            }) by {
                if b != bucket {
                    assert(self.spilled_entries[b] == old(self).spilled_entries[b]);
                }
            }
        }
        taken
    }

    /// Make sure the cache is no longer allocating data and writes every new and
    /// unknown entry to the sorters.
    fn start_spilling(&mut self)
        requires
            old(self).wf(),
        ensures
            final(self).wf(),
            final(self).spilling,
            final(self).alloc == old(self).alloc,
            final(self).max_memory == old(self).max_memory,
            final(self).caches == old(self).caches,
            final(self).spilled_entries == old(self).spilled_entries,
    {
        self.spilling = true;
        proof {
            assert forall|b: int| 0 <= b < self.caches.len() implies #[trigger] self.resident(b)
                == old(self).resident(b) && self.spilled(b) == old(self).spilled(b) by {}
            assert forall|b: int, key: Seq<u8>|
                0 <= b < self.caches.len() && #[trigger] self.resident(b).contains_key(
                    key,
                ) implies bucket_of(key, self.caches.len()) == b by {
                assert(old(self).resident(b).contains_key(key));
            }
            assert forall|b: int, key: Seq<u8>|
                0 <= b < self.caches.len() && #[trigger] self.spilled(b).contains_key(
                    key,
                ) implies bucket_of(key, self.caches.len()) == b by {
                assert(old(self).spilled(b).contains_key(key));
            }
        }
    }

    fn insert_u32(&mut self, key: &[u8], n: u32, add: bool)
        requires
            old(self).wf(),
        ensures
            final(self).wf(),
            final(self).spec_buckets() == old(self).spec_buckets(),
            final(self).limit() == old(self).limit(),
            final(self).content() == with_insert(old(self).content(), key@, n, add),
            old(self).is_spilling() ==> final(self).is_spilling(),
            old(self).limit() == Some(0usize) ==> final(self).is_spilling(),
            old(self).limit() is None ==> final(self).is_spilling() == old(self).is_spilling(),
            forall|b: int, k: Seq<u8>|
                0 <= b < old(self).spec_buckets() && k != key@ ==> (#[trigger] final(self).resident(b).contains_key(k) == old(self).resident(b).contains_key(k))
                    && final(self).spilled(b).contains_key(k) == old(self).spilled(b).contains_key(
                    k,
                ),
            forall|b: int|
                0 <= b < old(self).spec_buckets() ==> (#[trigger] final(self).resident(
                    b,
                ).contains_key(key@)) == (old(self).resident(b).contains_key(key@) || (!final(self).is_spilling() && b == bucket_of(key@, old(self).spec_buckets() as usize))),
            forall|b: int|
                0 <= b < old(self).spec_buckets() ==> (#[trigger] final(self).spilled(
                    b,
                ).contains_key(key@)) == (old(self).spilled(b).contains_key(key@) || (final(self).is_spilling() && b == bucket_of(key@, old(self).spec_buckets() as usize)
                    && !old(self).resident(b).contains_key(key@))),
    {
        let over = match self.max_memory {
            Some(max_memory) => arena_allocated_bytes(self.alloc) >= max_memory,
            None => false,
        };
        if over {
            self.start_spilling();
        }
        let ghost mid = *self;
        let buckets = self.buckets();
        let hash = hash_key(key);
        let bucket = compute_bucket_from_hash(buckets, hash);
        let ghost bk = bucket as int;
        assert(bk == bucket_of(key@, buckets) as int);
        let ghost old_res = mid.resident(bk);
        let ghost old_spill = mid.spilled(bk);
        match self.caches[bucket].search(key) {
            Ok(i) => {
                let alloc = self.alloc;
                let held = self.caches[bucket].value_mut(i);
                if add {
                    held.insert_add_u32(n, alloc);
                } else {
                    held.insert_del_u32(n, alloc);
                }
                proof {
                    assert(self.caches[bk].wf());
                    assert forall|b: int, j: int|
                        0 <= b < self.caches.len() && 0 <= j < self.caches[b].spec_len() implies (
                    #[trigger] self.caches[b].value_at(j)).wf() by {
                        if b == bk {
                            if j != i {
                                assert(self.caches[bk].value_at(j) == mid.caches[bk].value_at(j));
                                assert(mid.caches[bk].value_at(j).wf());
                            }
                        } else {
                            assert(self.caches[b] == mid.caches[b]);
                            assert(mid.caches[b].value_at(j).wf());
                        }
                    }
                    assert forall|b: int| 0 <= b < self.caches.len() implies (
                    #[trigger] self.caches[b]).wf() by {
                        if b != bk {
                            assert(self.caches[b] == mid.caches[b]);
                        }
                    }
                    let new_view = if add {
                        old_res[key@].with_add(n)
                    } else {
                        old_res[key@].with_del(n)
                    };
                    assert(self.resident(bk) == old_res.insert(key@, new_view));
                    assert forall|b: int, k: Seq<u8>|
                        0 <= b < self.caches.len() && #[trigger] self.resident(b).contains_key(
                            k,
                        ) implies bucket_of(k, self.caches.len()) == b by {
                        if b == bk {
                            if k != key@ {
                                assert(mid.resident(bk).contains_key(k));
                            }
                        } else {
                            assert(self.caches[b] == mid.caches[b]);
                            assert(mid.resident(b).contains_key(k));
                        }
                    }
                    assert forall|b: int| 0 <= b < self.caches.len() implies #[trigger] self.spilled(
                        b,
                    ) == mid.spilled(b) by {}
                }
            },
            Err(i) => {
                if !self.spilling {
                    let stored = arena_copy(self.alloc, key);
                    let delta = if add {
                        DelAddBbbul::new_add_u32_in(n, self.alloc)
                    } else {
                        DelAddBbbul::new_del_u32_in(n, self.alloc)
                    };
                    let ghost dv = delta@;
                    self.caches[bucket].insert_at(i, stored, delta);
                    proof {
                        assert forall|b: int, j: int|
                            0 <= b < self.caches.len() && 0 <= j < self.caches[b].spec_len() implies (
                        #[trigger] self.caches[b].value_at(j)).wf() by {
                            if b == bk {
                                if j < i {
                                    assert(self.caches[bk].key_at(j) == mid.caches[bk].key_at(j));
                                    assert(self.caches[bk].value_at(j) == mid.caches[bk].value_at(
                                        j,
                                    ));
                                    assert(mid.caches[bk].value_at(j).wf());
                                } else if j > i {
                                    assert(self.caches[bk].key_at(j) == mid.caches[bk].key_at(
                                        j - 1,
                                    ));
                                    assert(self.caches[bk].value_at(j) == mid.caches[bk].value_at(
                                        j - 1,
                                    ));
                                    assert(mid.caches[bk].value_at(j - 1).wf());
                                }
                            } else {
                                assert(self.caches[b] == mid.caches[b]);
                                assert(mid.caches[b].value_at(j).wf());
                            }
                        }
                        assert forall|b: int| 0 <= b < self.caches.len() implies (
                        #[trigger] self.caches[b]).wf() by {
                            if b != bk {
                                assert(self.caches[b] == mid.caches[b]);
                            }
                        }
                        assert(self.resident(bk) == old_res.insert(key@, dv));
                        assert forall|b: int, k: Seq<u8>|
                            0 <= b < self.caches.len() && #[trigger] self.resident(b).contains_key(
                                k,
                            ) implies bucket_of(k, self.caches.len()) == b by {
                            if b == bk {
                                if k != key@ {
                                    assert(mid.resident(bk).contains_key(k));
                                }
                            } else {
                                assert(self.caches[b] == mid.caches[b]);
                                assert(mid.resident(b).contains_key(k));
                            }
                        }
                        assert forall|b: int| 0 <= b < self.caches.len() implies #[trigger] self.spilled(
                            b,
                        ) == mid.spilled(b) by {}
                        assert(mid.spilled(bk) == Map::<Seq<u8>, DelAddView>::empty());
                    }
                } else {
                    let delta = if add {
                        DelAddRoaringBitmap::new_add_u32(n)
                    } else {
                        DelAddRoaringBitmap::new_del_u32(n)
                    };
                    let ghost dv = delta@;
                    spill_entry_to_sorter(&mut self.spilled_entries[bucket], key, delta);
                    proof {
                        assert(dv != DelAddView::empty());
                        assert(self.spilled(bk) == old_spill.insert(
                            key@,
                            view_at(old_spill, key@).merged(dv),
                        ));
                        assert forall|b: int| 0 <= b < self.caches.len() implies (
                        #[trigger] self.spilled_entries[b]).wf() by {
                            if b != bk {
                                assert(self.spilled_entries[b] == mid.spilled_entries[b]);
                            }
                        }
                        assert forall|b: int, k: Seq<u8>|
                            0 <= b < self.caches.len() && #[trigger] self.spilled(b).contains_key(
                                k,
                            ) implies bucket_of(k, self.caches.len()) == b by {
                            if b == bk {
                                if k != key@ {
                                    assert(mid.spilled(bk).contains_key(k));
                                }
                            } else {
                                assert(self.spilled_entries[b] == mid.spilled_entries[b]);
                                assert(mid.spilled(b).contains_key(k));
                            }
                        }
                        assert forall|b: int, j: int|
                            0 <= b < self.caches.len() && 0 <= j < self.caches[b].spec_len() implies (
                        #[trigger] self.caches[b].value_at(j)).wf() by {
                            assert(mid.caches[b].value_at(j).wf());
                        }
                        assert forall|b: int, k: Seq<u8>|
                            0 <= b < self.caches.len() && #[trigger] self.resident(b).contains_key(
                                k,
                            ) implies bucket_of(k, self.caches.len()) == b by {
                            assert(mid.resident(b).contains_key(k));
                        }
                    }
                }
            },
        }
        proof {
            let goal = with_insert(old(self).content(), key@, n, add);
            assert(old(self).content() == mid.content());
            lemma_with_one_joined(view_at(old_res, key@).add, view_at(old_spill, key@).add, n);
            lemma_with_one_joined(view_at(old_res, key@).del, view_at(old_spill, key@).del, n);
            lemma_with_one_joined(view_at(old_spill, key@).add, None, n);
            lemma_with_one_joined(view_at(old_spill, key@).del, None, n);
            assert forall|k: Seq<u8>| #[trigger]
                self.content().contains_key(k) == goal.contains_key(k) by {
                let b = bucket_of(k, buckets) as int;
                if b != bk {
                    assert(self.resident(b) == mid.resident(b));
                    assert(self.spilled(b) == mid.spilled(b));
                }
            }
            assert forall|k: Seq<u8>| self.content().contains_key(k) implies #[trigger]
                self.content()[k] == goal[k] by {
                let b = bucket_of(k, buckets) as int;
                if b != bk {
                    assert(self.resident(b) == mid.resident(b));
                    assert(self.spilled(b) == mid.spilled(b));
                }
            }
            assert(self.content() =~= goal);
        }
    }

    /// Asks that a document be taken out of the posting list of a key.
    pub fn insert_del_u32(&mut self, key: &[u8], n: u32)
        requires
            old(self).wf(),
        ensures
            final(self).wf(),
            final(self).spec_buckets() == old(self).spec_buckets(),
            final(self).limit() == old(self).limit(),
            final(self).content() == with_insert(old(self).content(), key@, n, false),
            old(self).is_spilling() ==> final(self).is_spilling(),
            old(self).limit() == Some(0usize) ==> final(self).is_spilling(),
            old(self).limit() is None ==> final(self).is_spilling() == old(self).is_spilling(),
            final(self).is_spilling() ==> forall|b: int, k: Seq<u8>|
                0 <= b < old(self).spec_buckets() ==> #[trigger] final(self).resident(
                    b,
                ).contains_key(k) == old(self).resident(b).contains_key(k),
    {
        self.insert_u32(key, n, false);
    }

    /// Asks that a document be put into the posting list of a key.
    pub fn insert_add_u32(&mut self, key: &[u8], n: u32)
        requires
            old(self).wf(),
        ensures
            final(self).wf(),
            final(self).spec_buckets() == old(self).spec_buckets(),
            final(self).limit() == old(self).limit(),
            final(self).content() == with_insert(old(self).content(), key@, n, true),
            old(self).is_spilling() ==> final(self).is_spilling(),
            old(self).limit() == Some(0usize) ==> final(self).is_spilling(),
            old(self).limit() is None ==> final(self).is_spilling() == old(self).is_spilling(),
            final(self).is_spilling() ==> forall|b: int, k: Seq<u8>|
                0 <= b < old(self).spec_buckets() ==> #[trigger] final(self).resident(
                    b,
                ).contains_key(k) == old(self).resident(b).contains_key(k),
    {
        self.insert_u32(key, n, true);
    }
}

/// Entries with the same keys and the same deltas, place by place, hold the same.
pub proof fn lemma_same_content<K1: ByteKey, V1: Delta, K2: ByteKey, V2: Delta>(
    a: Seq<(K1, V1)>,
    b: Seq<(K2, V2)>,
)
    requires
        keys_ascending(a),
        a.len() == b.len(),
        forall|i: int|
            0 <= i < a.len() ==> (#[trigger] a[i]).0.bytes() == b[i].0.bytes() && a[i].1.delta()
                == b[i].1.delta(),
    ensures
        keys_ascending(b),
        content_of(a) == content_of(b),
{
    assert forall|i: int, j: int| 0 <= i < j < b.len() implies bytes_less(
        (#[trigger] b[i]).0.bytes(),
        (#[trigger] b[j]).0.bytes(),
    ) by {
        assert(bytes_less(a[i].0.bytes(), a[j].0.bytes()));
    }
    assert forall|key: Seq<u8>| #[trigger]
        content_of(a).contains_key(key) == content_of(b).contains_key(key) by {
        if content_of(a).contains_key(key) {
            let i = choose|i: int| 0 <= i < a.len() && (#[trigger] a[i]).0.bytes() == key;
            assert(b[i].0.bytes() == key);
        }
        if content_of(b).contains_key(key) {
            let i = choose|i: int| 0 <= i < b.len() && (#[trigger] b[i]).0.bytes() == key;
            assert(a[i].0.bytes() == key);
        }
    }
    assert forall|key: Seq<u8>| content_of(a).contains_key(key) implies #[trigger] content_of(
        a,
    )[key] == content_of(b)[key] by {
        let i = choose|i: int| 0 <= i < a.len() && (#[trigger] a[i]).0.bytes() == key;
        lemma_content_at(a, i);
        assert(b[i].0.bytes() == key);
        lemma_content_at(b, i);
    }
    assert(content_of(a) =~= content_of(b));
}

/// The map of a bucket once extraction is over. Its keys stay; its deltas are read
/// once each.
pub struct FrozenBTreeMap<K: ByteKey, V: Delta>(SortedMap<K, V>);

impl<K: ByteKey, V: Delta> FrozenBTreeMap<K, V> {
    pub closed spec fn wf(&self) -> bool {
        self.0.wf()
    }

    /// What the map maps each key to.
    pub closed spec fn content(&self) -> Map<Seq<u8>, DelAddView> {
        self.0.content()
    }

    #[inline]
    pub fn new(map: SortedMap<K, V>) -> (r: Self)
        requires
            map.wf(),
        ensures
            r.wf(),
            r.content() == map.content(),
    {
        FrozenBTreeMap(map)
    }

    /// The delta of a key, to read or change it, if the map has the key.
    #[inline]
    pub fn get_mut(&mut self, key: &[u8]) -> (r: Option<&mut V>)
        requires
            old(self).wf(),
        ensures
            final(self).wf(),
            match r {
                Some(value) => old(self).content().contains_key(key@) && value.delta() == old(self).content()[key@] && final(self).content() == old(self).content().insert(
                    key@,
                    final(value).delta(),
                ),
                None => !old(self).content().contains_key(key@) && final(self).content() == old(self).content(),
            },
    {
        match self.0.search(key) {
            Ok(i) => Some(self.0.value_mut(i)),
            Err(_) => None,
        }
    }

    /// The map, open for changes again.
    pub fn into_inner(self) -> (r: SortedMap<K, V>)
        requires
            self.wf(),
        ensures
            r.wf(),
            r.content() == self.content(),
    {
        self.0
    }
}

/// Bucket `bucket` of the cache of one thread, once extraction is over: what was
/// resident, and what was spilled.
pub struct FrozenCache<'extractor> {
    bucket: usize,
    cache: FrozenBTreeMap<&'extractor [u8], FrozenDelAddBbbul<'extractor>>,
    spilled: Vec<SortedMap<Vec<u8>, DelAddRoaringBitmap>>,
}

impl<'extractor> FrozenCache<'extractor> {
    pub closed spec fn wf(&self) -> bool {
        &&& self.cache.wf()
        &&& forall|i: int| 0 <= i < self.spilled.len() ==> (#[trigger] self.spilled[i]).wf()
    }

    /// The bucket that this is.
    pub closed spec fn spec_bucket(&self) -> usize {
        self.bucket
    }

    /// What was resident, followed by what each sorted run holds.
    pub closed spec fn sources(&self) -> Seq<Map<Seq<u8>, DelAddView>> {
        Seq::new(
            (self.spilled.len() + 1) as nat,
            |i: int|
                if i == 0 {
                    self.cache.content()
                } else {
                    self.spilled[i - 1].content()
                },
        )
    }

    /// Everything that the bucket holds.
    pub open spec fn content(&self) -> Map<Seq<u8>, DelAddView> {
        merged_all(self.sources())
    }

    pub fn bucket(&self) -> (r: usize)
        ensures
            r == self.spec_bucket(),
    {
        self.bucket
    }

    /// Adds a sorted run to the bucket: one that was written out while the cache
    /// was spilling and is now read back for the merge.
    pub fn push_run(&mut self, run: SortedMap<Vec<u8>, DelAddRoaringBitmap>)
        requires
            old(self).wf(),
            run.wf(),
        ensures
            final(self).wf(),
            final(self).spec_bucket() == old(self).spec_bucket(),
            final(self).sources() == old(self).sources().push(run.content()),
            final(self).content() == merged_maps(old(self).content(), run.content()),
    {
        self.spilled.push(run);
        proof {
            let before = old(self).sources();
            let after = self.sources();
            assert(after =~= before.push(run.content()));
            lemma_merged_upto_prefix(before, after, before.len() as int);
        }
    }
}

/// Merging the first maps of a list does not depend on the maps that follow.
pub proof fn lemma_merged_upto_prefix(
    a: Seq<Map<Seq<u8>, DelAddView>>,
    b: Seq<Map<Seq<u8>, DelAddView>>,
    n: int,
)
    requires
        0 <= n <= a.len(),
        n <= b.len(),
        forall|i: int| 0 <= i < n ==> a[i] == b[i],
    ensures
        merged_upto(a, n) == merged_upto(b, n),
    decreases n,
{
    if n > 0 {
        lemma_merged_upto_prefix(a, b, n - 1);
    }
}

/// Merging into an empty map, or an empty map in, changes nothing.
pub proof fn lemma_merged_empty(m: Map<Seq<u8>, DelAddView>)
    ensures
        merged_maps(Map::empty(), m) == m,
        merged_maps(m, Map::empty()) == m,
{
    assert(merged_maps(Map::empty(), m) =~= m);
    assert(merged_maps(m, Map::empty()) =~= m);
}

fn freeze_entries<'extractor>(
    resident: SortedMap<&'extractor [u8], DelAddBbbul<'extractor>>,
) -> (r: SortedMap<&'extractor [u8], FrozenDelAddBbbul<'extractor>>)
    requires
        resident.wf(),
        forall|i: int| 0 <= i < resident.spec_len() ==> (#[trigger] resident.value_at(i)).wf(),
    ensures
        r.wf(),
        r.content() == resident.content(),
{
    let mut entries = resident.into_entries();
    let ghost orig = entries@;
    let mut out: Vec<(&'extractor [u8], FrozenDelAddBbbul<'extractor>)> = Vec::new();
    let mut i: usize = 0;
    while i < entries.len()
        invariant
            i <= entries.len(),
            entries.len() == orig.len(),
            out.len() == i,
            forall|j: int| i <= j < entries.len() ==> (#[trigger] entries[j]) == orig[j],
            forall|j: int| 0 <= j < orig.len() ==> (#[trigger] orig[j]).1.wf(),
            forall|j: int|
                0 <= j < i ==> (#[trigger] out[j]).0.bytes() == orig[j].0.bytes() && out[j].1.delta()
                    == orig[j].1.delta(),
        decreases entries.len() - i,
    {
        let key = entries[i].0;
        let mut value = DelAddBbbul { del: None, add: None };
        core::mem::swap(&mut entries[i].1, &mut value);
        out.push((key, value.freeze()));
        i += 1;
    }
    proof {
        assert forall|j: int| 0 <= j < orig.len() implies (#[trigger] orig[j]).0.bytes()
            == out[j].0.bytes() && orig[j].1.delta() == out[j].1.delta() by {
            assert(out[j].0.bytes() == orig[j].0.bytes());
        }
        lemma_same_content(orig, out@);
    }
    SortedMap::from_entries(out)
}

fn drain_entries<'extractor>(
    frozen: FrozenBTreeMap<&'extractor [u8], FrozenDelAddBbbul<'extractor>>,
) -> (r: SortedMap<Vec<u8>, DelAddRoaringBitmap>)
    requires
        frozen.wf(),
    ensures
        r.wf(),
        r.content() == frozen.content(),
{
    let mut entries = frozen.into_inner().into_entries();
    let ghost orig = entries@;
    let mut out: Vec<(Vec<u8>, DelAddRoaringBitmap)> = Vec::new();
    let mut i: usize = 0;
    while i < entries.len()
        invariant
            i <= entries.len(),
            entries.len() == orig.len(),
            out.len() == i,
            forall|j: int| i <= j < entries.len() ==> (#[trigger] entries[j]) == orig[j],
            forall|j: int|
                0 <= j < i ==> (#[trigger] out[j]).0.bytes() == orig[j].0.bytes() && out[j].1.delta()
                    == orig[j].1.delta(),
        decreases entries.len() - i,
    {
        let key = slice_to_vec(entries[i].0);
        let mut output = DelAddRoaringBitmap::empty();
        output.union_and_clear_bbbul(&mut entries[i].1);
        out.push((key, output));
        i += 1;
    }
    proof {
        assert forall|j: int| 0 <= j < orig.len() implies (#[trigger] orig[j]).0.bytes()
            == out[j].0.bytes() && orig[j].1.delta() == out[j].1.delta() by {
            assert(out[j].0.bytes() == orig[j].0.bytes());
        }
        lemma_same_content(orig, out@);
    }
    SortedMap::from_entries(out)
}

fn copy_delta(delta: &DelAddRoaringBitmap) -> (r: DelAddRoaringBitmap)
    ensures
        r@ == delta@,
{
    let mut r = DelAddRoaringBitmap::empty();
    r.merge_from(delta);
    r
}

/// What the first `n` entries of a map hold for a key.
pub open spec fn held_below<K: ByteKey, V: Delta>(m: SortedMap<K, V>, n: int, key: Seq<u8>) -> Option<
    DelAddView,
> {
    if exists|p: int| 0 <= p < n && #[trigger] m.key_at(p) == key {
        Some(m.value_at(choose|p: int| 0 <= p < n && #[trigger] m.key_at(p) == key).delta())
    } else {
        None
    }
}

pub open spec fn or_empty(d: Option<DelAddView>) -> DelAddView {
    match d {
        Some(d) => d,
        None => DelAddView::empty(),
    }
}

proof fn lemma_held_below<K: ByteKey, V: Delta>(m: SortedMap<K, V>, n: int, key: Seq<u8>)
    requires
        m.wf(),
        0 <= n <= m.spec_len(),
    ensures
        forall|p: int|
            0 <= p < n && #[trigger] m.key_at(p) == key ==> held_below(m, n, key) == Some(
                m.value_at(p).delta(),
            ),
        n == m.spec_len() ==> (held_below(m, n, key) is Some <==> m.content().contains_key(key))
            && or_empty(held_below(m, n, key)) == view_at(m.content(), key),
{
    m.lemma_places();
    assert forall|p: int| 0 <= p < n && #[trigger] m.key_at(p) == key implies held_below(m, n, key)
        == Some(m.value_at(p).delta()) by {
        let q = choose|q: int| 0 <= q < n && #[trigger] m.key_at(q) == key;
        if p != q {
            lemma_bytes_order(m.key_at(p), m.key_at(q), m.key_at(p));
            lemma_bytes_order(m.key_at(q), m.key_at(p), m.key_at(q));
            if p < q {
                assert(bytes_less(m.key_at(p), m.key_at(q)));
            } else {
                assert(bytes_less(m.key_at(q), m.key_at(p)));
            }
        }
    }
    if n == m.spec_len() {
        if m.content().contains_key(key) {
            let p = choose|p: int| 0 <= p < m.spec_len() && #[trigger] m.key_at(p) == key;
            assert(held_below(m, n, key) == Some(m.value_at(p).delta()));
        }
        if held_below(m, n, key) is Some {
            let q = choose|q: int| 0 <= q < n && #[trigger] m.key_at(q) == key;
            assert(m.content().contains_key(m.key_at(q)));
        }
    }
}

/// Merges two sorted runs into one: a key of either run is a key of the result, with
/// the deltas of both merged.
pub fn merge_two(
    a: &SortedMap<Vec<u8>, DelAddRoaringBitmap>,
    b: &SortedMap<Vec<u8>, DelAddRoaringBitmap>,
) -> (r: SortedMap<Vec<u8>, DelAddRoaringBitmap>)
    requires
        a.wf(),
        b.wf(),
    ensures
        r.wf(),
        r.content() == merged_maps(a.content(), b.content()),
{
    let mut out: SortedMap<Vec<u8>, DelAddRoaringBitmap> = SortedMap::new();
    let mut i: usize = 0;
    let mut j: usize = 0;
    proof {
        a.lemma_places();
        b.lemma_places();
    }
    while i < a.len() || j < b.len()
        invariant
            i <= a.spec_len(),
            j <= b.spec_len(),
            a.wf(),
            b.wf(),
            out.wf(),
            forall|p: int, q: int|
                0 <= p < q < a.spec_len() ==> bytes_less(#[trigger] a.key_at(p), #[trigger] a.key_at(q)),
            forall|p: int, q: int|
                0 <= p < q < b.spec_len() ==> bytes_less(#[trigger] b.key_at(p), #[trigger] b.key_at(q)),
            forall|p: int, q: int|
                0 <= p < out.spec_len() && i <= q < a.spec_len() ==> bytes_less(
                    #[trigger] out.key_at(p),
                    #[trigger] a.key_at(q),
                ),
            forall|p: int, q: int|
                0 <= p < out.spec_len() && j <= q < b.spec_len() ==> bytes_less(
                    #[trigger] out.key_at(p),
                    #[trigger] b.key_at(q),
                ),
            forall|key: Seq<u8>|
                #[trigger] out.content().contains_key(key) <==> held_below(*a, i as int, key)
                    is Some || held_below(*b, j as int, key) is Some,
            forall|key: Seq<u8>|
                out.content().contains_key(key) ==> #[trigger] out.content()[key] == or_empty(
                    held_below(*a, i as int, key),
                ).merged(or_empty(held_below(*b, j as int, key))),
        decreases (a.spec_len() - i) + (b.spec_len() - j),
    {
        let ghost before = out;
        let ghost i0 = i as int;
        let ghost j0 = j as int;
        let rank = if i >= a.len() {
            Rank::After
        } else if j >= b.len() {
            Rank::Before
        } else {
            compare_bytes(a.key(i), b.key(j))
        };
        let ghost key: Seq<u8>;
        let ghost value: DelAddView;
        proof {
            before.lemma_places();
        }
        match rank {
            Rank::Before => {
                let k = slice_to_vec(a.key(i));
                let v = copy_delta(a.value(i));
                proof {
                    key = k@;
                    value = v@;
                }
                out.push(k, v);
                i += 1;
            },
            Rank::After => {
                let k = slice_to_vec(b.key(j));
                let v = copy_delta(b.value(j));
                proof {
                    key = k@;
                    value = v@;
                }
                out.push(k, v);
                j += 1;
            },
            Rank::Same => {
                let k = slice_to_vec(a.key(i));
                let mut v = copy_delta(a.value(i));
                v.merge_from(b.value(j));
                proof {
                    key = k@;
                    value = v@;
                }
                out.push(k, v);
                i += 1;
                j += 1;
            },
        }
        proof {
            out.lemma_places();
            // the frontier still lies above everything that was put out
            assert forall|p: int, q: int|
                0 <= p < out.spec_len() && i <= q < a.spec_len() implies bytes_less(
                #[trigger] out.key_at(p),
                #[trigger] a.key_at(q),
            ) by {
                if p == before.spec_len() {
                    if i0 < a.spec_len() && key == a.key_at(i0) {
                        assert(bytes_less(a.key_at(i0), a.key_at(q)));
                    } else {
                        assert(key == b.key_at(j0));
                        if i0 < a.spec_len() {
                            lemma_bytes_total(a.key_at(i0), b.key_at(j0));
                            if i0 < q {
                                assert(bytes_less(a.key_at(i0), a.key_at(q)));
                                lemma_bytes_order(b.key_at(j0), a.key_at(i0), a.key_at(q));
                            }
                        }
                    }
                } else {
                    assert(out.key_at(p) == before.key_at(p));
                }
            }
            assert forall|p: int, q: int|
                0 <= p < out.spec_len() && j <= q < b.spec_len() implies bytes_less(
                #[trigger] out.key_at(p),
                #[trigger] b.key_at(q),
            ) by {
                if p == before.spec_len() {
                    if j0 < b.spec_len() && key == b.key_at(j0) {
                        assert(bytes_less(b.key_at(j0), b.key_at(q)));
                    } else {
                        assert(key == a.key_at(i0));
                        if j0 < b.spec_len() {
                            lemma_bytes_total(a.key_at(i0), b.key_at(j0));
                            if j0 < q {
                                assert(bytes_less(b.key_at(j0), b.key_at(q)));
                                lemma_bytes_order(a.key_at(i0), b.key_at(j0), b.key_at(q));
                            }
                        }
                    }
                } else {
                    assert(out.key_at(p) == before.key_at(p));
                }
            }
            assert forall|k2: Seq<u8>|
                (#[trigger] out.content().contains_key(k2) <==> held_below(*a, i as int, k2)
                    is Some || held_below(*b, j as int, k2) is Some) && (out.content().contains_key(
                    k2,
                ) ==> out.content()[k2] == or_empty(held_below(*a, i as int, k2)).merged(
                    or_empty(held_below(*b, j as int, k2)),
                )) by {
                lemma_held_below(*a, i0, k2);
                lemma_held_below(*a, i as int, k2);
                lemma_held_below(*b, j0, k2);
                lemma_held_below(*b, j as int, k2);
                lemma_step(*a, i0, i as int, k2);
                lemma_step(*b, j0, j as int, k2);
                if k2 == key {
                    // the key was not put out before: it lies at the frontier
                    if before.content().contains_key(k2) {
                        let p = choose|p: int|
                            0 <= p < before.spec_len() && #[trigger] before.key_at(p) == k2;
                        if i0 < a.spec_len() && key == a.key_at(i0) {
                            assert(bytes_less(before.key_at(p), a.key_at(i0)));
                        } else {
                            assert(bytes_less(before.key_at(p), b.key_at(j0)));
                        }
                        lemma_bytes_order(k2, k2, k2);
                    }
                    if rank == Rank::Before && j0 < b.spec_len() {
                        lemma_bytes_order(a.key_at(i0), b.key_at(j0), a.key_at(i0));
                    }
                    if rank == Rank::After && i0 < a.spec_len() {
                        lemma_bytes_order(b.key_at(j0), a.key_at(i0), b.key_at(j0));
                    }
                } else {
                    if i0 < a.spec_len() && a.key_at(i0) == k2 {
                        assert(rank == Rank::After);
                    }
                    if j0 < b.spec_len() && b.key_at(j0) == k2 {
                        assert(rank == Rank::Before);
                    }
                }
            }
        }
    }
    proof {
        assert forall|key: Seq<u8>| #[trigger]
            out.content().contains_key(key) == merged_maps(a.content(), b.content()).contains_key(
                key,
            ) by {
            lemma_held_below(*a, a.spec_len() as int, key);
            lemma_held_below(*b, b.spec_len() as int, key);
        }
        assert forall|key: Seq<u8>| out.content().contains_key(key) implies #[trigger]
            out.content()[key] == merged_maps(a.content(), b.content())[key] by {
            lemma_held_below(*a, a.spec_len() as int, key);
            lemma_held_below(*b, b.spec_len() as int, key);
        }
        assert(out.content() =~= merged_maps(a.content(), b.content()));
    }
    out
}

/// Going one place further in a map changes what is held below only for the key
/// at that place.
proof fn lemma_step<K: ByteKey, V: Delta>(m: SortedMap<K, V>, n: int, n2: int, key: Seq<u8>)
    requires
        m.wf(),
        0 <= n <= m.spec_len(),
        n2 == n || (n2 == n + 1 && n < m.spec_len()),
    ensures
        n2 == n + 1 && m.key_at(n) == key ==> held_below(m, n, key) is None && held_below(
            m,
            n2,
            key,
        ) == Some(m.value_at(n).delta()),
        n2 == n || m.key_at(n) != key ==> held_below(m, n2, key) == held_below(m, n, key),
{
    m.lemma_places();
    lemma_held_below(m, n, key);
    lemma_held_below(m, n2, key);
    if n2 == n + 1 {
        if m.key_at(n) == key {
            if held_below(m, n, key) is Some {
                let q = choose|q: int| 0 <= q < n && #[trigger] m.key_at(q) == key;
                assert(bytes_less(m.key_at(q), m.key_at(n)));
                lemma_bytes_order(key, key, key);
            }
        } else {
            if held_below(m, n2, key) is Some {
                let q = choose|q: int| 0 <= q < n2 && #[trigger] m.key_at(q) == key;
                assert(q < n);
                assert(held_below(m, n, key) == Some(m.value_at(q).delta()));
            }
            if held_below(m, n, key) is Some {
                let q = choose|q: int| 0 <= q < n && #[trigger] m.key_at(q) == key;
                assert(held_below(m, n2, key) == Some(m.value_at(q).delta()));
            }
        }
    }
}

impl<'extractor> BalancedCaches<'extractor> {
    /// Hands every bucket out, frozen: bucket `b` comes at place `b`, with what was
    /// resident in it and, if the cache was spilling, the run that its sorter holds.
    /// The cache is empty afterwards.
    pub fn freeze(&mut self) -> (r: Vec<FrozenCache<'extractor>>)
        requires
            old(self).wf(),
        ensures
            final(self).wf(),
            final(self).spec_buckets() == old(self).spec_buckets(),
            final(self).content() == Map::<Seq<u8>, DelAddView>::empty(),
            r.len() == old(self).spec_buckets(),
            forall|b: int|
                0 <= b < r.len() ==> (#[trigger] r[b]).wf() && r[b].spec_bucket() == b
                    && r[b].content() == old(self).bucket_content(b),
    {
        let mut out: Vec<FrozenCache<'extractor>> = Vec::new();
        let n = self.caches.len();
        let mut b: usize = 0;
        while b < n
            invariant
                b <= n,
                n == old(self).caches.len(),
                self.caches.len() == n,
                self.spilled_entries.len() == n,
                self.spilling == old(self).spilling,
                old(self).wf(),
                out.len() == b,
                forall|j: int| b <= j < n ==> (#[trigger] self.caches[j]) == old(self).caches[j],
                forall|j: int|
                    b <= j < n ==> (#[trigger] self.spilled_entries[j]) == old(self).spilled_entries[j],
                forall|j: int|
                    0 <= j < b ==> (#[trigger] self.caches[j]).wf() && self.caches[j].spec_len()
                        == 0 && self.caches[j].content() == Map::<Seq<u8>, DelAddView>::empty(),
                forall|j: int|
                    0 <= j < b ==> (#[trigger] self.spilled_entries[j]).wf()
                        && self.spilled_entries[j].content() == Map::<
                        Seq<u8>,
                        DelAddView,
                    >::empty(),
                forall|j: int|
                    0 <= j < b ==> (#[trigger] out[j]).wf() && out[j].spec_bucket() == j
                        && out[j].content() == old(self).bucket_content(j),
            decreases n - b,
        {
            let mut resident = SortedMap::new();
            core::mem::swap(&mut self.caches[b], &mut resident);
            let mut sorter = SortedMap::new();
            core::mem::swap(&mut self.spilled_entries[b], &mut sorter);
            proof {
                assert(resident == old(self).caches[b as int]);
                assert(sorter == old(self).spilled_entries[b as int]);
                assert(old(self).caches[b as int].wf());
                assert forall|i: int| 0 <= i < resident.spec_len() implies (
                #[trigger] resident.value_at(i)).wf() by {
                    assert(old(self).caches[b as int].value_at(i).wf());
                }
            }
            let ghost res_content = resident.content();
            let ghost spill_content = sorter.content();
            let frozen = freeze_entries(resident);
            let mut spilled: Vec<SortedMap<Vec<u8>, DelAddRoaringBitmap>> = Vec::new();
            if self.spilling {
                spilled.push(sorter);
            }
            let cache = FrozenCache { bucket: b, cache: FrozenBTreeMap::new(frozen), spilled };
            proof {
                let src = cache.sources();
                lemma_merged_empty(res_content);
                assert(src[0] == res_content);
                assert(merged_upto(src, 0) == Map::<Seq<u8>, DelAddView>::empty());
                assert(merged_upto(src, 1) == res_content);
                if self.spilling {
                    assert(src.len() == 2);
                    assert(src[1] == spill_content);
                    assert(merged_upto(src, 2) == merged_maps(res_content, spill_content));
                } else {
                    assert(src.len() == 1);
                    assert(old(self).spilled(b as int) == Map::<Seq<u8>, DelAddView>::empty());
                }
                assert(cache.content() == old(self).bucket_content(b as int));
            }
            out.push(cache);
            b += 1;
        }
        proof {
            assert forall|j: int, key: Seq<u8>|
                0 <= j < self.caches.len() implies !(#[trigger] self.resident(j).contains_key(
                key,
            )) by {
                assert(self.caches[j].content() == Map::<Seq<u8>, DelAddView>::empty());
            }
            assert forall|j: int, key: Seq<u8>|
                0 <= j < self.caches.len() implies !(#[trigger] self.spilled(j).contains_key(
                key,
            )) by {
                assert(self.spilled_entries[j].content() == Map::<Seq<u8>, DelAddView>::empty());
            }
            assert forall|j: int| 0 <= j < self.caches.len() implies #[trigger] self.spilled(j)
                == Map::<Seq<u8>, DelAddView>::empty() by {
                assert(self.spilled_entries[j].content() == Map::<Seq<u8>, DelAddView>::empty());
            }
            assert forall|key: Seq<u8>| !self.content().contains_key(key) by {
                let j = bucket_of(key, n) as int;
                assert(!self.resident(j).contains_key(key));
                assert(!self.spilled(j).contains_key(key));
            }
            assert(self.content() =~= Map::<Seq<u8>, DelAddView>::empty());
        }
        out
    }
}

/// Freezes the caches of all threads and hands them out by bucket: group `b` holds
/// bucket `b` of every thread, in the order of the threads.
pub fn transpose_and_freeze_caches<'extractor>(caches: &mut Vec<BalancedCaches<'extractor>>) -> (r:
    Vec<Vec<FrozenCache<'extractor>>>)
    requires
        forall|t: int| 0 <= t < old(caches).len() ==> (#[trigger] old(caches)[t]).wf(),
        forall|t: int|
            0 <= t < old(caches).len() ==> (#[trigger] old(caches)[t]).spec_buckets() == old(caches)[0].spec_buckets(),
    ensures
        final(caches).len() == old(caches).len(),
        forall|t: int|
            0 <= t < old(caches).len() ==> (#[trigger] final(caches)[t]).wf() && final(caches)[t].content() == Map::<Seq<u8>, DelAddView>::empty(),
        old(caches).len() == 0 ==> r.len() == 0,
        old(caches).len() > 0 ==> r.len() == old(caches)[0].spec_buckets(),
        forall|b: int| 0 <= b < r.len() ==> (#[trigger] r[b]).len() == old(caches).len(),
        forall|b: int, t: int|
            0 <= b < r.len() && 0 <= t < old(caches).len() ==> (#[trigger] r[b][t]).wf()
                && r[b][t].spec_bucket() == b && r[b][t].content() == old(caches)[t].bucket_content(
                b,
            ),
{
    let width = if caches.len() > 0 {
        caches[0].buckets()
    } else {
        0
    };
    let mut bucket_caches: Vec<Vec<FrozenCache<'extractor>>> = Vec::new();
    let mut w: usize = 0;
    while w < width
        invariant
            w <= width,
            bucket_caches.len() == w,
            forall|b: int| 0 <= b < w ==> (#[trigger] bucket_caches[b]).len() == 0,
        decreases width - w,
    {
        bucket_caches.push(Vec::new());
        w += 1;
    }
    let threads = caches.len();
    let mut t: usize = 0;
    while t < threads
        invariant
            t <= threads,
            threads == old(caches).len(),
            caches.len() == threads,
            threads > 0 ==> width == old(caches)[0].spec_buckets(),
            bucket_caches.len() == width,
            forall|u: int| t <= u < threads ==> (#[trigger] caches[u]) == old(caches)[u],
            forall|u: int| 0 <= u < threads ==> (#[trigger] old(caches)[u]).wf(),
            forall|u: int|
                0 <= u < threads ==> (#[trigger] old(caches)[u]).spec_buckets() == old(caches)[0].spec_buckets(),
            forall|u: int|
                0 <= u < t ==> (#[trigger] caches[u]).wf() && caches[u].content() == Map::<
                    Seq<u8>,
                    DelAddView,
                >::empty(),
            forall|b: int| 0 <= b < width ==> (#[trigger] bucket_caches[b]).len() == t,
            forall|b: int, u: int|
                0 <= b < width && 0 <= u < t ==> (#[trigger] bucket_caches[b][u]).wf()
                    && bucket_caches[b][u].spec_bucket() == b && bucket_caches[b][u].content()
                    == old(caches)[u].bucket_content(b),
        decreases threads - t,
    {
        let mut frozen = caches[t].freeze();
        let ghost all = frozen@;
        while frozen.len() > 0
            invariant
                frozen.len() <= width,
                all.len() == width,
                bucket_caches.len() == width,
                t < threads,
                forall|b: int| 0 <= b < frozen.len() ==> (#[trigger] frozen[b]) == all[b],
                forall|b: int|
                    0 <= b < width ==> (#[trigger] all[b]).wf() && all[b].spec_bucket() == b
                        && all[b].content() == old(caches)[t as int].bucket_content(b),
                forall|b: int|
                    0 <= b < frozen.len() ==> (#[trigger] bucket_caches[b]).len() == t,
                forall|b: int|
                    frozen.len() <= b < width ==> (#[trigger] bucket_caches[b]).len() == t + 1,
                forall|b: int, u: int|
                    0 <= b < width && 0 <= u < t ==> (#[trigger] bucket_caches[b][u]).wf()
                        && bucket_caches[b][u].spec_bucket() == b && bucket_caches[b][u].content()
                        == old(caches)[u].bucket_content(b),
                forall|b: int|
                    frozen.len() <= b < width ==> (#[trigger] bucket_caches[b][t as int]).wf()
                        && bucket_caches[b][t as int].spec_bucket() == b
                        && bucket_caches[b][t as int].content() == old(caches)[t as int].bucket_content(b),
            decreases frozen.len(),
        {
            let ghost before = bucket_caches@;
            let cache = frozen.pop().unwrap();
            let b = cache.bucket();
            assert(b == frozen.len());
            bucket_caches[b].push(cache);
            proof {
                assert forall|c: int, u: int| 0 <= c < width && 0 <= u < t implies (
                #[trigger] bucket_caches[c][u]).wf() && bucket_caches[c][u].spec_bucket() == c
                    && bucket_caches[c][u].content() == old(caches)[u].bucket_content(c) by {
                    assert(bucket_caches[c][u] == before[c][u]);
                }
                assert forall|c: int| frozen.len() <= c < width implies (
                #[trigger] bucket_caches[c][t as int]).wf() && bucket_caches[c][t as int].spec_bucket()
                    == c && bucket_caches[c][t as int].content() == old(caches)[t as int].bucket_content(c) by {
                    if c != b {
                        assert(bucket_caches[c] == before[c]);
                        assert(before[c][t as int].wf());
                    }
                }
            }
        }
        t += 1;
    }
    bucket_caches
}

/// The first `n` caches of a list, merged from first to last.
pub open spec fn merged_caches(frozen: Seq<FrozenCache<'_>>, n: int) -> Map<Seq<u8>, DelAddView>
    decreases n,
{
    if n <= 0 {
        Map::empty()
    } else {
        merged_maps(merged_caches(frozen, n - 1), frozen[n - 1].content())
    }
}

fn cache_run<'extractor>(cache: FrozenCache<'extractor>) -> (r: SortedMap<
    Vec<u8>,
    DelAddRoaringBitmap,
>)
    requires
        cache.wf(),
    ensures
        r.wf(),
        r.content() == cache.content(),
{
    let ghost src = cache.sources();
    let FrozenCache { bucket: _, cache: resident, spilled } = cache;
    let first = drain_entries(resident);
    let mut run = merge_two(&SortedMap::new(), &first);
    assert(run.content() == merged_upto(src, 1)) by {
        assert(src[0] == first.content());
        assert(merged_upto(src, 0) == Map::<Seq<u8>, DelAddView>::empty());
    }
    let mut i: usize = 0;
    while i < spilled.len()
        invariant
            i <= spilled.len(),
            src.len() == spilled.len() + 1,
            run.wf(),
            forall|j: int| 0 <= j < spilled.len() ==> (#[trigger] spilled[j]).wf(),
            forall|j: int| 0 <= j < spilled.len() ==> src[j + 1] == (#[trigger] spilled[j]).content(),
            run.content() == merged_upto(src, i + 1),
        decreases spilled.len() - i,
    {
        assert(src[i + 1] == spilled[i as int].content());
        run = merge_two(&run, &spilled[i]);
        i += 1;
    }
    run
}

/// Merges the caches of one bucket, one from each thread, into one list of deltas
/// in strictly ascending order of key.
///
/// Every key that a cache holds comes out once, with the deltas that the caches
/// hold for it merged. The caches must all be of the same bucket.
pub fn merge_caches_sorted<'extractor>(frozen: Vec<FrozenCache<'extractor>>) -> (r: Vec<
    (Vec<u8>, DelAddRoaringBitmap),
>)
    requires
        forall|i: int| 0 <= i < frozen.len() ==> (#[trigger] frozen[i]).wf(),
        forall|i: int, j: int|
            0 <= i < frozen.len() && 0 <= j < frozen.len() ==> (#[trigger] frozen[i]).spec_bucket()
                == (#[trigger] frozen[j]).spec_bucket(),
    ensures
        keys_ascending(r@),
        content_of(r@) == merged_caches(frozen@, frozen.len() as int),
{
    let mut frozen = frozen;
    let ghost all = frozen@;
    let total = frozen.len();
    assert(all.len() == total);
    let mut merged: SortedMap<Vec<u8>, DelAddRoaringBitmap> = SortedMap::new();
    let mut reversed: Vec<FrozenCache<'extractor>> = Vec::new();
    while frozen.len() > 0
        invariant
            all.len() <= usize::MAX,
            frozen.len() + reversed.len() == all.len(),
            forall|i: int| 0 <= i < frozen.len() ==> (#[trigger] frozen[i]) == all[i],
            forall|i: int|
                0 <= i < reversed.len() ==> (#[trigger] reversed[i]) == all[all.len() - 1 - i],
        decreases frozen.len(),
    {
        let cache = frozen.pop().unwrap();
        reversed.push(cache);
    }
    let mut done: usize = 0;
    while reversed.len() > 0
        invariant
            all.len() <= usize::MAX,
            done + reversed.len() == all.len(),
            forall|i: int|
                0 <= i < reversed.len() ==> (#[trigger] reversed[i]) == all[all.len() - 1 - i],
            forall|i: int| 0 <= i < all.len() ==> (#[trigger] all[i]).wf(),
            merged.wf(),
            merged.content() == merged_caches(all, done as int),
        decreases reversed.len(),
    {
        let cache = reversed.pop().unwrap();
        assert(cache == all[done as int]);
        let run = cache_run(cache);
        merged = merge_two(&merged, &run);
        done += 1;
    }
    merged.into_entries()
}

/// In a list of deltas in strictly ascending order of key, no key comes twice.
pub proof fn lemma_ascending_keys_are_distinct<K: ByteKey, V>(entries: Seq<(K, V)>, i: int, j: int)
    requires
        keys_ascending(entries),
        0 <= i < entries.len(),
        0 <= j < entries.len(),
        i != j,
    ensures
        entries[i].0.bytes() != entries[j].0.bytes(),
{
    if i < j {
        assert(bytes_less(entries[i].0.bytes(), entries[j].0.bytes()));
        lemma_bytes_order(entries[i].0.bytes(), entries[j].0.bytes(), entries[i].0.bytes());
    } else {
        assert(bytes_less(entries[j].0.bytes(), entries[i].0.bytes()));
        lemma_bytes_order(entries[j].0.bytes(), entries[i].0.bytes(), entries[j].0.bytes());
    }
}

/// What the caches of one bucket hold for a key once merged: the key is there when
/// one of the caches has it, and each side of its delta is the union of that side
/// over the caches. So the merged output holds, for every key, exactly the
/// identifiers that some thread was asked to put in, and exactly those that some
/// thread was asked to take out, however the inserts were spread over the threads
/// and whether or when any of them spilled.
pub proof fn lemma_merged_caches(frozen: Seq<FrozenCache<'_>>, n: int, key: Seq<u8>)
    requires
        0 <= n <= frozen.len(),
    ensures
        merged_caches(frozen, n).contains_key(key) <==> exists|i: int|
            0 <= i < n && (#[trigger] frozen[i]).content().contains_key(key),
        forall|v: u32|
            crate::del_add::side(view_at(merged_caches(frozen, n), key).add).contains(v)
                <==> exists|i: int|
                0 <= i < n && crate::del_add::side(
                    view_at((#[trigger] frozen[i]).content(), key).add,
                ).contains(v),
        forall|v: u32|
            crate::del_add::side(view_at(merged_caches(frozen, n), key).del).contains(v)
                <==> exists|i: int|
                0 <= i < n && crate::del_add::side(
                    view_at((#[trigger] frozen[i]).content(), key).del,
                ).contains(v),
    decreases n,
{
    let maps = Seq::new(frozen.len(), |i: int| frozen[i].content());
    lemma_merged_caches_as_maps(frozen, n);
    lemma_merged_upto(maps, n, key);
    if merged_caches(frozen, n).contains_key(key) {
        let i = choose|i: int| 0 <= i < n && (#[trigger] maps[i]).contains_key(key);
        assert(frozen[i].content().contains_key(key));
    }
    if exists|i: int| 0 <= i < n && (#[trigger] frozen[i]).content().contains_key(key) {
        let i = choose|i: int| 0 <= i < n && (#[trigger] frozen[i]).content().contains_key(key);
        assert(maps[i].contains_key(key));
    }
    assert forall|v: u32|
        crate::del_add::side(view_at(merged_caches(frozen, n), key).add).contains(v) <==> exists|
            i: int,
        |
            0 <= i < n && crate::del_add::side(
                view_at((#[trigger] frozen[i]).content(), key).add,
            ).contains(v) by {
        if crate::del_add::side(view_at(merged_caches(frozen, n), key).add).contains(v) {
            let i = choose|i: int|
                0 <= i < n && crate::del_add::side(#[trigger] view_at(maps[i], key).add).contains(
                    v,
                );
            assert(crate::del_add::side(view_at(frozen[i].content(), key).add).contains(v));
        }
        if exists|i: int|
            0 <= i < n && crate::del_add::side(
                view_at((#[trigger] frozen[i]).content(), key).add,
            ).contains(v) {
            let i = choose|i: int|
                0 <= i < n && crate::del_add::side(
                    view_at((#[trigger] frozen[i]).content(), key).add,
                ).contains(v);
            assert(crate::del_add::side(view_at(maps[i], key).add).contains(v));
        }
    }
    assert forall|v: u32|
        crate::del_add::side(view_at(merged_caches(frozen, n), key).del).contains(v) <==> exists|
            i: int,
        |
            0 <= i < n && crate::del_add::side(
                view_at((#[trigger] frozen[i]).content(), key).del,
            ).contains(v) by {
        if crate::del_add::side(view_at(merged_caches(frozen, n), key).del).contains(v) {
            let i = choose|i: int|
                0 <= i < n && crate::del_add::side(#[trigger] view_at(maps[i], key).del).contains(
                    v,
                );
            assert(crate::del_add::side(view_at(frozen[i].content(), key).del).contains(v));
        }
        if exists|i: int|
            0 <= i < n && crate::del_add::side(
                view_at((#[trigger] frozen[i]).content(), key).del,
            ).contains(v) {
            let i = choose|i: int|
                0 <= i < n && crate::del_add::side(
                    view_at((#[trigger] frozen[i]).content(), key).del,
                ).contains(v);
            assert(crate::del_add::side(view_at(maps[i], key).del).contains(v));
        }
    }
}

proof fn lemma_merged_caches_as_maps(frozen: Seq<FrozenCache<'_>>, n: int)
    requires
        0 <= n <= frozen.len(),
    ensures
        merged_caches(frozen, n) == merged_upto(
            Seq::new(frozen.len(), |i: int| frozen[i].content()),
            n,
        ),
    decreases n,
{
    if n > 0 {
        lemma_merged_caches_as_maps(frozen, n - 1);
    }
}

/// Asking an identifier of a key changes, of what a cache holds, one side of the
/// delta of that key by that identifier, and nothing else.
pub proof fn lemma_with_insert(
    m: Map<Seq<u8>, DelAddView>,
    key: Seq<u8>,
    n: u32,
    add: bool,
    other: Seq<u8>,
)
    ensures
        with_insert(m, key, n, add).contains_key(key),
        crate::del_add::side(view_at(with_insert(m, key, n, true), key).add)
            == crate::del_add::side(view_at(m, key).add).insert(n),
        crate::del_add::side(view_at(with_insert(m, key, n, true), key).del)
            == crate::del_add::side(view_at(m, key).del),
        crate::del_add::side(view_at(with_insert(m, key, n, false), key).del)
            == crate::del_add::side(view_at(m, key).del).insert(n),
        crate::del_add::side(view_at(with_insert(m, key, n, false), key).add)
            == crate::del_add::side(view_at(m, key).add),
        other != key ==> view_at(with_insert(m, key, n, add), other) == view_at(m, other)
            && with_insert(m, key, n, add).contains_key(other) == m.contains_key(other),
{
    assert(crate::del_add::side(view_at(with_insert(m, key, n, true), key).add)
        =~= crate::del_add::side(view_at(m, key).add).insert(n));
    assert(crate::del_add::side(view_at(with_insert(m, key, n, false), key).del)
        =~= crate::del_add::side(view_at(m, key).del).insert(n));
}

/// What comes out of the merge is what went in: for a key of bucket `b`, the
/// merged output of the group of bucket `b` puts in exactly the identifiers that
/// some thread was asked to put in for the key, and takes out exactly those that
/// some thread was asked to take out, whatever the order of the inserts, however
/// they were spread over the threads, and whether or when a thread spilled.
pub proof fn lemma_merged_output_is_what_was_inserted(
    caches: Seq<BalancedCaches<'_>>,
    group: Seq<FrozenCache<'_>>,
    key: Seq<u8>,
    b: int,
)
    requires
        group.len() == caches.len(),
        forall|t: int|
            0 <= t < caches.len() ==> b == bucket_of(
                key,
                (#[trigger] caches[t]).spec_buckets() as usize,
            ),
        forall|t: int|
            0 <= t < caches.len() ==> (#[trigger] group[t]).content() == caches[t].bucket_content(b),
    ensures
        merged_caches(group, group.len() as int).contains_key(key) <==> exists|t: int|
            0 <= t < caches.len() && (#[trigger] caches[t]).content().contains_key(key),
        forall|v: u32|
            crate::del_add::side(
                view_at(merged_caches(group, group.len() as int), key).add,
            ).contains(v) <==> exists|t: int|
                0 <= t < caches.len() && crate::del_add::side(
                    view_at((#[trigger] caches[t]).content(), key).add,
                ).contains(v),
        forall|v: u32|
            crate::del_add::side(
                view_at(merged_caches(group, group.len() as int), key).del,
            ).contains(v) <==> exists|t: int|
                0 <= t < caches.len() && crate::del_add::side(
                    view_at((#[trigger] caches[t]).content(), key).del,
                ).contains(v),
{
    let n = group.len() as int;
    lemma_merged_caches(group, n, key);
    assert forall|t: int| 0 <= t < n implies view_at(#[trigger] group[t].content(), key)
        == view_at(caches[t].content(), key) && group[t].content().contains_key(key)
        == caches[t].content().contains_key(key) by {
        assert(group[t].content() == caches[t].bucket_content(b));
    }
    if merged_caches(group, n).contains_key(key) {
        let t = choose|t: int| 0 <= t < n && (#[trigger] group[t]).content().contains_key(key);
        assert(caches[t].content().contains_key(key));
    }
    if exists|t: int| 0 <= t < caches.len() && (#[trigger] caches[t]).content().contains_key(key) {
        let t = choose|t: int|
            0 <= t < caches.len() && (#[trigger] caches[t]).content().contains_key(key);
        assert(group[t].content().contains_key(key));
    }
    assert forall|v: u32|
        crate::del_add::side(view_at(merged_caches(group, n), key).add).contains(v) <==> exists|
            t: int,
        |
            0 <= t < caches.len() && crate::del_add::side(
                view_at((#[trigger] caches[t]).content(), key).add,
            ).contains(v) by {
        if crate::del_add::side(view_at(merged_caches(group, n), key).add).contains(v) {
            let t = choose|t: int|
                0 <= t < n && crate::del_add::side(
                    view_at((#[trigger] group[t]).content(), key).add,
                ).contains(v);
            assert(crate::del_add::side(view_at(caches[t].content(), key).add).contains(v));
        }
        if exists|t: int|
            0 <= t < caches.len() && crate::del_add::side(
                view_at((#[trigger] caches[t]).content(), key).add,
            ).contains(v) {
            let t = choose|t: int|
                0 <= t < caches.len() && crate::del_add::side(
                    view_at((#[trigger] caches[t]).content(), key).add,
                ).contains(v);
            assert(crate::del_add::side(view_at(group[t].content(), key).add).contains(v));
        }
    }
    assert forall|v: u32|
        crate::del_add::side(view_at(merged_caches(group, n), key).del).contains(v) <==> exists|
            t: int,
        |
            0 <= t < caches.len() && crate::del_add::side(
                view_at((#[trigger] caches[t]).content(), key).del,
            ).contains(v) by {
        if crate::del_add::side(view_at(merged_caches(group, n), key).del).contains(v) {
            let t = choose|t: int|
                0 <= t < n && crate::del_add::side(
                    view_at((#[trigger] group[t]).content(), key).del,
                ).contains(v);
            assert(crate::del_add::side(view_at(caches[t].content(), key).del).contains(v));
        }
        if exists|t: int|
            0 <= t < caches.len() && crate::del_add::side(
                view_at((#[trigger] caches[t]).content(), key).del,
            ).contains(v) {
            let t = choose|t: int|
                0 <= t < caches.len() && crate::del_add::side(
                    view_at((#[trigger] caches[t]).content(), key).del,
                ).contains(v);
            assert(crate::del_add::side(view_at(group[t].content(), key).del).contains(v));
        }
    }
}

} // verus!

//! Maps from byte strings to deltas, kept in ascending order of key.

use crate::del_add::{DelAddBbbul, DelAddRoaringBitmap, DelAddView, FrozenDelAddBbbul};
use crate::order::{
    byte_ints, bytes_less, compare_bytes, lemma_byte_ints_injective, lemma_lex_asymmetric,
    lemma_lex_irreflexive, lemma_lex_total, lemma_lex_transitive, Rank,
};
use vstd::prelude::*;

verus! {

/// A key that is read as a byte string.
pub trait ByteKey: Sized {
    spec fn bytes(&self) -> Seq<u8>;

    fn as_bytes(&self) -> (r: &[u8])
        ensures
            r@ == self.bytes(),
    ;
}

impl<'a> ByteKey for &'a [u8] {
    open spec fn bytes(&self) -> Seq<u8> {
        self@
    }

    fn as_bytes(&self) -> (r: &[u8]) {
        *self
    }
}

impl ByteKey for Vec<u8> {
    open spec fn bytes(&self) -> Seq<u8> {
        self@
    }

    fn as_bytes(&self) -> (r: &[u8]) {
        self.as_slice()
    }
}

/// A value that stands for a delta.
pub trait Delta: Sized {
    spec fn delta(&self) -> DelAddView;
}

impl<'bump> Delta for DelAddBbbul<'bump> {
    open spec fn delta(&self) -> DelAddView {
        self@
    }
}

impl<'bump> Delta for FrozenDelAddBbbul<'bump> {
    open spec fn delta(&self) -> DelAddView {
        self@
    }
}

impl Delta for DelAddRoaringBitmap {
    open spec fn delta(&self) -> DelAddView {
        self@
    }
}

/// The keys of the entries are in strictly ascending order.
pub open spec fn keys_ascending<K: ByteKey, V>(entries: Seq<(K, V)>) -> bool {
    forall|i: int, j: int|
        0 <= i < j < entries.len() ==> bytes_less(
            (#[trigger] entries[i]).0.bytes(),
            (#[trigger] entries[j]).0.bytes(),
        )
}

/// What the entries map each key to.
pub open spec fn content_of<K: ByteKey, V: Delta>(entries: Seq<(K, V)>) -> Map<
    Seq<u8>,
    DelAddView,
> {
    Map::new(
        |key: Seq<u8>| exists|i: int| 0 <= i < entries.len() && (#[trigger] entries[i]).0.bytes() == key,
        |key: Seq<u8>|
            entries[choose|i: int|
                0 <= i < entries.len() && (#[trigger] entries[i]).0.bytes() == key].1.delta(),
    )
}

/// In ascending entries a key stands at one place only.
pub proof fn lemma_content_at<K: ByteKey, V: Delta>(entries: Seq<(K, V)>, i: int)
    requires
        keys_ascending(entries),
        0 <= i < entries.len(),
    ensures
        content_of(entries).contains_key(entries[i].0.bytes()),
        content_of(entries)[entries[i].0.bytes()] == entries[i].1.delta(),
{
    let key = entries[i].0.bytes();
    let j = choose|j: int| 0 <= j < entries.len() && (#[trigger] entries[j]).0.bytes() == key;
    if j != i {
        lemma_lex_irreflexive(byte_ints(key));
        if j < i {
            assert(bytes_less(entries[j].0.bytes(), entries[i].0.bytes()));
        } else {
            assert(bytes_less(entries[i].0.bytes(), entries[j].0.bytes()));
        }
    }
}

/// A map from byte strings to deltas, in ascending order of key.
pub struct SortedMap<K: ByteKey, V: Delta> {
    entries: Vec<(K, V)>,
}

impl<K: ByteKey, V: Delta> SortedMap<K, V> {
    pub closed spec fn wf(&self) -> bool {
        keys_ascending(self.entries@)
    }

    pub closed spec fn spec_len(&self) -> nat {
        self.entries@.len()
    }

    pub closed spec fn key_at(&self, i: int) -> Seq<u8> {
        self.entries[i].0.bytes()
    }

    pub closed spec fn value_at(&self, i: int) -> V {
        self.entries[i].1
    }

    /// What the map maps each key to.
    pub closed spec fn content(&self) -> Map<Seq<u8>, DelAddView> {
        content_of(self.entries@)
    }

    /// The keys ascend, and the content is what stands at the places.
    pub proof fn lemma_places(&self)
        requires
            self.wf(),
        ensures
            forall|i: int, j: int|
                0 <= i < j < self.spec_len() ==> bytes_less(
                    #[trigger] self.key_at(i),
                    #[trigger] self.key_at(j),
                ),
            forall|i: int|
                0 <= i < self.spec_len() ==> self.content().contains_key(#[trigger] self.key_at(i))
                    && self.content()[self.key_at(i)] == self.value_at(i).delta(),
            forall|key: Seq<u8>|
                self.content().contains_key(key) ==> exists|i: int|
                    0 <= i < self.spec_len() && #[trigger] self.key_at(i) == key,
    {
        assert forall|i: int| 0 <= i < self.spec_len() implies self.content().contains_key(
            #[trigger] self.key_at(i),
        ) && self.content()[self.key_at(i)] == self.value_at(i).delta() by {
            lemma_content_at(self.entries@, i);
        }
        assert forall|key: Seq<u8>| self.content().contains_key(key) implies exists|i: int|
            0 <= i < self.spec_len() && #[trigger] self.key_at(i) == key by {
            let i = choose|i: int|
                0 <= i < self.entries.len() && (#[trigger] self.entries[i]).0.bytes() == key;
            assert(self.key_at(i) == key);
        }
    }

    pub fn new() -> (r: Self)
        ensures
            r.wf(),
            r.spec_len() == 0,
            r.content() == Map::<Seq<u8>, DelAddView>::empty(),
    {
        let r = SortedMap { entries: Vec::new() };
        assert(r.content() =~= Map::<Seq<u8>, DelAddView>::empty());
        r
    }

    pub fn len(&self) -> (r: usize)
        ensures
            r == self.spec_len(),
    {
        self.entries.len()
    }

    /// The key at a place.
    pub fn key(&self, i: usize) -> (r: &[u8])
        requires
            i < self.spec_len(),
        ensures
            r@ == self.key_at(i as int),
    {
        self.entries[i].0.as_bytes()
    }

    /// The value at a place.
    pub fn value(&self, i: usize) -> (r: &V)
        requires
            i < self.spec_len(),
        ensures
            *r == self.value_at(i as int),
    {
        &self.entries[i].1
    }

    /// Looks a key up: `Ok` with its place, or `Err` with the place where it would go.
    pub fn search(&self, key: &[u8]) -> (r: Result<usize, usize>)
        requires
            self.wf(),
        ensures
            match r {
                Ok(i) => i < self.spec_len() && self.key_at(i as int) == key@
                    && self.content().contains_key(key@) && self.content()[key@] == self.value_at(
                    i as int,
                ).delta(),
                Err(i) => i <= self.spec_len() && !self.content().contains_key(key@) && (forall|
                    j: int,
                |
                    0 <= j < i ==> bytes_less(#[trigger] self.key_at(j), key@)) && (forall|j: int|
                    i <= j < self.spec_len() ==> bytes_less(key@, #[trigger] self.key_at(j))),
            },
    {
        let mut lo: usize = 0;
        let mut hi: usize = self.entries.len();
        while lo < hi
            invariant
                lo <= hi <= self.entries.len(),
                self.wf(),
                forall|j: int| 0 <= j < lo ==> bytes_less(#[trigger] self.key_at(j), key@),
                forall|j: int|
                    hi <= j < self.entries.len() ==> bytes_less(key@, #[trigger] self.key_at(j)),
            decreases hi - lo,
        {
            let mid = lo + (hi - lo) / 2;
            match compare_bytes(self.entries[mid].0.as_bytes(), key) {
                Rank::Same => {
                    proof {
                        lemma_content_at(self.entries@, mid as int);
                    }
                    return Ok(mid);
                },
                Rank::Before => {
                    proof {
                        assert forall|j: int| 0 <= j < mid + 1 implies bytes_less(
                            #[trigger] self.key_at(j),
                            key@,
                        ) by {
                            if j < mid {
                                assert(bytes_less(
                                    self.entries[j].0.bytes(),
                                    self.entries[mid as int].0.bytes(),
                                ));
                                lemma_lex_transitive(
                                    byte_ints(self.key_at(j)),
                                    byte_ints(self.key_at(mid as int)),
                                    byte_ints(key@),
                                );
                            }
                        }
                    }
                    lo = mid + 1;
                },
                Rank::After => {
                    proof {
                        assert forall|j: int| mid <= j < self.entries.len() implies bytes_less(
                            key@,
                            #[trigger] self.key_at(j),
                        ) by {
                            if mid < j {
                                assert(bytes_less(
                                    self.entries[mid as int].0.bytes(),
                                    self.entries[j].0.bytes(),
                                ));
                                lemma_lex_transitive(
                                    byte_ints(key@),
                                    byte_ints(self.key_at(mid as int)),
                                    byte_ints(self.key_at(j)),
                                );
                            }
                        }
                    }
                    hi = mid;
                },
            }
        }
        proof {
            if self.content().contains_key(key@) {
                let j = choose|j: int|
                    0 <= j < self.entries.len() && (#[trigger] self.entries[j]).0.bytes() == key@;
                lemma_lex_irreflexive(byte_ints(key@));
                if j < lo {
                    assert(bytes_less(self.key_at(j), key@));
                } else {
                    assert(bytes_less(key@, self.key_at(j)));
                }
            }
        }
        Err(lo)
    }

    /// Puts a new key at the place where [`SortedMap::search`] said it would go.
    pub fn insert_at(&mut self, i: usize, key: K, value: V)
        requires
            old(self).wf(),
            i <= old(self).spec_len(),
            forall|j: int| 0 <= j < i ==> bytes_less(#[trigger] old(self).key_at(j), key.bytes()),
            forall|j: int|
                i <= j < old(self).spec_len() ==> bytes_less(
                    key.bytes(),
                    #[trigger] old(self).key_at(j),
                ),
        ensures
            final(self).wf(),
            final(self).spec_len() == old(self).spec_len() + 1,
            final(self).content() == old(self).content().insert(key.bytes(), value.delta()),
            final(self).key_at(i as int) == key.bytes(),
            final(self).value_at(i as int) == value,
            forall|j: int|
                0 <= j < i ==> #[trigger] final(self).key_at(j) == old(self).key_at(j)
                    && final(self).value_at(j) == old(self).value_at(j),
            forall|j: int|
                i < j <= old(self).spec_len() ==> #[trigger] final(self).key_at(j) == old(
                    self,
                ).key_at(j - 1) && final(self).value_at(j) == old(self).value_at(j - 1),
    {
        let ghost before = self.entries@;
        let ghost kb = key.bytes();
        let ghost vd = value.delta();
        self.entries.insert(i, (key, value));
        proof {
            let after = self.entries@;
            assert forall|a: int, b: int| 0 <= a < b < after.len() implies bytes_less(
                (#[trigger] after[a]).0.bytes(),
                (#[trigger] after[b]).0.bytes(),
            ) by {
                let a0 = if a < i { a } else { a - 1 };
                let b0 = if b < i { b } else { b - 1 };
                if a == i {
                    assert(after[b] == before[b0]);
                    assert(bytes_less(kb, old(self).key_at(b0)));
                } else if b == i {
                    assert(after[a] == before[a0]);
                    assert(bytes_less(old(self).key_at(a0), kb));
                } else {
                    assert(after[a] == before[a0]);
                    assert(after[b] == before[b0]);
                    assert(bytes_less(before[a0].0.bytes(), before[b0].0.bytes()));
                }
            }
            assert forall|key2: Seq<u8>| #[trigger]
                content_of(after).contains_key(key2) == content_of(before).insert(
                    kb,
                    vd,
                ).contains_key(key2) by {
                if content_of(after).contains_key(key2) {
                    let j = choose|j: int|
                        0 <= j < after.len() && (#[trigger] after[j]).0.bytes() == key2;
                    if j != i {
                        let j0 = if j < i { j } else { j - 1 };
                        assert(before[j0].0.bytes() == key2);
                    }
                }
                if content_of(before).contains_key(key2) {
                    let j = choose|j: int|
                        0 <= j < before.len() && (#[trigger] before[j]).0.bytes() == key2;
                    let j1 = if j < i { j } else { j + 1 };
                    assert(after[j1].0.bytes() == key2);
                }
                if key2 == kb {
                    assert(after[i as int].0.bytes() == key2);
                }
            }
            assert forall|key2: Seq<u8>| content_of(after).contains_key(key2) implies #[trigger]
                content_of(after)[key2] == content_of(before).insert(kb, vd)[key2] by {
                let j = choose|j: int|
                    0 <= j < after.len() && (#[trigger] after[j]).0.bytes() == key2;
                lemma_content_at(after, j);
                if j != i {
                    let j0 = if j < i { j } else { j - 1 };
                    assert(before[j0].0.bytes() == key2);
                    lemma_content_at(before, j0);
                    lemma_lex_irreflexive(byte_ints(kb));
                    if j < i {
                        assert(bytes_less(old(self).key_at(j0), kb));
                    } else {
                        assert(bytes_less(kb, old(self).key_at(j0)));
                    }
                }
            }
            assert(content_of(after) =~= content_of(before).insert(kb, vd));
        }
    }

    /// Puts a new key after all others.
    pub fn push(&mut self, key: K, value: V)
        requires
            old(self).wf(),
            forall|j: int|
                0 <= j < old(self).spec_len() ==> bytes_less(
                    #[trigger] old(self).key_at(j),
                    key.bytes(),
                ),
        ensures
            final(self).wf(),
            final(self).spec_len() == old(self).spec_len() + 1,
            final(self).content() == old(self).content().insert(key.bytes(), value.delta()),
            final(self).key_at(old(self).spec_len() as int) == key.bytes(),
            final(self).value_at(old(self).spec_len() as int) == value,
            forall|j: int|
                0 <= j < old(self).spec_len() ==> #[trigger] final(self).key_at(j) == old(
                    self,
                ).key_at(j) && final(self).value_at(j) == old(self).value_at(j),
    {
        let n = self.entries.len();
        self.insert_at(n, key, value);
    }

    /// The value at a place, to change it. The key stays, and so does every other entry.
    pub fn value_mut(&mut self, i: usize) -> (r: &mut V)
        requires
            old(self).wf(),
            i < old(self).spec_len(),
        ensures
            *r == old(self).value_at(i as int),
            final(self).wf(),
            final(self).spec_len() == old(self).spec_len(),
            final(self).value_at(i as int) == *final(r),
            forall|j: int|
                0 <= j < old(self).spec_len() ==> #[trigger] final(self).key_at(j) == old(
                    self,
                ).key_at(j),
            forall|j: int|
                0 <= j < old(self).spec_len() && j != i ==> #[trigger] final(self).value_at(j)
                    == old(self).value_at(j),
            final(self).content() == old(self).content().insert(
                old(self).key_at(i as int),
                final(r).delta(),
            ),
    {
        proof {
            lemma_value_change::<K, V>();
        }
        &mut self.entries[i].1
    }

    /// The entries, in ascending order of key.
    pub fn into_entries(self) -> (r: Vec<(K, V)>)
        requires
            self.wf(),
        ensures
            keys_ascending(r@),
            content_of(r@) == self.content(),
            r.len() == self.spec_len(),
            forall|i: int|
                0 <= i < r.len() ==> (#[trigger] r[i]).0.bytes() == self.key_at(i) && r[i].1
                    == self.value_at(i),
    {
        self.entries
    }

    /// A map of entries that should be in ascending order of key, as a sorted run
    /// read back from a file is; `None` when they are not.
    pub fn from_run(entries: Vec<(K, V)>) -> (r: Option<Self>)
        ensures
            r is Some <==> keys_ascending(entries@),
            r matches Some(map) ==> map.wf() && map.content() == content_of(entries@)
                && map.spec_len() == entries.len(),
    {
        let mut i: usize = 1;
        while i < entries.len()
            invariant
                1 <= i,
                forall|j: int|
                    0 <= j < i - 1 && j + 1 < entries.len() ==> bytes_less(
                        (#[trigger] entries[j]).0.bytes(),
                        entries[j + 1].0.bytes(),
                    ),
            decreases entries.len() - i,
        {
            match compare_bytes(entries[i - 1].0.as_bytes(), entries[i].0.as_bytes()) {
                Rank::Before => {},
                _ => {
                    proof {
                        if keys_ascending(entries@) {
                            assert(bytes_less(
                                entries[i - 1].0.bytes(),
                                entries[i as int].0.bytes(),
                            ));
                            lemma_bytes_order(
                                entries[i - 1].0.bytes(),
                                entries[i as int].0.bytes(),
                                entries[i - 1].0.bytes(),
                            );
                        }
                    }
                    return None;
                },
            }
            i += 1;
        }
        proof {
            lemma_neighbours_ascend(entries@);
        }
        Some(SortedMap { entries })
    }

    /// A map of entries that are in ascending order of key already.
    pub fn from_entries(entries: Vec<(K, V)>) -> (r: Self)
        requires
            keys_ascending(entries@),
        ensures
            r.wf(),
            r.content() == content_of(entries@),
            r.spec_len() == entries.len(),
            forall|i: int|
                0 <= i < entries.len() ==> #[trigger] r.key_at(i) == entries[i].0.bytes()
                    && r.value_at(i) == entries[i].1,
    {
        SortedMap { entries }
    }
}

/// Changing the value at one place changes the content at its key only.
pub proof fn lemma_value_change<K: ByteKey, V: Delta>()
    ensures
        forall|before: Seq<(K, V)>, i: int, value: V|
            keys_ascending(before) && 0 <= i < before.len() ==> keys_ascending(
                #[trigger] before.update(i, (before[i].0, value)),
            ) && content_of(before.update(i, (before[i].0, value))) == content_of(before).insert(
                before[i].0.bytes(),
                value.delta(),
            ),
{
    assert forall|before: Seq<(K, V)>, i: int, value: V|
        keys_ascending(before) && 0 <= i < before.len() implies keys_ascending(
        #[trigger] before.update(i, (before[i].0, value)),
    ) && content_of(before.update(i, (before[i].0, value))) == content_of(before).insert(
        before[i].0.bytes(),
        value.delta(),
    ) by {
        lemma_value_change_at(before, i, value);
    }
}

pub proof fn lemma_value_change_at<K: ByteKey, V: Delta>(before: Seq<(K, V)>, i: int, value: V)
    requires
        keys_ascending(before),
        0 <= i < before.len(),
    ensures
        keys_ascending(before.update(i, (before[i].0, value))),
        content_of(before.update(i, (before[i].0, value))) == content_of(before).insert(
            before[i].0.bytes(),
            value.delta(),
        ),
{
    let after = before.update(i, (before[i].0, value));
    let kb = before[i].0.bytes();
    assert forall|a: int, b: int| 0 <= a < b < after.len() implies bytes_less(
        (#[trigger] after[a]).0.bytes(),
        (#[trigger] after[b]).0.bytes(),
    ) by {
        assert(bytes_less(before[a].0.bytes(), before[b].0.bytes()));
    }
    assert forall|key2: Seq<u8>| #[trigger]
        content_of(after).contains_key(key2) == content_of(before).insert(
            kb,
            value.delta(),
        ).contains_key(key2) by {
        if content_of(after).contains_key(key2) {
            let j = choose|j: int| 0 <= j < after.len() && (#[trigger] after[j]).0.bytes() == key2;
            assert(before[j].0.bytes() == key2);
        }
        if content_of(before).contains_key(key2) {
            let j = choose|j: int|
                0 <= j < before.len() && (#[trigger] before[j]).0.bytes() == key2;
            assert(after[j].0.bytes() == key2);
        }
        if key2 == kb {
            assert(after[i].0.bytes() == key2);
        }
    }
    assert forall|key2: Seq<u8>| content_of(after).contains_key(key2) implies #[trigger] content_of(
        after,
    )[key2] == content_of(before).insert(kb, value.delta())[key2] by {
        let j = choose|j: int| 0 <= j < after.len() && (#[trigger] after[j]).0.bytes() == key2;
        lemma_content_at(after, j);
        assert(before[j].0.bytes() == key2);
        lemma_content_at(before, j);
    }
    assert(content_of(after) =~= content_of(before).insert(kb, value.delta()));
}

/// Entries whose neighbours ascend ascend throughout.
pub proof fn lemma_neighbours_ascend<K: ByteKey, V>(entries: Seq<(K, V)>)
    requires
        forall|j: int|
            0 <= j && j + 1 < entries.len() ==> bytes_less(
                (#[trigger] entries[j]).0.bytes(),
                entries[j + 1].0.bytes(),
            ),
    ensures
        keys_ascending(entries),
{
    assert forall|i: int, j: int| 0 <= i < j < entries.len() implies bytes_less(
        (#[trigger] entries[i]).0.bytes(),
        (#[trigger] entries[j]).0.bytes(),
    ) by {
        lemma_ascend_between(entries, i, j);
    }
}

proof fn lemma_ascend_between<K: ByteKey, V>(entries: Seq<(K, V)>, i: int, j: int)
    requires
        0 <= i < j < entries.len(),
        forall|p: int|
            0 <= p && p + 1 < entries.len() ==> bytes_less(
                (#[trigger] entries[p]).0.bytes(),
                entries[p + 1].0.bytes(),
            ),
    ensures
        bytes_less(entries[i].0.bytes(), entries[j].0.bytes()),
    decreases j - i,
{
    if j == i + 1 {
        assert(bytes_less(entries[i].0.bytes(), entries[i + 1].0.bytes()));
    } else {
        lemma_ascend_between(entries, i, j - 1);
        assert(bytes_less(entries[j - 1].0.bytes(), entries[j - 1 + 1].0.bytes()));
        lemma_bytes_order(entries[i].0.bytes(), entries[j - 1].0.bytes(), entries[j].0.bytes());
    }
}

/// A byte string comes before another, after it, or is the same.
pub proof fn lemma_bytes_total(a: Seq<u8>, b: Seq<u8>)
    ensures
        bytes_less(a, b) || bytes_less(b, a) || a == b,
{
    lemma_lex_total(byte_ints(a), byte_ints(b));
    if byte_ints(a) == byte_ints(b) {
        lemma_byte_ints_injective(a, b);
    }
}

/// The order of byte strings is transitive and never holds both ways.
pub proof fn lemma_bytes_order(a: Seq<u8>, b: Seq<u8>, c: Seq<u8>)
    ensures
        bytes_less(a, b) && bytes_less(b, c) ==> bytes_less(a, c),
        bytes_less(a, b) ==> !bytes_less(b, a) && a != b,
{
    if bytes_less(a, b) {
        lemma_lex_asymmetric(byte_ints(a), byte_ints(b));
        if bytes_less(b, c) {
            lemma_lex_transitive(byte_ints(a), byte_ints(b), byte_ints(c));
        }
    }
}

} // verus!

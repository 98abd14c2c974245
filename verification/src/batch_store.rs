//! The batches on record, with the tables that index them.

use crate::batches::{Batch, BatchView, ProcessingBatch};
use crate::bitmap::{bitmap_insert, bitmap_new, members};
use crate::table::{Table, TableKey};
use crate::tasks::{BatchId, Error, Kind, Status};
use roaring::RoaringBitmap;
use vstd::prelude::*;

verus! {

/// The records are in ascending order of identifier, none twice.
pub open spec fn batches_sorted(s: Seq<Batch>) -> bool {
    forall|i: int, j: int| 0 <= i < j < s.len() ==> (#[trigger] s[i]).uid < (#[trigger] s[j]).uid
}

/// The records as a map from identifier to content.
pub open spec fn batch_map(s: Seq<Batch>) -> Map<BatchId, BatchView> {
    Map::new(
        |uid: BatchId| exists|i: int| 0 <= i < s.len() && (#[trigger] s[i]).uid == uid,
        |uid: BatchId| s[choose|i: int| 0 <= i < s.len() && (#[trigger] s[i]).uid == uid]@,
    )
}

pub proof fn lemma_batch_map_at(s: Seq<Batch>, i: int)
    requires
        batches_sorted(s),
        0 <= i < s.len(),
    ensures
        batch_map(s).contains_key(s[i].uid),
        batch_map(s)[s[i].uid] == s[i]@,
{
    let uid = s[i].uid;
    let j = choose|j: int| 0 <= j < s.len() && (#[trigger] s[j]).uid == uid;
    assert(j == i) by {
        if j < i {
            assert(s[j].uid < s[i].uid);
        }
        if i < j {
            assert(s[i].uid < s[j].uid);
        }
    }
}

pub proof fn lemma_batch_map_push(s: Seq<Batch>, b: Batch)
    requires
        batches_sorted(s),
        forall|i: int| 0 <= i < s.len() ==> (#[trigger] s[i]).uid < b.uid,
    ensures
        batches_sorted(s.push(b)),
        batch_map(s.push(b)) == batch_map(s).insert(b.uid, b@),
{
    let s2 = s.push(b);
    assert(batches_sorted(s2));
    assert forall|uid: BatchId| #[trigger]
        batch_map(s2).contains_key(uid) == batch_map(s).insert(b.uid, b@).contains_key(uid) by {
        if batch_map(s2).contains_key(uid) {
            let i = choose|i: int| 0 <= i < s2.len() && (#[trigger] s2[i]).uid == uid;
            if i < s.len() {
                assert(s[i].uid == uid);
            }
        }
        if batch_map(s).contains_key(uid) {
            let i = choose|i: int| 0 <= i < s.len() && (#[trigger] s[i]).uid == uid;
            assert(s2[i].uid == uid);
        }
        if uid == b.uid {
            assert(s2[s.len() as int].uid == uid);
        }
    }
    assert forall|uid: BatchId| batch_map(s2).contains_key(uid) implies #[trigger] batch_map(
        s2,
    )[uid] == batch_map(s).insert(b.uid, b@)[uid] by {
        let i = choose|i: int| 0 <= i < s2.len() && (#[trigger] s2[i]).uid == uid;
        lemma_batch_map_at(s2, i);
        if i < s.len() {
            assert(s[i].uid == uid);
            lemma_batch_map_at(s, i);
        }
    }
    assert(batch_map(s2) =~= batch_map(s).insert(b.uid, b@));
}

/// The batches on record.
pub struct BatchStore {
    all_batches: Vec<Batch>,
    status: Table<Status>,
    kind: Table<Kind>,
    index: Table<String>,
    enqueued_at: Table<i128>,
    started_at: Table<i128>,
    finished_at: Table<i128>,
}

impl BatchStore {
    /// Every batch on record, by identifier.
    pub closed spec fn batches(&self) -> Map<BatchId, BatchView> {
        batch_map(self.all_batches@)
    }

    pub closed spec fn by_status(&self, status: Status) -> Set<BatchId> {
        self.status.ids(status)
    }

    pub closed spec fn by_kind(&self, kind: Kind) -> Set<BatchId> {
        self.kind.ids(kind)
    }

    pub closed spec fn by_index(&self, name: Seq<char>) -> Set<BatchId> {
        self.index.ids(name)
    }

    pub closed spec fn by_enqueued_at(&self, at: i128) -> Set<BatchId> {
        self.enqueued_at.ids(at)
    }

    pub closed spec fn by_started_at(&self, at: i128) -> Set<BatchId> {
        self.started_at.ids(at)
    }

    pub closed spec fn by_finished_at(&self, at: i128) -> Set<BatchId> {
        self.finished_at.ids(at)
    }

    /// The identifier that the next batch gets: one more than the greatest on record.
    pub closed spec fn next_uid(&self) -> int {
        if self.all_batches.len() == 0 {
            0
        } else {
            self.all_batches[self.all_batches.len() - 1].uid + 1
        }
    }

    /// The records are in order and sound, and the tables name batches on record only.
    pub closed spec fn wf(&self) -> bool {
        &&& batches_sorted(self.all_batches@)
        &&& forall|i: int| 0 <= i < self.all_batches.len() ==> (#[trigger] self.all_batches[i]).wf()
        &&& self.status.wf()
        &&& self.kind.wf()
        &&& self.index.wf()
        &&& self.enqueued_at.wf()
        &&& self.started_at.wf()
        &&& self.finished_at.wf()
        &&& forall|k: Status, id: BatchId| #[trigger]
            self.status.has(k, id) ==> self.batches().contains_key(id)
        &&& forall|k: Kind, id: BatchId| #[trigger]
            self.kind.has(k, id) ==> self.batches().contains_key(id)
        &&& forall|k: Seq<char>, id: BatchId| #[trigger]
            self.index.has(k, id) ==> self.batches().contains_key(id)
        &&& forall|k: i128, id: BatchId| #[trigger]
            self.enqueued_at.has(k, id) ==> self.batches().contains_key(id)
        &&& forall|k: i128, id: BatchId| #[trigger]
            self.started_at.has(k, id) ==> self.batches().contains_key(id)
        &&& forall|k: i128, id: BatchId| #[trigger]
            self.finished_at.has(k, id) ==> self.batches().contains_key(id)
    }

    /// What the store holds once the finished batch `batch` was put on record in the
    /// store `before`: its record, and its identifier under each of its statuses,
    /// kinds and indexes, under the enqueue times of its oldest and its youngest task,
    /// and under its own start and finish times.
    pub open spec fn holds_after(
        &self,
        before: &BatchStore,
        batch: crate::batches::ProcessingBatchView,
    ) -> bool {
        &&& self.batches() == before.batches().insert(batch.uid, batch.as_batch())
        &&& forall|k: Status, id: BatchId|
            #[trigger] self.by_status(k).contains(id) == (before.by_status(k).contains(id) || (id
                == batch.uid && batch.statuses.contains(k)))
        &&& forall|k: Kind, id: BatchId|
            #[trigger] self.by_kind(k).contains(id) == (before.by_kind(k).contains(id) || (id
                == batch.uid && batch.kinds.contains(k)))
        &&& forall|k: Seq<char>, id: BatchId|
            #[trigger] self.by_index(k).contains(id) == (before.by_index(k).contains(id) || (id
                == batch.uid && batch.indexes.contains(k)))
        &&& forall|k: i128, id: BatchId|
            #[trigger] self.by_enqueued_at(k).contains(id) == (before.by_enqueued_at(k).contains(
                id,
            ) || (id == batch.uid && (batch.oldest_enqueued_at == Some(k)
                || batch.earliest_enqueued_at == Some(k))))
        &&& forall|k: i128, id: BatchId|
            #[trigger] self.by_started_at(k).contains(id) == (before.by_started_at(k).contains(id)
                || (id == batch.uid && batch.started_at == k))
        &&& forall|k: i128, id: BatchId|
            #[trigger] self.by_finished_at(k).contains(id) == (before.by_finished_at(k).contains(
                id,
            ) || (id == batch.uid && batch.finished_at == Some(k)))
    }

    /// The tables name no batch that is not on record.
    pub proof fn lemma_tables_name_batches(&self, id: BatchId)
        requires
            self.wf(),
            !self.batches().contains_key(id),
        ensures
            forall|k: Status| !self.by_status(k).contains(id),
            forall|k: Kind| !self.by_kind(k).contains(id),
            forall|k: Seq<char>| !self.by_index(k).contains(id),
            forall|k: i128| !self.by_enqueued_at(k).contains(id),
            forall|k: i128| !self.by_started_at(k).contains(id),
            forall|k: i128| !self.by_finished_at(k).contains(id),
    {
    }

    /// Identifiers are given in order: every batch on record is below the next
    /// identifier, which is 0 exactly when nothing is on record.
    pub proof fn lemma_next_uid(&self)
        requires
            self.wf(),
        ensures
            0 <= self.next_uid() <= u32::MAX + 1,
            forall|uid: BatchId| self.batches().contains_key(uid) ==> uid < self.next_uid(),
            self.next_uid() == 0 <==> self.batches().dom() == Set::<BatchId>::empty(),
            self.next_uid() > 0 ==> self.batches().contains_key((self.next_uid() - 1) as u32),
    {
        let s = self.all_batches@;
        assert forall|uid: BatchId| self.batches().contains_key(uid) implies uid
            < self.next_uid() by {
            let i = choose|i: int| 0 <= i < s.len() && (#[trigger] s[i]).uid == uid;
            if i < s.len() - 1 {
                assert(s[i].uid < s[s.len() - 1].uid);
            }
        }
        if s.len() == 0 {
            assert(self.batches().dom() =~= Set::<BatchId>::empty());
        } else {
            lemma_batch_map_at(s, s.len() - 1);
            assert(self.batches().dom().contains(s[s.len() - 1].uid));
        }
    }

    pub fn new() -> (r: Self)
        ensures
            r.wf(),
            r.batches() == Map::<BatchId, BatchView>::empty(),
    {
        let r = BatchStore {
            all_batches: Vec::new(),
            status: Table::new(),
            kind: Table::new(),
            index: Table::new(),
            enqueued_at: Table::new(),
            started_at: Table::new(),
            finished_at: Table::new(),
        };
        assert(r.batches() =~= Map::<BatchId, BatchView>::empty());
        r
    }

    /// The identifier that the next batch gets.
    pub fn next_batch_id(&self) -> (r: Result<BatchId, Error>)
        requires
            self.wf(),
        ensures
            match r {
                Ok(next) => next == self.next_uid(),
                Err(e) => e == Error::TaskIdsExhausted && self.next_uid() == u32::MAX + 1,
            },
    {
        let n = self.all_batches.len();
        if n == 0 {
            Ok(0)
        } else {
            let last = self.all_batches[n - 1].uid;
            if last == u32::MAX {
                Err(Error::TaskIdsExhausted)
            } else {
                Ok(last + 1)
            }
        }
    }

    /// The batch with this identifier, if it is on record.
    pub fn get_batch(&self, uid: BatchId) -> (r: Option<&Batch>)
        requires
            self.wf(),
        ensures
            match r {
                Some(batch) => self.batches().contains_key(uid) && self.batches()[uid] == batch@
                    && batch.wf(),
                None => !self.batches().contains_key(uid),
            },
    {
        let mut i: usize = 0;
        while i < self.all_batches.len()
            invariant
                i <= self.all_batches.len(),
                self.wf(),
                forall|j: int| 0 <= j < i ==> (#[trigger] self.all_batches[j]).uid != uid,
            decreases self.all_batches.len() - i,
        {
            if self.all_batches[i].uid == uid {
                proof {
                    lemma_batch_map_at(self.all_batches@, i as int);
                }
                return Some(&self.all_batches[i]);
            }
            i += 1;
        }
        None
    }

    /// The identifiers of all batches on record.
    pub fn all_batch_ids(&self) -> (r: RoaringBitmap)
        requires
            self.wf(),
        ensures
            members(r) == self.batches().dom(),
    {
        let mut r = bitmap_new();
        let mut i: usize = 0;
        while i < self.all_batches.len()
            invariant
                i <= self.all_batches.len(),
                forall|id: BatchId|
                    #[trigger] members(r).contains(id) <==> exists|j: int|
                        0 <= j < i && (#[trigger] self.all_batches[j]).uid == id,
            decreases self.all_batches.len() - i,
        {
            let ghost prev = members(r);
            bitmap_insert(&mut r, self.all_batches[i].uid);
            proof {
                assert forall|id: BatchId|
                    #[trigger] members(r).contains(id) <==> exists|j: int|
                        0 <= j < i + 1 && (#[trigger] self.all_batches[j]).uid == id by {
                    if prev.contains(id) {
                        let j = choose|j: int|
                            0 <= j < i && (#[trigger] self.all_batches[j]).uid == id;
                        assert(self.all_batches[j].uid == id);
                    }
                    if id == self.all_batches[i as int].uid {
                        assert(self.all_batches[i as int].uid == id);
                    }
                    if exists|j: int| 0 <= j < i + 1 && (#[trigger] self.all_batches[j]).uid == id {
                        let j = choose|j: int|
                            0 <= j < i + 1 && (#[trigger] self.all_batches[j]).uid == id;
                        if j < i {
                            assert(self.all_batches[j].uid == id);
                        }
                    }
                }
            }
            i += 1;
        }
        assert(members(r) =~= self.batches().dom());
        r
    }

    /// What is filed under a status.
    pub fn get_batch_status(&self, status: Status) -> (r: RoaringBitmap)
        requires
            self.wf(),
        ensures
            members(r) == self.by_status(status),
    {
        self.status.get(&status)
    }

    /// What is filed under a kind.
    pub fn get_batch_kind(&self, kind: Kind) -> (r: RoaringBitmap)
        requires
            self.wf(),
        ensures
            members(r) == self.by_kind(kind),
    {
        self.kind.get(&kind)
    }

    /// The batches that touched an index.
    pub fn index_batches(&self, index: &String) -> (r: RoaringBitmap)
        requires
            self.wf(),
        ensures
            members(r) == self.by_index(index@),
    {
        self.index.get(index)
    }

    /// Puts a finished batch on record and files it under each of its statuses, kinds
    /// and indexes, under the enqueue times of its oldest and its youngest task, and
    /// under its own start and finish times.
    pub fn put(&mut self, batch: &ProcessingBatch)
        requires
            old(self).wf(),
            batch.wf(),
            batch.uid == old(self).next_uid(),
            batch.finished_at is Some,
        ensures
            final(self).wf(),
            final(self).holds_after(old(self), batch@),
    {
        let uid = batch.uid;
        let record = batch.to_batch();
        proof {
            old(self).lemma_next_uid();
            assert forall|i: int| 0 <= i < old(self).all_batches.len() implies (
            #[trigger] old(self).all_batches[i]).uid < uid by {
                lemma_batch_map_at(old(self).all_batches@, i);
            }
            lemma_batch_map_push(old(self).all_batches@, record);
        }
        self.all_batches.push(record);
        let ghost s0 = *self;
        let mut i: usize = 0;
        while i < batch.statuses.len()
            invariant
                i <= batch.statuses.spec_len(),
                self.status.wf(),
                self.all_batches == s0.all_batches,
                self.kind == s0.kind,
                self.index == s0.index,
                self.enqueued_at == s0.enqueued_at,
                self.started_at == s0.started_at,
                self.finished_at == s0.finished_at,
                forall|k: Status, id: BatchId|
                    #[trigger] self.status.has(k, id) == (s0.status.has(k, id) || (id == uid
                        && exists|j: int|
                        0 <= j < i && (#[trigger] batch.statuses.spec_get(j)).key() == k)),
            decreases batch.statuses.spec_len() - i,
        {
            let k = batch.statuses.get(i);
            self.status.insert(k, uid);
            proof {
                assert forall|k2: Status, id: BatchId|
                    #[trigger] self.status.has(k2, id) == (s0.status.has(k2, id) || (id == uid
                        && exists|j: int|
                        0 <= j < i + 1 && (#[trigger] batch.statuses.spec_get(j)).key() == k2)) by {
                    if id == uid && k2 == k.key() {
                        assert(batch.statuses.spec_get(i as int).key() == k2);
                    }
                    if exists|j: int|
                        0 <= j < i + 1 && (#[trigger] batch.statuses.spec_get(j)).key() == k2 {
                        let j = choose|j: int|
                            0 <= j < i + 1 && (#[trigger] batch.statuses.spec_get(j)).key() == k2;
                        if j < i {
                            assert(batch.statuses.spec_get(j).key() == k2);
                        }
                    }
                }
            }
            i += 1;
        }
        proof {
            assert forall|k: Status, id: BatchId|
                #[trigger] self.status.has(k, id) == (s0.status.has(k, id) || (id == uid
                    && batch@.statuses.contains(k))) by {
                if batch@.statuses.contains(k) {
                    let j = batch.statuses.lemma_member_index(k);
                    assert(batch.statuses.spec_get(j).key() == k);
                }
                if exists|j: int|
                    0 <= j < batch.statuses.spec_len() && (
                    #[trigger] batch.statuses.spec_get(j)).key() == k {
                    let j = choose|j: int|
                        0 <= j < batch.statuses.spec_len() && (
                        #[trigger] batch.statuses.spec_get(j)).key() == k;
                    batch.statuses.lemma_get_member(j);
                }
            }
        }
        let ghost s1 = *self;
        let mut i: usize = 0;
        while i < batch.kinds.len()
            invariant
                i <= batch.kinds.spec_len(),
                self.kind.wf(),
                self.all_batches == s1.all_batches,
                self.status == s1.status,
                self.index == s1.index,
                self.enqueued_at == s1.enqueued_at,
                self.started_at == s1.started_at,
                self.finished_at == s1.finished_at,
                forall|k: Kind, id: BatchId|
                    #[trigger] self.kind.has(k, id) == (s1.kind.has(k, id) || (id == uid
                        && exists|j: int|
                        0 <= j < i && (#[trigger] batch.kinds.spec_get(j)).key() == k)),
            decreases batch.kinds.spec_len() - i,
        {
            let k = batch.kinds.get(i);
            self.kind.insert(k, uid);
            proof {
                assert forall|k2: Kind, id: BatchId|
                    #[trigger] self.kind.has(k2, id) == (s1.kind.has(k2, id) || (id == uid
                        && exists|j: int|
                        0 <= j < i + 1 && (#[trigger] batch.kinds.spec_get(j)).key() == k2)) by {
                    if id == uid && k2 == k.key() {
                        assert(batch.kinds.spec_get(i as int).key() == k2);
                    }
                    if exists|j: int|
                        0 <= j < i + 1 && (#[trigger] batch.kinds.spec_get(j)).key() == k2 {
                        let j = choose|j: int|
                            0 <= j < i + 1 && (#[trigger] batch.kinds.spec_get(j)).key() == k2;
                        if j < i {
                            assert(batch.kinds.spec_get(j).key() == k2);
                        }
                    }
                }
            }
            i += 1;
        }
        proof {
            assert forall|k: Kind, id: BatchId|
                #[trigger] self.kind.has(k, id) == (s1.kind.has(k, id) || (id == uid
                    && batch@.kinds.contains(k))) by {
                if batch@.kinds.contains(k) {
                    let j = batch.kinds.lemma_member_index(k);
                    assert(batch.kinds.spec_get(j).key() == k);
                }
                if exists|j: int|
                    0 <= j < batch.kinds.spec_len() && (#[trigger] batch.kinds.spec_get(j)).key()
                        == k {
                    let j = choose|j: int|
                        0 <= j < batch.kinds.spec_len() && (
                        #[trigger] batch.kinds.spec_get(j)).key() == k;
                    batch.kinds.lemma_get_member(j);
                }
            }
        }
        let ghost s2 = *self;
        let mut i: usize = 0;
        while i < batch.indexes.len()
            invariant
                i <= batch.indexes.spec_len(),
                self.index.wf(),
                self.all_batches == s2.all_batches,
                self.status == s2.status,
                self.kind == s2.kind,
                self.enqueued_at == s2.enqueued_at,
                self.started_at == s2.started_at,
                self.finished_at == s2.finished_at,
                forall|k: Seq<char>, id: BatchId|
                    #[trigger] self.index.has(k, id) == (s2.index.has(k, id) || (id == uid
                        && exists|j: int|
                        0 <= j < i && (#[trigger] batch.indexes.spec_get(j)).key() == k)),
            decreases batch.indexes.spec_len() - i,
        {
            let k = batch.indexes.get(i);
            self.index.insert(k, uid);
            proof {
                assert forall|k2: Seq<char>, id: BatchId|
                    #[trigger] self.index.has(k2, id) == (s2.index.has(k2, id) || (id == uid
                        && exists|j: int|
                        0 <= j < i + 1 && (#[trigger] batch.indexes.spec_get(j)).key() == k2)) by {
                    if id == uid && k2 == k.key() {
                        assert(batch.indexes.spec_get(i as int).key() == k2);
                    }
                    if exists|j: int|
                        0 <= j < i + 1 && (#[trigger] batch.indexes.spec_get(j)).key() == k2 {
                        let j = choose|j: int|
                            0 <= j < i + 1 && (#[trigger] batch.indexes.spec_get(j)).key() == k2;
                        if j < i {
                            assert(batch.indexes.spec_get(j).key() == k2);
                        }
                    }
                }
            }
            i += 1;
        }
        proof {
            assert forall|k: Seq<char>, id: BatchId|
                #[trigger] self.index.has(k, id) == (s2.index.has(k, id) || (id == uid
                    && batch@.indexes.contains(k))) by {
                if batch@.indexes.contains(k) {
                    let j = batch.indexes.lemma_member_index(k);
                    assert(batch.indexes.spec_get(j).key() == k);
                }
                if exists|j: int|
                    0 <= j < batch.indexes.spec_len() && (
                    #[trigger] batch.indexes.spec_get(j)).key() == k {
                    let j = choose|j: int|
                        0 <= j < batch.indexes.spec_len() && (
                        #[trigger] batch.indexes.spec_get(j)).key() == k;
                    batch.indexes.lemma_get_member(j);
                }
            }
        }
        match batch.oldest_enqueued_at {
            Some(at) => {
                self.enqueued_at.insert(&at, uid);
            },
            None => {},
        }
        match batch.earliest_enqueued_at {
            Some(at) => {
                self.enqueued_at.insert(&at, uid);
            },
            None => {},
        }
        self.started_at.insert(&batch.started_at, uid);
        match batch.finished_at {
            Some(at) => {
                self.finished_at.insert(&at, uid);
            },
            None => {},
        }
        proof {
            assert(self.batches().contains_key(uid));
            assert forall|id: BatchId| old(self).batches().contains_key(id) implies #[trigger]
                self.batches().contains_key(id) by {}
            assert forall|i: int| 0 <= i < self.all_batches.len() implies (
            #[trigger] self.all_batches[i]).wf() by {
                if i < old(self).all_batches.len() {
                    assert(self.all_batches[i] == old(self).all_batches[i]);
                }
            }
        }
    }
}

} // verus!
